//! Ephemeral notifications, stacked at the bottom right of the window.
//!
//! Times are milliseconds on a single clock: a toast records when it was
//! created and how long it lives; `now` is read from the same clock.
use vstd::prelude::*;

use crate::widgets::icons;

verus! {

/// Default lifetime of a toast, in milliseconds.
pub const DEFAULT_TTL: u64 = 5000;

/// Lifetime of an error toast, in milliseconds: longer, to leave time to read
/// and copy it.
pub const ERROR_TTL: u64 = 10000;

/// Length of the fade-out, in milliseconds.
pub const FADE_MILLIS: u64 = 500;

/// Largest number of toasts stacked at once.
pub const MAX_VISIBLE: usize = 6;

/// Nature of a toast: its colour, icon and lifetime.
#[derive(Debug, Clone, Copy, PartialEq, Eq, Hash)]
pub enum ToastKind {
    /// Neutral information.
    Info,
    /// Successful operation.
    Success,
    /// The operation went through but deserves a look.
    Warning,
    /// Failure.
    Error,
}

/// Lifetime recommended for a kind.
pub open spec fn ttl_of(kind: ToastKind) -> u64 {
    match kind {
        ToastKind::Error => ERROR_TTL,
        _ => DEFAULT_TTL,
    }
}

impl ToastKind {
    /// Glyph shown left of the message.
    pub fn icon(self) -> (s: &'static str)
        ensures
            s == match self {
                ToastKind::Info => icons::INFO,
                ToastKind::Success => icons::SUCCESS,
                ToastKind::Warning => icons::WARNING,
                ToastKind::Error => icons::ERROR,
            },
    {
        match self {
            ToastKind::Info => icons::INFO,
            ToastKind::Success => icons::SUCCESS,
            ToastKind::Warning => icons::WARNING,
            ToastKind::Error => icons::ERROR,
        }
    }

    /// Lifetime recommended for this kind, in milliseconds.
    pub fn ttl(self) -> (t: u64)
        ensures
            t == ttl_of(self),
    {
        match self {
            ToastKind::Error => ERROR_TTL,
            _ => DEFAULT_TTL,
        }
    }
}

/// A toast and its creation time.
#[derive(Debug, Clone)]
pub struct Toast {
    /// Nature of the toast.
    pub kind: ToastKind,
    /// Text shown, and copied to the clipboard on click.
    pub message: String,
    /// Creation time, in milliseconds.
    pub created: u64,
    /// Lifetime, in milliseconds.
    pub ttl: u64,
}

/// Time left before a toast disappears at `now`; zero once it is stale.
pub open spec fn remaining_of(t: Toast, now: u64) -> u64 {
    let elapsed: int = if now >= t.created { now - t.created } else { 0 };
    if elapsed <= t.ttl { (t.ttl - elapsed) as u64 } else { 0 }
}

/// The toast has outlived its lifetime at `now`.
pub open spec fn expired_at(t: Toast, now: u64) -> bool {
    remaining_of(t, now) == 0
}

/// The toasts still alive at `now`, in their order.
pub open spec fn alive_at(items: Seq<Toast>, now: u64) -> Seq<Toast>
    decreases items.len(),
{
    if items.len() == 0 {
        Seq::empty()
    } else {
        let rest = alive_at(items.drop_first(), now);
        if expired_at(items[0], now) {
            rest
        } else {
            seq![items[0]] + rest
        }
    }
}

/// The newest `MAX_VISIBLE` toasts of `items`.
pub open spec fn stack_keep(items: Seq<Toast>) -> Seq<Toast> {
    if items.len() <= MAX_VISIBLE {
        items
    } else {
        items.skip(items.len() - MAX_VISIBLE)
    }
}

/// Reads the clock, in milliseconds since the Unix epoch
/// (`SystemTime::now().duration_since(UNIX_EPOCH)`); zero for a clock set
/// before the epoch. Nothing is promised of the value.
#[verifier::external_body]
pub(crate) fn now_millis() -> u64 {
    match std::time::SystemTime::now().duration_since(std::time::UNIX_EPOCH) {
        Ok(elapsed) => elapsed.as_millis() as u64,
        Err(_) => 0,
    }
}

impl Toast {
    /// A toast with the lifetime recommended for its kind, created now.
    pub fn new(kind: ToastKind, message: String) -> (t: Self)
        ensures
            t.kind == kind,
            t.message == message,
            t.ttl == ttl_of(kind),
    {
        Toast { kind, message, created: now_millis(), ttl: kind.ttl() }
    }

    /// Time left before disappearance, zero once the toast is stale.
    pub fn remaining(&self, now: u64) -> (r: u64)
        ensures
            r == remaining_of(*self, now),
    {
        let elapsed = if now >= self.created {
            now - self.created
        } else {
            0
        };
        if elapsed <= self.ttl {
            self.ttl - elapsed
        } else {
            0
        }
    }

    /// True once the toast has outlived its lifetime.
    pub fn is_expired(&self, now: u64) -> (b: bool)
        ensures
            b == expired_at(*self, now),
    {
        self.remaining(now) == 0
    }
}

/// Stack of toasts; the oldest on top, the newest at the bottom.
#[derive(Debug)]
pub struct Toasts {
    items: Vec<Toast>,
}

impl View for Toasts {
    type V = Seq<Toast>;

    closed spec fn view(&self) -> Seq<Toast> {
        self.items@
    }
}

impl Default for Toasts {
    fn default() -> (s: Self)
        ensures
            s@.len() == 0,
    {
        Toasts { items: Vec::new() }
    }
}

impl Toasts {
    /// Empty stack.
    pub fn new() -> (s: Self)
        ensures
            s@.len() == 0,
    {
        Toasts { items: Vec::new() }
    }

    /// Adds an information toast.
    pub fn info(&mut self, msg: String)
        ensures
            final(self)@ == stack_keep(old(self)@.push(final(self)@.last())),
            final(self)@.last().kind == ToastKind::Info,
            final(self)@.last().message == msg,
            final(self)@.last().ttl == DEFAULT_TTL,
    {
        self.push(Toast::new(ToastKind::Info, msg));
    }

    /// Adds a success toast.
    pub fn success(&mut self, msg: String)
        ensures
            final(self)@ == stack_keep(old(self)@.push(final(self)@.last())),
            final(self)@.last().kind == ToastKind::Success,
            final(self)@.last().message == msg,
            final(self)@.last().ttl == DEFAULT_TTL,
    {
        self.push(Toast::new(ToastKind::Success, msg));
    }

    /// Adds a warning toast.
    pub fn warning(&mut self, msg: String)
        ensures
            final(self)@ == stack_keep(old(self)@.push(final(self)@.last())),
            final(self)@.last().kind == ToastKind::Warning,
            final(self)@.last().message == msg,
            final(self)@.last().ttl == DEFAULT_TTL,
    {
        self.push(Toast::new(ToastKind::Warning, msg));
    }

    /// Adds an error toast.
    pub fn error(&mut self, msg: String)
        ensures
            final(self)@ == stack_keep(old(self)@.push(final(self)@.last())),
            final(self)@.last().kind == ToastKind::Error,
            final(self)@.last().message == msg,
            final(self)@.last().ttl == ERROR_TTL,
    {
        self.push(Toast::new(ToastKind::Error, msg));
    }

    /// Adds a ready-made toast and bounds the stack to [`MAX_VISIBLE`].
    pub fn push(&mut self, toast: Toast)
        ensures
            final(self)@ == stack_keep(old(self)@.push(toast)),
    {
        let ghost all = self.items@.push(toast);
        self.items.push(toast);
        let ghost mut dropped: int = 0;
        while self.items.len() > MAX_VISIBLE
            invariant
                0 <= dropped <= all.len(),
                self.items@ == all.skip(dropped),
                all.len() - dropped >= MAX_VISIBLE || dropped == 0,
            decreases self.items@.len(),
        {
            self.items.remove(0);
            proof {
                dropped = dropped + 1;
            }
        }
        assert(self.items@ =~= stack_keep(all));
    }

    /// Number of toasts waiting to be shown.
    pub fn len(&self) -> (n: usize)
        ensures
            n == self@.len(),
    {
        self.items.len()
    }

    /// True when no toast is pending.
    pub fn is_empty(&self) -> (b: bool)
        ensures
            b == (self@.len() == 0),
    {
        self.items.len() == 0
    }

    /// Empties the stack.
    pub fn clear(&mut self)
        ensures
            final(self)@.len() == 0,
    {
        self.items.clear();
    }

    /// Removes the toast at `index`, when there is one: its close button was
    /// clicked.
    pub fn close(&mut self, index: usize)
        ensures
            index < old(self)@.len() ==> final(self)@ == old(self)@.remove(index as int),
            index >= old(self)@.len() ==> final(self)@ == old(self)@,
    {
        if index < self.items.len() {
            self.items.remove(index);
        }
    }

    /// Read access to the toasts.
    pub fn items(&self) -> (s: &[Toast])
        ensures
            s@ == self@,
    {
        self.items.as_slice()
    }

    /// Drops the stale toasts and returns how many remain.
    pub fn prune(&mut self, now: u64) -> (n: usize)
        ensures
            final(self)@ == alive_at(old(self)@, now),
            n == final(self)@.len(),
    {
        let mut pending: Vec<Toast> = Vec::new();
        std::mem::swap(&mut pending, &mut self.items);
        let ghost all = pending@;
        let ghost mut taken: int = 0;
        assert(all.skip(0) =~= all);
        assert(self.items@ + alive_at(all, now) =~= alive_at(all, now));
        while pending.len() > 0
            invariant
                0 <= taken <= all.len(),
                pending@ == all.skip(taken),
                alive_at(all, now) == self.items@ + alive_at(all.skip(taken), now),
            decreases pending@.len(),
        {
            let toast = pending.remove(0);
            let ghost before = self.items@;
            proof {
                assert(all.skip(taken).drop_first() == all.skip(taken + 1));
                assert(toast == all.skip(taken)[0]);
            }
            if !toast.is_expired(now) {
                self.items.push(toast);
                proof {
                    assert(before + (seq![toast] + alive_at(all.skip(taken + 1), now))
                        =~= self.items@ + alive_at(all.skip(taken + 1), now));
                }
            }
            proof {
                taken = taken + 1;
            }
        }
        assert(all.skip(taken).len() == 0);
        assert(self.items@ + alive_at(all.skip(taken), now) == self.items@);
        self.items.len()
    }
}

} // verus!
