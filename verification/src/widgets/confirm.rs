//! Modal confirmation box, the safeguard of destructive operations.
//!
//! The component holds the state of the box and gives back the action to run
//! when the user confirms. It runs nothing itself.
use vstd::prelude::*;

use crate::text::{same_text, trim, trimmed};

verus! {

/// A Kubernetes object, named in full: API group, version, kind, resource,
/// namespace and name.
#[derive(Debug, Clone, PartialEq, Eq, Default)]
pub struct ResourceRef {
    /// API group, empty for the core group.
    pub group: String,
    /// API version.
    pub version: String,
    /// Kind.
    pub kind: String,
    /// Plural resource name.
    pub plural: String,
    /// Namespace, absent for cluster-wide objects.
    pub namespace: Option<String>,
    /// Name.
    pub name: String,
}

/// What to do when the user confirms.
///
/// The variant carries the identity of the target only: the caller turns it
/// into a command for the backend.
#[derive(Debug, Clone, PartialEq, Eq)]
pub enum ConfirmAction {
    /// Delete a resource of the cluster.
    DeleteResource(ResourceRef),
    /// Drain a node of its pods.
    DrainNode(String),
    /// Restart a workload progressively.
    RestartWorkload(ResourceRef),
    /// Bring a workload back to its previous revision.
    RollbackWorkload(ResourceRef),
    /// Bring a workload to the given number of replicas.
    ScaleWorkload(ResourceRef, i32),
}

/// State of a confirmation box being shown.
#[derive(Debug, Clone, PartialEq, Eq)]
pub struct Confirm {
    /// Title of the box.
    pub title: String,
    /// Explaining body, under the title.
    pub body: String,
    /// True for a destructive operation: red button and firmer tone.
    pub danger: bool,
    /// When set, the user must type exactly this text to confirm.
    pub require_text: Option<String>,
    /// What the user typed so far.
    pub typed: String,
    /// Action given back on confirmation.
    pub on_confirm: ConfirmAction,
}

/// True when the box may be confirmed: always without a required text,
/// otherwise when what was typed matches it, surrounding spaces aside.
pub open spec fn ready(c: Confirm) -> bool {
    match c.require_text {
        None => true,
        Some(expected) => trim(c.typed@) == trim(expected@),
    }
}

/// Label of the confirmation button.
pub open spec fn confirm_label_of(c: Confirm) -> Seq<char> {
    if c.danger {
        "Supprimer"@
    } else {
        "Confirmer"@
    }
}

impl Confirm {
    /// A plain box, not destructive, without text to type.
    pub fn new(title: String, body: String, on_confirm: ConfirmAction) -> (c: Self)
        ensures
            c == (Confirm { title, body, danger: false, require_text: None, typed: c.typed, on_confirm }),
            c.typed@.len() == 0,
    {
        Self { title, body, danger: false, require_text: None, typed: String::new(), on_confirm }
    }

    /// Marks the box as destructive.
    pub fn danger(self) -> (c: Self)
        ensures
            c == (Confirm { danger: true, ..self }),
    {
        let mut c = self;
        c.danger = true;
        c
    }

    /// Requires `expected` to be typed exactly before confirming.
    pub fn require_text(self, expected: String) -> (c: Self)
        ensures
            c == (Confirm { require_text: Some(expected), ..self }),
    {
        let mut c = self;
        c.require_text = Some(expected);
        c
    }

    /// True when confirming is allowed.
    ///
    /// Without a required text the box can always be confirmed; otherwise
    /// what was typed must match it character for character (surrounding
    /// spaces aside).
    pub fn is_ready(&self) -> (b: bool)
        ensures
            b == ready(*self),
    {
        match &self.require_text {
            None => true,
            Some(expected) => {
                let a = trimmed(self.typed.as_str());
                let e = trimmed(expected.as_str());
                same_text(a.as_str(), e.as_str())
            },
        }
    }

    /// Label of the confirmation button.
    pub fn confirm_label(&self) -> (s: &'static str)
        ensures
            s@ == confirm_label_of(*self),
    {
        if self.danger {
            "Supprimer"
        } else {
            "Confirmer"
        }
    }
}

} // verus!
