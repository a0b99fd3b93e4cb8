//! Why output cut at any byte shows as if it had come in one piece: a
//! character that the end of a frame splits is kept and completed by the
//! next frame.
use vstd::prelude::*;

use crate::text::{char_bytes, cut_char, is_valid_up_to};
use crate::widgets::term::{feed_run, kept_bytes, lemma_valid_up_to_unique, steps, valid_prefix_len, Screen};
use vstd::utf8::{decode_utf8, encode_utf8, valid_utf8};

verus! {

/// Characters through the parser: a concatenation is run piece after piece.
proof fn lemma_steps_append(s: Screen, x: Seq<char>, y: Seq<char>)
    ensures
        steps(s, x + y) == steps(steps(s, x), y),
    decreases x.len(),
{
    if x.len() == 0 {
        assert(x + y == y);
    } else {
        assert((x + y)[0] == x[0]);
        assert((x + y).drop_first() == x.drop_first() + y);
        lemma_steps_append(super::step(s, x[0]), x.drop_first(), y);
    }
}

/// Encoding is taken piece after piece.
proof fn lemma_encode_append(x: Seq<char>, y: Seq<char>)
    ensures
        encode_utf8(x + y) == encode_utf8(x) + encode_utf8(y),
    decreases x.len(),
{
    if x.len() == 0 {
        assert(x + y == y);
        assert(encode_utf8(x) == Seq::<u8>::empty());
        assert(Seq::<u8>::empty() + encode_utf8(y) == encode_utf8(y));
    } else {
        assert((x + y)[0] == x[0]);
        assert((x + y).drop_first() == x.drop_first() + y);
        lemma_encode_append(x.drop_first(), y);
        let head = vstd::utf8::encode_scalar(x[0] as u32);
        assert(head + (encode_utf8(x.drop_first()) + encode_utf8(y)) == (head + encode_utf8(
            x.drop_first(),
        )) + encode_utf8(y));
    }
}

/// Two valid pieces make a valid whole, decoded piece after piece.
proof fn lemma_decode_concat(x: Seq<u8>, y: Seq<u8>)
    requires
        valid_utf8(x),
        valid_utf8(y),
    ensures
        valid_utf8(x + y),
        decode_utf8(x + y) == decode_utf8(x) + decode_utf8(y),
{
    vstd::utf8::valid_utf8_concat(x, y);
    vstd::utf8::decode_utf8_encode_utf8(x);
    vstd::utf8::decode_utf8_encode_utf8(y);
    lemma_encode_append(decode_utf8(x), decode_utf8(y));
    vstd::utf8::encode_utf8_decode_utf8(decode_utf8(x) + decode_utf8(y));
}

/// What follows a valid prefix of a valid sequence is valid.
proof fn lemma_valid_rest(x: Seq<u8>, y: Seq<u8>)
    requires
        valid_utf8(x),
        valid_utf8(x + y),
    ensures
        valid_utf8(y),
{
    let w = x + y;
    assert(w.subrange(0, x.len() as int) == x);
    assert(w.subrange(x.len() as int, w.len() as int) == y);
    if !valid_utf8(y) {
        vstd::utf8::partial_valid_partial_invalid_utf8(w, x.len() as int);
    }
}

/// The empty sequence is valid.
proof fn lemma_empty_valid()
    ensures
        valid_utf8(Seq::<u8>::empty()),
        decode_utf8(Seq::<u8>::empty()) == Seq::<char>::empty(),
{
    reveal_with_fuel(valid_utf8, 1);
}

/// The encoding of one character is valid.
proof fn lemma_char_bytes_valid(c: char)
    ensures
        valid_utf8(char_bytes(c)),
{
    vstd::utf8::encode_utf8_valid_utf8(seq![c]);
}

/// No piece of the encoding of a character, shorter than it, is valid.
proof fn lemma_char_bytes(c: char, n: int)
    requires
        0 < n < char_bytes(c).len(),
    ensures
        !valid_utf8(char_bytes(c).take(n)),
{
    let e = char_bytes(c);
    vstd::utf8::encode_utf8_first_scalar(seq![c]);
    let t = e.take(n);
    assert(t[0] == e[0]);
    if valid_utf8(t) {
        assert(vstd::utf8::valid_first_scalar(t));
        assert(seq![c].drop_first() == Seq::<char>::empty());
        assert(encode_utf8(Seq::<char>::empty()) == Seq::<u8>::empty());
        assert(e == vstd::utf8::encode_scalar(c as u32) + Seq::<u8>::empty());
        assert(e.len() == vstd::utf8::length_of_first_scalar(e));
        assert(false);
    }
}

/// The first character of a valid sequence, as bytes.
proof fn lemma_first_char(w: Seq<u8>) -> (c: char)
    requires
        valid_utf8(w),
        w.len() > 0,
    ensures
        char_bytes(c) == w.take(vstd::utf8::length_of_first_scalar(w)),
        1 <= char_bytes(c).len() <= 4,
        valid_utf8(vstd::utf8::pop_first_scalar(w)),
        decode_utf8(w) == seq![c] + decode_utf8(vstd::utf8::pop_first_scalar(w)),
{
    let c = vstd::utf8::decode_first_scalar(w) as char;
    vstd::utf8::decode_utf8_first_scalar(w);
    assert(seq![c].drop_first() == Seq::<char>::empty());
    assert(encode_utf8(Seq::<char>::empty()) == Seq::<u8>::empty());
    assert(char_bytes(c) == vstd::utf8::encode_scalar(c as u32) + Seq::<u8>::empty());
    assert(w.take(vstd::utf8::length_of_first_scalar(w)) == vstd::utf8::take_first_scalar(w));
    c
}

/// When `a + b` is valid UTF-8 and `a` is not, the longest valid prefix of
/// `a` stops where the last whole character of `a` ends, and the rest of `a`
/// is the beginning of a character, at most three bytes.
proof fn lemma_cut_tail(a: Seq<u8>, b: Seq<u8>)
    requires
        valid_utf8(a + b),
        !valid_utf8(a),
    ensures
        is_valid_up_to(a, valid_prefix_len(a)),
        valid_prefix_len(a) < a.len(),
        a.len() - valid_prefix_len(a) <= 3,
        cut_char(a.skip(valid_prefix_len(a) as int)),
        valid_utf8(a.take(valid_prefix_len(a) as int)),
        valid_utf8((a + b).skip(valid_prefix_len(a) as int)),
        decode_utf8(a + b) == decode_utf8(a.take(valid_prefix_len(a) as int)) + decode_utf8(
            (a + b).skip(valid_prefix_len(a) as int),
        ),
    decreases a.len(),
{
    lemma_empty_valid();
    let w = a + b;
    if a.len() == 0 {
        assert(a == Seq::<u8>::empty());
    }
    let c = lemma_first_char(w);
    let l = vstd::utf8::length_of_first_scalar(w);
    let e = char_bytes(c);
    if l > a.len() {
        // `a` ends inside the first character.
        assert forall|k: int| 0 < k <= a.len() implies !valid_utf8(#[trigger] a.take(k)) by {
            assert(a.take(k) == e.take(k));
            lemma_char_bytes(c, k);
        }
        assert(a.take(0) == Seq::<u8>::empty());
        assert(is_valid_up_to(a, 0));
        lemma_valid_up_to_unique(a, 0);
        assert(a.skip(0) == a);
        assert(e.take(a.len() as int) == a);
        assert(cut_char(a));
        assert(w.skip(0) == w);
        assert(Seq::<char>::empty() + decode_utf8(w) == decode_utf8(w));
    } else {
        let head = a.take(l);
        assert(head == e);
        if l == a.len() {
            assert(a == head);
            lemma_char_bytes_valid(c);
            assert(false);
        }
        let a2 = a.skip(l);
        let w2 = vstd::utf8::pop_first_scalar(w);
        assert(w2 == a2 + b);
        lemma_char_bytes_valid(c);
        if valid_utf8(a2) {
            lemma_decode_concat(head, a2);
            assert(head + a2 == a);
        }
        lemma_cut_tail(a2, b);
        let v2 = valid_prefix_len(a2) as int;
        let v = l + v2;
        // The longest valid prefix of `a` is the first character and that of `a2`.
        assert(a.take(v) == head + a2.take(v2));
        lemma_decode_concat(head, a2.take(v2));
        assert forall|k: int| v < k <= a.len() implies !valid_utf8(#[trigger] a.take(k)) by {
            assert(a.take(k) == head + a2.take(k - l));
            if valid_utf8(a.take(k)) {
                lemma_valid_rest(head, a2.take(k - l));
                assert(is_valid_up_to(a2, v2 as nat));
                assert(!valid_utf8(a2.take(k - l)));
            }
        }
        assert(is_valid_up_to(a, v as nat));
        lemma_valid_up_to_unique(a, v as nat);
        assert(a.skip(v) == a2.skip(v2));
        assert(w.skip(v) == w2.skip(v2));
        // The whole decodes as the first character, then the rest.
        assert(w == head + w2);
        lemma_decode_concat(head, w2);
        assert(decode_utf8(head) + (decode_utf8(a2.take(v2)) + decode_utf8(w2.skip(v2))) == (
        decode_utf8(head) + decode_utf8(a2.take(v2))) + decode_utf8(w2.skip(v2)));
    }
}

/// Output cut anywhere shows as if it had come whole: feeding `a`, then
/// `b` after the bytes kept from `a`, leaves the screen that feeding `a + b`
/// at once leaves, and nothing kept, whenever `a + b` is valid UTF-8.
pub proof fn lemma_feed_split(s: Screen, a: Seq<u8>, b: Seq<u8>)
    requires
        valid_utf8(a + b),
    ensures
        feed_run(feed_run(s, a).0, kept_bytes(feed_run(s, a).1) + b).0 == feed_run(s, a + b).0,
        feed_run(feed_run(s, a).0, kept_bytes(feed_run(s, a).1) + b).1 == Seq::<u8>::empty(),
        valid_utf8(kept_bytes(feed_run(s, a).1) + b),
{
    lemma_empty_valid();
    let w = a + b;
    if a.len() == 0 {
        assert(w == b);
        assert(Seq::<u8>::empty() + b == b);
    } else if valid_utf8(a) {
        lemma_valid_rest(a, b);
        lemma_decode_concat(a, b);
        let s1 = steps(s, decode_utf8(a));
        assert(Seq::<u8>::empty() + b == b);
        if b.len() == 0 {
            assert(w == a);
        } else {
            lemma_steps_append(s, decode_utf8(a), decode_utf8(b));
        }
    } else {
        lemma_cut_tail(a, b);
        let v = valid_prefix_len(a);
        let s1 = steps(s, decode_utf8(a.take(v as int)));
        let rest = a.skip(v as int);
        assert(feed_run(s, a) == (s1, rest));
        assert(kept_bytes(rest) == rest);
        assert(rest + b == w.skip(v as int));
        lemma_steps_append(s, decode_utf8(a.take(v as int)), decode_utf8(w.skip(v as int)));
    }
}

/// The bytes of `pieces`, one after the other.
pub open spec fn joined_bytes(pieces: Seq<Seq<u8>>) -> Seq<u8>
    decreases pieces.len(),
{
    if pieces.len() == 0 {
        Seq::empty()
    } else {
        pieces[0] + joined_bytes(pieces.drop_first())
    }
}

/// The screen and the kept bytes after feeding `pieces` one after the other
/// to the screen `s` that keeps the bytes `kept`, as `Terminal::feed` does.
pub open spec fn feed_pieces(s: Screen, kept: Seq<u8>, pieces: Seq<Seq<u8>>) -> (Screen, Seq<u8>)
    decreases pieces.len(),
{
    if pieces.len() == 0 {
        (s, kept)
    } else {
        let r = feed_run(s, kept + pieces[0]);
        feed_pieces(r.0, kept_bytes(r.1), pieces.drop_first())
    }
}

/// Output cut into any number of pieces, even inside characters, shows as
/// if it had come whole: feeding the pieces one after the other leaves the
/// screen that feeding all their bytes at once leaves, and nothing kept,
/// whenever those bytes are valid UTF-8.
pub proof fn lemma_feed_pieces(s: Screen, kept: Seq<u8>, pieces: Seq<Seq<u8>>)
    requires
        pieces.len() > 0,
        valid_utf8(kept + joined_bytes(pieces)),
    ensures
        feed_pieces(s, kept, pieces).0 == feed_run(s, kept + joined_bytes(pieces)).0,
        feed_pieces(s, kept, pieces).1 == Seq::<u8>::empty(),
    decreases pieces.len(),
{
    let a = kept + pieces[0];
    let rest = pieces.drop_first();
    let b = joined_bytes(rest);
    assert(kept + joined_bytes(pieces) == a + b);
    lemma_feed_split(s, a, b);
    let r = feed_run(s, a);
    if pieces.len() == 1 {
        assert(rest.len() == 0);
        assert(b == Seq::<u8>::empty());
        assert(a + b == a);
        lemma_empty_valid();
        assert(r.1 == Seq::<u8>::empty());
        assert(feed_pieces(r.0, kept_bytes(r.1), rest) == (r.0, kept_bytes(r.1)));
    } else {
        lemma_feed_pieces(r.0, kept_bytes(r.1), rest);
    }
}

} // verus!
