//! The mathematical model of buffer text: character sequences addressed by
//! UTF-8 byte offsets.
//!
//! Offsets arrive from the presentation layer in byte units, while the text
//! representation is manipulated by character index. The definitions here
//! relate the two: a byte offset is valid exactly when it is the byte length
//! of a prefix of the character sequence, and converting it to a character
//! index is fallible precisely when it would split a multi-byte character.

use vstd::prelude::*;
use vstd::utf8::{char_is_scalar, encode_scalar, encode_utf8};

verus! {

/// The UTF-8 byte length of a character sequence.
pub open spec fn byte_len(s: Seq<char>) -> nat {
    encode_utf8(s).len()
}

/// The byte offset at which character index `ci` starts.
pub open spec fn byte_of(s: Seq<char>, ci: int) -> nat
    recommends
        0 <= ci <= s.len(),
{
    byte_len(s.take(ci))
}

/// `b` lands on a character boundary of `s`: it is the byte offset of some
/// character index (0 and the total byte length included).
pub open spec fn is_boundary(s: Seq<char>, b: int) -> bool {
    exists|ci: int| 0 <= ci <= s.len() && byte_of(s, ci) == b
}

/// The character index that starts at byte offset `b`.
pub open spec fn char_index_of(s: Seq<char>, b: int) -> int
    recommends
        is_boundary(s, b),
{
    choose|ci: int| 0 <= ci <= s.len() && byte_of(s, ci) == b
}

/// UTF-8 encoding distributes over concatenation.
pub proof fn lemma_encode_concat(a: Seq<char>, b: Seq<char>)
    ensures
        encode_utf8(a + b) == encode_utf8(a) + encode_utf8(b),
    decreases a.len(),
{
    if a.len() == 0 {
        assert(a + b =~= b);
        assert(encode_utf8(a) + encode_utf8(b) =~= encode_utf8(b));
    } else {
        assert((a + b).drop_first() =~= a.drop_first() + b);
        lemma_encode_concat(a.drop_first(), b);
        assert((a + b)[0] == a[0]);
        assert(encode_scalar(a[0] as u32) + (encode_utf8(a.drop_first()) + encode_utf8(b)) =~= (
        encode_scalar(a[0] as u32) + encode_utf8(a.drop_first())) + encode_utf8(b));
    }
}

/// Each character encodes to at least one byte, so a sequence's byte length
/// is at least its character count.
pub proof fn lemma_byte_len_lower(s: Seq<char>)
    ensures
        byte_len(s) >= s.len(),
    decreases s.len(),
{
    if s.len() > 0 {
        lemma_byte_len_lower(s.drop_first());
    }
}

/// Byte offset 0 is the offset of character index 0, and the total byte
/// length is the offset of the final character index.
pub proof fn lemma_byte_of_ends(s: Seq<char>)
    ensures
        byte_of(s, 0) == 0,
        byte_of(s, s.len() as int) == byte_len(s),
{
    assert(s.take(0) =~= Seq::<char>::empty());
    assert(s.take(s.len() as int) =~= s);
}

/// Prefix byte offsets grow strictly with the character index: each extra
/// character contributes at least one byte.
pub proof fn lemma_byte_of_strict(s: Seq<char>, ci: int, cj: int)
    requires
        0 <= ci <= cj <= s.len(),
    ensures
        byte_of(s, ci) + (cj - ci) <= byte_of(s, cj),
{
    assert(s.take(cj) =~= s.take(ci) + s.subrange(ci, cj));
    lemma_encode_concat(s.take(ci), s.subrange(ci, cj));
    lemma_byte_len_lower(s.subrange(ci, cj));
}

/// A boundary's character index is unique: no two character indices share a
/// byte offset.
pub proof fn lemma_char_index_of(s: Seq<char>, b: int)
    requires
        is_boundary(s, b),
    ensures
        0 <= char_index_of(s, b) <= s.len(),
        byte_of(s, char_index_of(s, b)) == b,
        forall|ci: int| 0 <= ci <= s.len() && byte_of(s, ci) == b ==> ci == char_index_of(s, b),
{
    let picked = char_index_of(s, b);
    assert(0 <= picked <= s.len() && byte_of(s, picked) == b);
    assert forall|ci: int| 0 <= ci <= s.len() && byte_of(s, ci) == b implies ci == picked by {
        if ci < picked {
            lemma_byte_of_strict(s, ci, picked);
        } else if picked < ci {
            lemma_byte_of_strict(s, picked, ci);
        }
    }
}

/// Splicing `t` in at character index `ci` shifts prefix byte offsets:
/// offsets up to `ci` are unchanged, and offsets from `ci` on grow by `t`'s
/// byte length.
pub proof fn lemma_byte_of_insert(s: Seq<char>, ci: int, t: Seq<char>, cj: int)
    requires
        0 <= ci <= s.len(),
    ensures
        0 <= cj <= ci ==> byte_of(s.take(ci) + t + s.skip(ci), cj) == byte_of(s, cj),
        ci <= cj <= s.len() ==> byte_of(s.take(ci) + t + s.skip(ci), cj + t.len()) == byte_of(
            s,
            cj,
        ) + byte_len(t),
{
    let spliced = s.take(ci) + t + s.skip(ci);
    if 0 <= cj <= ci {
        assert(spliced.take(cj) =~= s.take(cj));
    }
    if ci <= cj <= s.len() {
        assert(spliced.take(cj + t.len()) =~= s.take(ci) + t + s.subrange(ci, cj));
        assert(s.take(cj) =~= s.take(ci) + s.subrange(ci, cj));
        lemma_encode_concat(s.take(ci) + t, s.subrange(ci, cj));
        lemma_encode_concat(s.take(ci), t);
        lemma_encode_concat(s.take(ci), s.subrange(ci, cj));
        assert((s.take(ci) + t) + s.subrange(ci, cj) =~= s.take(ci) + t + s.subrange(ci, cj));
    }
}

/// Removing the characters in `[cs, ce)` likewise: offsets up to `cs` are
/// unchanged, and offsets from `ce` on shrink by the removed byte count.
pub proof fn lemma_byte_of_remove(s: Seq<char>, cs: int, ce: int, cj: int)
    requires
        0 <= cs <= ce <= s.len(),
    ensures
        0 <= cj <= cs ==> byte_of(s.take(cs) + s.skip(ce), cj) == byte_of(s, cj),
        ce <= cj <= s.len() ==> byte_of(s.take(cs) + s.skip(ce), cs + (cj - ce)) == byte_of(
            s,
            cj,
        ) - (byte_of(s, ce) - byte_of(s, cs)),
{
    let removed = s.take(cs) + s.skip(ce);
    if 0 <= cj <= cs {
        assert(removed.take(cj) =~= s.take(cj));
    }
    if ce <= cj <= s.len() {
        assert(removed.take(cs + (cj - ce)) =~= s.take(cs) + s.subrange(ce, cj));
        lemma_encode_concat(s.take(cs), s.subrange(ce, cj));
        assert(s.take(cj) =~= s.take(ce) + s.subrange(ce, cj));
        lemma_encode_concat(s.take(ce), s.subrange(ce, cj));
        assert(s.take(ce) =~= s.take(cs) + s.subrange(cs, ce));
        lemma_encode_concat(s.take(cs), s.subrange(cs, ce));
    }
}

/// The byte offset of the next character index adds exactly that
/// character's encoded length.
pub proof fn lemma_byte_of_step(s: Seq<char>, ci: int)
    requires
        0 <= ci < s.len(),
    ensures
        byte_of(s, ci + 1) == byte_of(s, ci) + encode_scalar(s[ci] as u32).len(),
{
    let single = seq![s[ci]];
    assert(s.take(ci + 1) =~= s.take(ci) + single);
    lemma_encode_concat(s.take(ci), single);
    assert(single.drop_first() =~= Seq::<char>::empty());
    assert(encode_utf8(single) == encode_scalar(single[0] as u32) + encode_utf8(
        single.drop_first(),
    ));
    assert(encode_utf8(single) =~= encode_scalar(s[ci] as u32));
}

/// The UTF-8 byte length of one character.
pub fn char_utf8_len(c: char) -> (n: usize)
    ensures
        n == encode_scalar(c as u32).len(),
        1 <= n <= 4,
{
    proof {
        char_is_scalar(c);
    }
    let u = c as u32;
    if u < 0x80 {
        1
    } else if u < 0x800 {
        2
    } else if u < 0x10000 {
        3
    } else {
        4
    }
}

} // verus!
