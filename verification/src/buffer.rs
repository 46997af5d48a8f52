//! One open file's editable content plus its cursor location.
//!
//! Offsets arrive in byte units; the buffer converts each to a character
//! index before mutating and fails with `InvalidOffset` when an offset does
//! not land on a character boundary or exceeds the content length — never a
//! silent truncation. The cursor is a byte offset and always lies on a
//! character boundary.

use crate::action::{BufferAction, BufferActionV, DeleteV, Edit};
use crate::engine::{EngineError, EngineErrorV, EngineResult};
use crate::rope::{
    rope_char, rope_insert, rope_len_bytes, rope_len_chars, rope_remove, rope_text, rope_to_string,
};
use crate::text::{
    byte_len, byte_of, char_index_of, char_utf8_len, is_boundary, lemma_byte_of_ends,
    lemma_byte_of_insert, lemma_byte_of_remove, lemma_byte_of_step, lemma_byte_of_strict,
    lemma_char_index_of, lemma_encode_concat,
};
use ropey::Rope;
use vstd::prelude::*;

verus! {

/// The cursor location inside a buffer: a byte offset into the content.
#[derive(Debug, Clone, Copy, PartialEq, Eq, Structural)]
pub struct Location {
    pub cursor: usize,
}

impl Default for Location {
    /// A fresh location points at the start of the content.
    fn default() -> (r: Self)
        ensures
            r == (Location { cursor: 0 }),
    {
        Location { cursor: 0 }
    }
}

/// One open file: its path, its editable text, and the cursor.
#[derive(Debug)]
pub struct Buffer {
    pub loc: Location,
    pub path: String,
    pub text: Rope,
}

/// Mathematical model of a [`Buffer`].
pub struct BufferV {
    pub cursor: int,
    pub path: Seq<char>,
    pub text: Seq<char>,
}

impl View for Buffer {
    type V = BufferV;

    open spec fn view(&self) -> BufferV {
        BufferV { cursor: self.loc.cursor as int, path: self.path@, text: rope_text(self.text) }
    }
}

impl BufferV {
    /// The buffer invariant: the cursor lies on a character boundary of the
    /// text (so in particular it does not exceed the byte length).
    pub open spec fn wf(self) -> bool {
        is_boundary(self.text, self.cursor)
    }

    /// The buffer after inserting `t` so that it starts at byte offset `b`.
    /// A cursor at or after the insertion point moves past the inserted
    /// text; a cursor before it stays put.
    pub open spec fn insert_result(self, b: int, t: Seq<char>) -> BufferV
        recommends
            is_boundary(self.text, b),
    {
        let ci = char_index_of(self.text, b);
        BufferV {
            text: self.text.take(ci) + t + self.text.skip(ci),
            cursor: if b <= self.cursor {
                self.cursor + byte_len(t)
            } else {
                self.cursor
            },
            path: self.path,
        }
    }

    /// The buffer after deleting the bytes in `[bs, be)`. A cursor after the
    /// deleted range shifts back by the deleted byte count; a cursor inside
    /// it clamps to the range's start; a cursor before it stays put.
    pub open spec fn delete_result(self, bs: int, be: int) -> BufferV
        recommends
            is_boundary(self.text, bs),
            is_boundary(self.text, be),
            bs <= be,
    {
        let cs = char_index_of(self.text, bs);
        let ce = char_index_of(self.text, be);
        BufferV {
            text: self.text.take(cs) + self.text.skip(ce),
            cursor: if self.cursor >= be {
                self.cursor - (be - bs)
            } else if self.cursor > bs {
                bs
            } else {
                self.cursor
            },
            path: self.path,
        }
    }

    /// What one editing action does: the buffer it yields, or the error.
    /// Byte offsets must land on character boundaries; a `Replace` is a
    /// delete followed by an insert at the deleted range's start; an
    /// `Append` inserts at the cursor.
    pub open spec fn apply_spec(self, a: BufferActionV) -> Result<BufferV, EngineErrorV> {
        match a {
            BufferActionV::Insert(iv) => if is_boundary(self.text, iv.index) {
                Ok(self.insert_result(iv.index, iv.text))
            } else {
                Err(EngineErrorV::InvalidOffset(iv.index))
            },
            BufferActionV::Delete(dv) => if !is_boundary(self.text, dv.start) {
                Err(EngineErrorV::InvalidOffset(dv.start))
            } else if !is_boundary(self.text, dv.end) {
                Err(EngineErrorV::InvalidOffset(dv.end))
            } else if dv.start > dv.end {
                Err(EngineErrorV::InvalidOffset(dv.start))
            } else {
                Ok(self.delete_result(dv.start, dv.end))
            },
            BufferActionV::Replace(rv) => if !is_boundary(self.text, rv.start) {
                Err(EngineErrorV::InvalidOffset(rv.start))
            } else if !is_boundary(self.text, rv.end) {
                Err(EngineErrorV::InvalidOffset(rv.end))
            } else if rv.start > rv.end {
                Err(EngineErrorV::InvalidOffset(rv.start))
            } else {
                Ok(self.delete_result(rv.start, rv.end).insert_result(rv.start, rv.new_text))
            },
            BufferActionV::Append(t) => if is_boundary(self.text, self.cursor) {
                Ok(self.insert_result(self.cursor, t))
            } else {
                Err(EngineErrorV::InvalidOffset(self.cursor))
            },
        }
    }
}

impl Buffer {
    /// Converts a byte offset into the character index at which it falls.
    /// Fails with `InvalidOffset` when the offset splits a multi-byte
    /// character or exceeds the content length.
    fn fix_index(&self, i: usize) -> (r: EngineResult<usize>)
        ensures
            match r {
                Ok(ci) => is_boundary(self@.text, i as int) && ci == char_index_of(
                    self@.text,
                    i as int,
                ),
                Err(e) => !is_boundary(self@.text, i as int) && e@ == EngineErrorV::InvalidOffset(
                    i as int,
                ),
            },
    {
        let ghost s = self@.text;
        let n = rope_len_chars(&self.text);
        let total = rope_len_bytes(&self.text);
        let mut ci: usize = 0;
        let mut acc: usize = 0;
        proof {
            lemma_byte_of_ends(s);
        }
        while acc < i && ci < n
            invariant
                s == self@.text,
                n == s.len(),
                total == byte_len(s),
                ci <= n,
                acc == byte_of(s, ci as int),
                forall|cj: int| 0 <= cj < ci ==> byte_of(s, cj) < i,
            decreases n - ci,
        {
            let c = rope_char(&self.text, ci);
            let step = char_utf8_len(c);
            proof {
                lemma_byte_of_step(s, ci as int);
                lemma_byte_of_strict(s, ci as int + 1, n as int);
                lemma_byte_of_ends(s);
                assert(acc + step == byte_of(s, ci as int + 1));
                assert(byte_of(s, ci as int + 1) <= byte_len(s));
            }
            acc = acc + step;
            ci = ci + 1;
        }
        if acc == i {
            proof {
                lemma_char_index_of(s, i as int);
            }
            Ok(ci)
        } else {
            proof {
                if acc < i {
                    // ran out of characters: the offset is past the end
                    assert(ci == n);
                    assert forall|cj: int| 0 <= cj <= s.len() implies byte_of(s, cj) != i by {
                        if cj < ci {
                        } else {
                            assert(cj == n);
                            assert(byte_of(s, cj) == acc);
                        }
                    }
                } else {
                    // overshot: the offset splits the character before `ci`
                    assert(ci > 0);
                    assert forall|cj: int| 0 <= cj <= s.len() implies byte_of(s, cj) != i by {
                        if cj < ci {
                        } else {
                            lemma_byte_of_strict(s, ci as int, cj);
                            assert(byte_of(s, cj) >= acc);
                        }
                    }
                }
            }
            Err(EngineError::InvalidOffset(i))
        }
    }

    /// The buffer's whole content as one string, for rendering or
    /// persisting.
    pub fn content(&self) -> (s: String)
        ensures
            s@ == self@.text,
    {
        rope_to_string(&self.text)
    }

    /// Inserts `text` so that it starts at byte offset `index`, adjusting
    /// the cursor as [`BufferV::insert_result`] describes.
    fn insert_at(&mut self, index: usize, text: &str) -> (r: EngineResult<()>)
        requires
            old(self)@.wf(),
        ensures
            final(self)@.wf(),
            final(self)@.path == old(self)@.path,
            if is_boundary(old(self)@.text, index as int) {
                r is Ok && final(self)@ == old(self)@.insert_result(index as int, text@)
            } else {
                (r matches Err(e) && e@ == EngineErrorV::InvalidOffset(index as int)) && final(self)@ == old(self)@
            },
    {
        let ghost pre = self@;
        let ghost s = pre.text;
        let ci = match self.fix_index(index) {
            Ok(ci) => ci,
            Err(e) => {
                return Err(e);
            },
        };
        proof {
            lemma_char_index_of(s, index as int);
            lemma_byte_of_ends(s);
            lemma_byte_of_strict(s, ci as int, s.len() as int);
        }
        rope_insert(&mut self.text, ci, text);
        let ghost spliced = s.take(ci as int) + text@ + s.skip(ci as int);
        proof {
            // the new text's byte length is the old one plus the insertion's
            assert(s =~= s.take(ci as int) + s.skip(ci as int));
            lemma_encode_concat(s.take(ci as int), s.skip(ci as int));
            lemma_encode_concat(s.take(ci as int) + text@, s.skip(ci as int));
            lemma_encode_concat(s.take(ci as int), text@);
            assert((s.take(ci as int) + text@) + s.skip(ci as int) =~= spliced);
            assert(byte_len(spliced) == byte_len(s) + byte_len(text@));
        }
        let ghost ck = char_index_of(s, pre.cursor);
        proof {
            lemma_char_index_of(s, pre.cursor);
        }
        if index <= self.loc.cursor {
            let total = rope_len_bytes(&self.text);
            proof {
                // the cursor's character index is at or past the splice point
                if ck < ci {
                    lemma_byte_of_strict(s, ck, ci as int);
                }
                lemma_byte_of_insert(s, ci as int, text@, ck);
                lemma_byte_of_strict(spliced, ck + text@.len(), spliced.len() as int);
                lemma_byte_of_ends(spliced);
                assert(byte_of(spliced, ck + text@.len()) == pre.cursor + byte_len(text@));
            }
            let tl = text.len();
            self.loc.cursor = self.loc.cursor + tl;
        } else {
            proof {
                // the cursor's character index is before the splice point
                if ck > ci {
                    lemma_byte_of_strict(s, ci as int, ck);
                }
                if ck == ci {
                    assert(byte_of(s, ck) == index as int);
                }
                lemma_byte_of_insert(s, ci as int, text@, ck);
                assert(byte_of(spliced, ck) == pre.cursor);
            }
        }
        Ok(())
    }

    /// Deletes the bytes in `[start, end)`, adjusting the cursor as
    /// [`BufferV::delete_result`] describes.
    fn delete_range(&mut self, start: usize, end: usize) -> (r: EngineResult<()>)
        requires
            old(self)@.wf(),
        ensures
            final(self)@.wf(),
            final(self)@.path == old(self)@.path,
            ({
                let pre = old(self)@;
                if !is_boundary(pre.text, start as int) {
                    (r matches Err(e) && e@ == EngineErrorV::InvalidOffset(start as int)) && final(self)@ == pre
                } else if !is_boundary(pre.text, end as int) {
                    (r matches Err(e) && e@ == EngineErrorV::InvalidOffset(end as int)) && final(self)@ == pre
                } else if start > end {
                    (r matches Err(e) && e@ == EngineErrorV::InvalidOffset(start as int)) && final(self)@ == pre
                } else {
                    r is Ok && final(self)@ == pre.delete_result(start as int, end as int)
                }
            }),
    {
        let ghost pre = self@;
        let ghost s = pre.text;
        let cs = match self.fix_index(start) {
            Ok(c) => c,
            Err(e) => {
                return Err(e);
            },
        };
        let ce = match self.fix_index(end) {
            Ok(c) => c,
            Err(e) => {
                return Err(e);
            },
        };
        if start > end {
            return Err(EngineError::InvalidOffset(start));
        }
        proof {
            lemma_char_index_of(s, start as int);
            lemma_char_index_of(s, end as int);
            if ce < cs {
                lemma_byte_of_strict(s, ce as int, cs as int);
            }
        }
        rope_remove(&mut self.text, cs, ce);
        let ghost removed = s.take(cs as int) + s.skip(ce as int);
        let ghost ck = char_index_of(s, pre.cursor);
        proof {
            lemma_char_index_of(s, pre.cursor);
        }
        if self.loc.cursor >= end {
            proof {
                if ck < ce {
                    lemma_byte_of_strict(s, ck, ce as int);
                }
                lemma_byte_of_remove(s, cs as int, ce as int, ck);
                assert(byte_of(removed, cs + (ck - ce)) == pre.cursor - (end - start));
            }
            self.loc.cursor = self.loc.cursor - (end - start);
        } else if self.loc.cursor > start {
            proof {
                lemma_byte_of_remove(s, cs as int, ce as int, cs as int);
                assert(byte_of(removed, cs as int) == start as int);
            }
            self.loc.cursor = start;
        } else {
            proof {
                if ck > cs {
                    lemma_byte_of_strict(s, cs as int, ck);
                }
                lemma_byte_of_remove(s, cs as int, ce as int, ck);
                assert(byte_of(removed, ck) == pre.cursor);
            }
        }
        Ok(())
    }

    /// Applies one editing action. The byte offsets it addresses must land
    /// on character boundaries of the current content, else the buffer is
    /// left unchanged and the offending offset is reported.
    pub fn apply(&mut self, action: BufferAction) -> (r: EngineResult<()>)
        requires
            old(self)@.wf(),
        ensures
            final(self)@.wf(),
            match old(self)@.apply_spec(action@) {
                Ok(b2) => r is Ok && final(self)@ == b2,
                Err(e) => (r matches Err(e2) && e2@ == e) && final(self)@ == old(self)@,
            },
    {
        match action {
            BufferAction::Insert(ins) => self.insert_at(ins.index, ins.text.as_str()),
            BufferAction::Delete(d) => self.delete_range(d.range.start, d.range.end),
            BufferAction::Replace(rp) => {
                let ghost pre = self@;
                match self.delete_range(rp.range.start, rp.range.end) {
                    Ok(()) => {
                        proof {
                            // the deleted range's start is still a boundary
                            let s = pre.text;
                            let cs = char_index_of(s, rp.range.start as int);
                            let ce = char_index_of(s, rp.range.end as int);
                            lemma_char_index_of(s, rp.range.start as int);
                            lemma_char_index_of(s, rp.range.end as int);
                            if ce < cs {
                                lemma_byte_of_strict(s, ce, cs);
                            }
                            lemma_byte_of_remove(s, cs, ce, cs);
                        }
                        self.insert_at(rp.range.start, rp.new_text.as_str())
                    },
                    Err(e) => Err(e),
                }
            },
            BufferAction::Append(t) => {
                let cur = self.loc.cursor;
                self.insert_at(cur, t.as_str())
            },
        }
    }
}

/// The view of a list of buffer actions.
pub open spec fn actions_view(s: Seq<BufferAction>) -> Seq<BufferActionV> {
    s.map_values(|a: BufferAction| a@)
}

impl BufferV {
    /// Applying a list of actions in order, stopping at the first failure:
    /// the state reached, and the first error if one occurred. Earlier
    /// actions keep their effect — there is no rollback.
    pub open spec fn apply_all_spec(self, actions: Seq<BufferActionV>) -> (BufferV, Option<
        EngineErrorV,
    >)
        decreases actions.len(),
    {
        if actions.len() == 0 {
            (self, None)
        } else {
            match self.apply_spec(actions[0]) {
                Ok(b2) => b2.apply_all_spec(actions.drop_first()),
                Err(e) => (self, Some(e)),
            }
        }
    }
}

/// Extending an error-free run by one action composes: the next action is
/// applied to the state the prefix reached.
pub proof fn lemma_apply_all_step(b: BufferV, v: Seq<BufferActionV>, k: int)
    requires
        0 <= k < v.len(),
        b.apply_all_spec(v.take(k)).1 is None,
    ensures
        ({
            let mid = b.apply_all_spec(v.take(k)).0;
            match mid.apply_spec(v[k]) {
                Ok(b2) => b.apply_all_spec(v.take(k + 1)) == (b2, None::<EngineErrorV>),
                Err(e) => b.apply_all_spec(v.take(k + 1)) == (mid, Some(e)),
            }
        }),
    decreases k,
{
    if k == 0 {
        assert(v.take(0) =~= Seq::<BufferActionV>::empty());
        assert(v.take(1).len() == 1);
        assert(v.take(1)[0] == v[0]);
        assert(v.take(1).drop_first() =~= Seq::<BufferActionV>::empty());
        match b.apply_spec(v[0]) {
            Ok(b2) => {
                assert(b2.apply_all_spec(v.take(1).drop_first()) == (b2, None::<EngineErrorV>));
                assert(b.apply_all_spec(v.take(1)) == (b2, None::<EngineErrorV>));
            },
            Err(e) => {
                assert(b.apply_all_spec(v.take(1)) == (b, Some(e)));
            },
        }
    } else {
        assert(v.take(k)[0] == v[0]);
        assert(v.take(k + 1)[0] == v[0]);
        match b.apply_spec(v[0]) {
            Ok(b1) => {
                assert(v.take(k).drop_first() =~= v.drop_first().take(k - 1));
                assert(v.take(k + 1).drop_first() =~= v.drop_first().take(k));
                assert(v.drop_first()[k - 1] == v[k]);
                lemma_apply_all_step(b1, v.drop_first(), k - 1);
                assert(b.apply_all_spec(v.take(k)) == b1.apply_all_spec(v.drop_first().take(k - 1)));
                assert(b.apply_all_spec(v.take(k + 1)) == b1.apply_all_spec(v.drop_first().take(k)));
            },
            Err(e) => {
                // the prefix already failed, contradicting the premise
                assert(b.apply_all_spec(v.take(k)).1 == Some(e));
            },
        }
    }
}

/// Once a prefix has failed, the longer run fails the same way: nothing
/// after the first error is applied.
pub proof fn lemma_apply_all_error_stops(b: BufferV, v: Seq<BufferActionV>, k: int)
    requires
        0 <= k <= v.len(),
        b.apply_all_spec(v.take(k)).1 is Some,
    ensures
        b.apply_all_spec(v) == b.apply_all_spec(v.take(k)),
    decreases k,
{
    assert(k > 0);
    assert(v.take(k)[0] == v[0]);
    match b.apply_spec(v[0]) {
        Ok(b1) => {
            assert(v.take(k).drop_first() =~= v.drop_first().take(k - 1));
            lemma_apply_all_error_stops(b1, v.drop_first(), k - 1);
        },
        Err(e) => {
        },
    }
}

impl Buffer {
    /// Applies a single action, or each action of a list in order. A list
    /// stops at the first failure and earlier actions keep their effect:
    /// there is no atomic rollback.
    pub fn edit(&mut self, edit: Edit<BufferAction>) -> (r: EngineResult<()>)
        requires
            old(self)@.wf(),
        ensures
            final(self)@.wf(),
            match edit {
                Edit::One(a) => match old(self)@.apply_spec(a@) {
                    Ok(b2) => r is Ok && final(self)@ == b2,
                    Err(e) => (r matches Err(e2) && e2@ == e) && final(self)@ == old(self)@,
                },
                Edit::Multi(v) => ({
                    let outcome = old(self)@.apply_all_spec(actions_view(v@));
                    final(self)@ == outcome.0 && match outcome.1 {
                        None => r is Ok,
                        Some(e) => r matches Err(e2) && e2@ == e,
                    }
                }),
            },
    {
        match edit {
            Edit::One(cmd) => self.apply(cmd),
            Edit::Multi(cmds) => {
                proof {
                    assert(edit == Edit::Multi(cmds));
                }
                let ghost pre = self@;
                let ghost av = actions_view(cmds@);
                let n = cmds.len();
                let mut k: usize = 0;
                proof {
                    assert(av.take(0) =~= Seq::<BufferActionV>::empty());
                }
                while k < n
                    invariant
                        k <= n,
                        n == cmds.len(),
                        pre == old(self)@,
                        edit == Edit::Multi(cmds),
                        av == actions_view(cmds@),
                        pre.apply_all_spec(av.take(k as int)).1 is None,
                        self@ == pre.apply_all_spec(av.take(k as int)).0,
                        self@.wf(),
                    decreases n - k,
                {
                    let cmd = cmds[k].clone();
                    proof {
                        assert(av[k as int] == cmds@[k as int]@);
                    }
                    let step = self.apply(cmd);
                    match step {
                        Ok(()) => {
                            proof {
                                lemma_apply_all_step(pre, av, k as int);
                            }
                            k = k + 1;
                        },
                        Err(e) => {
                            proof {
                                lemma_apply_all_step(pre, av, k as int);
                                lemma_apply_all_error_stops(pre, av, k as int + 1);
                            }
                            return Err(e);
                        },
                    }
                }
                proof {
                    assert(av.take(n as int) =~= av);
                }
                Ok(())
            },
        }
    }
}

/// Law (offset round trip): inserting `t` at a valid byte offset `b` and
/// then deleting `[b, b + byte_len(t))` restores the buffer exactly — the
/// pre-insert content, and the cursor where it stood.
pub proof fn lemma_insert_delete_round_trip(buf: BufferV, b: int, t: Seq<char>)
    requires
        buf.wf(),
        is_boundary(buf.text, b),
    ensures
        ({
            let inserted = buf.insert_result(b, t);
            let deletion = BufferActionV::Delete(
                DeleteV { start: b, end: b + byte_len(t) as int },
            );
            inserted.apply_spec(deletion) == Ok::<BufferV, EngineErrorV>(buf)
        }),
{
    let s = buf.text;
    let ci = char_index_of(s, b);
    lemma_char_index_of(s, b);
    let spliced = s.take(ci) + t + s.skip(ci);
    let inserted = buf.insert_result(b, t);
    lemma_byte_of_insert(s, ci, t, ci);
    assert(byte_of(spliced, ci) == b);
    assert(byte_of(spliced, ci + t.len()) == b + byte_len(t));
    assert(is_boundary(spliced, b));
    assert(is_boundary(spliced, b + byte_len(t) as int));
    lemma_char_index_of(spliced, b);
    lemma_char_index_of(spliced, b + byte_len(t) as int);
    assert(char_index_of(spliced, b) == ci);
    assert(char_index_of(spliced, b + byte_len(t) as int) == ci + t.len());
    let deleted = inserted.delete_result(b, b + byte_len(t) as int);
    assert(deleted.text =~= s);
    let ck = char_index_of(s, buf.cursor);
    lemma_char_index_of(s, buf.cursor);
    if b <= buf.cursor {
        assert(inserted.cursor == buf.cursor + byte_len(t));
        assert(deleted.cursor == buf.cursor);
    } else {
        assert(inserted.cursor == buf.cursor);
        assert(deleted.cursor == buf.cursor);
    }
    assert(deleted == buf);
}

/// Law (boundary rejection): an action addressed to a byte offset that does
/// not land on a character boundary — it splits a multi-byte character or
/// exceeds the length — yields `InvalidOffset` for the first such offset,
/// and the buffer is unchanged (the exec `apply` leaves the state untouched
/// whenever `apply_spec` yields an error).
pub proof fn lemma_boundary_rejection(buf: BufferV, a: BufferActionV)
    requires
        match a {
            BufferActionV::Insert(iv) => !is_boundary(buf.text, iv.index),
            BufferActionV::Delete(dv) => !is_boundary(buf.text, dv.start) || !is_boundary(
                buf.text,
                dv.end,
            ),
            BufferActionV::Replace(rv) => !is_boundary(buf.text, rv.start) || !is_boundary(
                buf.text,
                rv.end,
            ),
            BufferActionV::Append(_) => !is_boundary(buf.text, buf.cursor),
        },
    ensures
        buf.apply_spec(a) == Err::<BufferV, EngineErrorV>(
            EngineErrorV::InvalidOffset(
                match a {
                    BufferActionV::Insert(iv) => iv.index,
                    BufferActionV::Delete(dv) => if !is_boundary(buf.text, dv.start) {
                        dv.start
                    } else {
                        dv.end
                    },
                    BufferActionV::Replace(rv) => if !is_boundary(buf.text, rv.start) {
                        rv.start
                    } else {
                        rv.end
                    },
                    BufferActionV::Append(_) => buf.cursor,
                },
            ),
        ),
{
}

} // verus!
