//! The buffer store: a registry mapping canonical file paths to buffers,
//! and the error taxonomy shared by the store and the buffers.
//!
//! The engine performs no I/O itself. The embedding application resolves and
//! canonicalizes paths against the file system, reads file content, and
//! hands both in as plain values; the store's own logic — path joining,
//! registration, lookup, and the per-buffer exclusive-access gate — is
//! verified here.

use crate::action::BufferAction;
use crate::buffer::{Buffer, BufferV, Location};
use crate::rope::rope_from_str;
use crate::text::lemma_byte_of_ends;
use vstd::prelude::*;

verus! {

/// A failure while opening, reading, or writing a file, as handed in by the
/// I/O layer (the core itself performs no I/O).
#[derive(Debug)]
pub struct IoFailure {
    /// The addressed file does not exist.
    pub not_found: bool,
    /// The underlying cause, as rendered by the I/O layer.
    pub message: String,
}

/// A failure inside the engine or a buffer.
#[derive(Debug)]
pub enum EngineError {
    /// A file operation failed; wraps the underlying cause.
    Io(IoFailure),
    /// A byte offset does not land on a character boundary or is out of
    /// range; holds the offending offset.
    InvalidOffset(usize),
    /// No buffer has been added for the addressed path; holds the path.
    MissingPath(String),
}

/// Mathematical model of an [`IoFailure`].
pub struct IoFailureV {
    pub not_found: bool,
    pub message: Seq<char>,
}

/// Mathematical model of an [`EngineError`].
pub enum EngineErrorV {
    Io(IoFailureV),
    InvalidOffset(int),
    MissingPath(Seq<char>),
}

impl View for IoFailure {
    type V = IoFailureV;

    open spec fn view(&self) -> IoFailureV {
        IoFailureV { not_found: self.not_found, message: self.message@ }
    }
}

impl View for EngineError {
    type V = EngineErrorV;

    open spec fn view(&self) -> EngineErrorV {
        match self {
            EngineError::Io(f) => EngineErrorV::Io(f@),
            EngineError::InvalidOffset(i) => EngineErrorV::InvalidOffset(*i as int),
            EngineError::MissingPath(p) => EngineErrorV::MissingPath(p@),
        }
    }
}

/// The result type used throughout the engine and the buffers.
pub type EngineResult<T> = Result<T, EngineError>;

/// Turns "file not found" into a successful absence: `Ok(v)` becomes
/// `Ok(Some(v))`, a not-found failure becomes `Ok(None)`, and any other
/// failure passes through unchanged.
pub fn handle_nf<T>(res: Result<T, IoFailure>) -> (r: Result<Option<T>, IoFailure>)
    ensures
        match res {
            Ok(v) => r == Ok::<Option<T>, IoFailure>(Some(v)),
            Err(e) => if e.not_found {
                r == Ok::<Option<T>, IoFailure>(None)
            } else {
                r == Err::<Option<T>, IoFailure>(e)
            },
        },
{
    match res {
        Ok(value) => Ok(Some(value)),
        Err(e) => if e.not_found {
            Ok(None)
        } else {
            Err(e)
        },
    }
}

/// A handle to one registered buffer. Handles stay valid for the session:
/// buffers are never evicted, and re-adding a path replaces the buffer in
/// its existing slot.
#[derive(Debug, Clone, Copy, PartialEq, Eq, Structural)]
pub struct BufferId {
    pub index: usize,
}

/// One registered buffer together with its exclusive-access flag.
#[derive(Debug)]
struct StoreEntry {
    buffer: Buffer,
    held: bool,
}

/// Mathematical model of one store entry.
pub struct EntryV {
    pub buffer: BufferV,
    pub held: bool,
}

/// The buffer store: canonical path to buffer, with a per-entry
/// exclusive-access gate in place of runtime-checked borrows.
#[derive(Debug)]
pub struct Engine {
    base: String,
    entries: Vec<StoreEntry>,
}

/// Mathematical model of the [`Engine`].
pub struct EngineV {
    pub base: Seq<char>,
    pub entries: Seq<EntryV>,
}

impl View for Engine {
    type V = EngineV;

    closed spec fn view(&self) -> EngineV {
        EngineV {
            base: self.base@,
            entries: Seq::new(
                self.entries@.len(),
                |i: int|
                    EntryV { buffer: self.entries@[i].buffer@, held: self.entries@[i].held },
            ),
        }
    }
}

/// The canonical form of an addressed path: joined to the base directory
/// when relative, taken as given when absolute.
pub open spec fn norm_path_spec(base: Seq<char>, path: Seq<char>, relative: bool) -> Seq<char> {
    if relative {
        base + seq!['/'] + path
    } else {
        path
    }
}

/// The text a new buffer starts with: the file content when the file
/// exists, empty when it does not.
pub open spec fn content_view(content: Option<String>) -> Seq<char> {
    match content {
        Some(s) => s@,
        None => Seq::empty(),
    }
}

impl EngineV {
    /// Store sanity: paths are registered at most once, and every buffer
    /// keeps its cursor on a character boundary.
    pub open spec fn wf(self) -> bool {
        &&& forall|i: int, j: int|
            0 <= i < j < self.entries.len() ==> (#[trigger] self.entries[i]).buffer.path != (
            #[trigger] self.entries[j]).buffer.path
        &&& forall|i: int|
            0 <= i < self.entries.len() ==> (#[trigger] self.entries[i]).buffer.wf()
    }

    /// Whether some buffer is registered under `path`.
    pub open spec fn has_path(self, path: Seq<char>) -> bool {
        exists|i: int| 0 <= i < self.entries.len() && self.entries[i].buffer.path == path
    }

    /// The slot registered under `path`.
    pub open spec fn index_of(self, path: Seq<char>) -> int {
        choose|i: int| 0 <= i < self.entries.len() && self.entries[i].buffer.path == path
    }
}

impl Engine {
    /// A store rooted at the given base directory (pre-canonicalized by the
    /// embedding application), with no buffers yet.
    pub fn new(base: String) -> (r: Self)
        ensures
            r@.base == base@,
            r@.entries.len() == 0,
            r@.wf(),
    {
        let r = Engine { base, entries: Vec::new() };
        proof {
            assert(r@.entries =~= Seq::<EntryV>::empty());
        }
        r
    }

    /// The canonical form of an addressed path: joined to the base
    /// directory when `relative`, taken as given otherwise.
    pub(crate) fn norm_path(&self, path: &str, relative: bool) -> (r: String)
        ensures
            r@ == norm_path_spec(self@.base, path@, relative),
    {
        if relative {
            proof {
                reveal_strlit("/");
            }
            let mut joined = self.base.clone();
            joined.append("/");
            joined.append(path);
            proof {
                assert(joined@ =~= self@.base + seq!['/'] + path@);
            }
            joined
        } else {
            path.to_owned()
        }
    }

    /// Looks up the buffer registered under the addressed path. Fails with
    /// `MissingPath` when no buffer has been added for it: `get_buffer`
    /// never creates one.
    pub fn get_buffer(&self, path: &str, relative: bool) -> (r: EngineResult<BufferId>)
        ensures
            ({
                let p = norm_path_spec(self@.base, path@, relative);
                match r {
                    Ok(id) => self@.has_path(p) && id.index < self@.entries.len()
                        && self@.entries[id.index as int].buffer.path == p,
                    Err(e) => !self@.has_path(p) && e@ == EngineErrorV::MissingPath(p),
                }
            }),
    {
        let p = self.norm_path(path, relative);
        match self.find_path(&p) {
            Some(i) => Ok(BufferId { index: i }),
            None => Err(EngineError::MissingPath(p)),
        }
    }

    /// The slot holding the buffer registered under the (already canonical)
    /// path, if any.
    fn find_path(&self, p: &String) -> (r: Option<usize>)
        ensures
            match r {
                Some(i) => i < self@.entries.len() && self@.entries[i as int].buffer.path == p@
                    && self@.has_path(p@),
                None => !self@.has_path(p@),
            },
    {
        let n = self.entries.len();
        let mut i: usize = 0;
        while i < n
            invariant
                i <= n,
                n == self@.entries.len(),
                forall|j: int| 0 <= j < i ==> self@.entries[j].buffer.path != p@,
            decreases n - i,
        {
            if self.entries[i].buffer.path.eq(p) {
                proof {
                    assert(self@.entries[i as int].buffer.path == p@);
                }
                return Some(i);
            }
            i = i + 1;
        }
        None
    }

    /// Registers a buffer for the addressed path, replacing any prior
    /// buffer for that path. `content` is the file's text as read by the
    /// embedding application, or `None` when the file does not exist — a
    /// missing file is not an error and yields an empty buffer. Returns the
    /// handle of the new buffer.
    pub fn add_buffer(&mut self, path: &str, relative: bool, content: Option<String>) -> (r:
        EngineResult<BufferId>)
        requires
            old(self)@.wf(),
        ensures
            final(self)@.wf(),
            final(self)@.base == old(self)@.base,
            ({
                let p = norm_path_spec(old(self)@.base, path@, relative);
                let fresh = EntryV {
                    buffer: BufferV { cursor: 0, path: p, text: content_view(content) },
                    held: false,
                };
                match r {
                    Ok(id) => {
                        &&& id.index < final(self)@.entries.len()
                        &&& final(self)@.entries[id.index as int] == fresh
                        &&& final(self)@.entries.len() == if old(self)@.has_path(p) {
                            old(self)@.entries.len()
                        } else {
                            old(self)@.entries.len() + 1
                        }
                        &&& id.index as int == if old(self)@.has_path(p) {
                            old(self)@.index_of(p)
                        } else {
                            old(self)@.entries.len() as int
                        }
                        &&& forall|j: int|
                            0 <= j < old(self)@.entries.len() && j != id.index
                                ==> final(self)@.entries[j] == old(self)@.entries[j]
                    },
                    Err(_) => false,
                }
            }),
    {
        let ghost pre = self@;
        let p = self.norm_path(path, relative);
        let text = match &content {
            Some(s) => rope_from_str(s.as_str()),
            None => crate::rope::rope_new(),
        };
        let buffer = Buffer { loc: Location { cursor: 0 }, path: p.clone(), text };
        proof {
            lemma_byte_of_ends(buffer@.text);
            assert(buffer@.wf());
        }
        let ghost fresh = EntryV { buffer: buffer@, held: false };
        match self.find_path(&p) {
            Some(i) => {
                self.entries[i] = StoreEntry { buffer, held: false };
                proof {
                    assert(self@.entries =~= pre.entries.update(i as int, fresh));
                    let j = pre.index_of(p@);
                    assert(0 <= j < pre.entries.len() && pre.entries[j].buffer.path == p@);
                    if j != i {
                        assert(pre.entries[i as int].buffer.path == pre.entries[j].buffer.path);
                        assert(false);
                    }
                }
                Ok(BufferId { index: i })
            },
            None => {
                let n = self.entries.len();
                self.entries.push(StoreEntry { buffer, held: false });
                proof {
                    assert(self@.entries =~= pre.entries.push(fresh));
                }
                Ok(BufferId { index: n })
            },
        }
    }

    /// Read access to the buffer a handle addresses.
    pub fn buffer(&self, id: BufferId) -> (b: &Buffer)
        requires
            id.index < self@.entries.len(),
        ensures
            b@ == self@.entries[id.index as int].buffer,
    {
        &self.entries[id.index].buffer
    }

    /// Acquires the exclusive-access gate on a buffer. Returns whether the
    /// hold was taken: `false` means the buffer is already under mutation,
    /// and the caller fails fast instead of blocking.
    pub fn try_hold(&mut self, id: BufferId) -> (ok: bool)
        requires
            id.index < old(self)@.entries.len(),
        ensures
            ok == !old(self)@.entries[id.index as int].held,
            final(self)@.base == old(self)@.base,
            final(self)@.entries.len() == old(self)@.entries.len(),
            forall|j: int|
                0 <= j < old(self)@.entries.len() && j != id.index ==> final(self)@.entries[j]
                    == old(self)@.entries[j],
            final(self)@.entries[id.index as int] == (EntryV {
                buffer: old(self)@.entries[id.index as int].buffer,
                held: true,
            }),
            old(self)@.wf() ==> final(self)@.wf(),
    {
        let ghost pre = self@;
        let entry = &mut self.entries[id.index];
        let was_held = entry.held;
        entry.held = true;
        proof {
            assert(self@.entries =~= pre.entries.update(
                id.index as int,
                EntryV { buffer: pre.entries[id.index as int].buffer, held: true },
            ));
            lemma_same_buffers_keep_wf(pre, self@);
        }
        !was_held
    }

    /// Releases the exclusive-access gate on a buffer.
    pub fn release(&mut self, id: BufferId)
        requires
            id.index < old(self)@.entries.len(),
        ensures
            final(self)@.base == old(self)@.base,
            final(self)@.entries.len() == old(self)@.entries.len(),
            forall|j: int|
                0 <= j < old(self)@.entries.len() && j != id.index ==> final(self)@.entries[j]
                    == old(self)@.entries[j],
            final(self)@.entries[id.index as int] == (EntryV {
                buffer: old(self)@.entries[id.index as int].buffer,
                held: false,
            }),
            old(self)@.wf() ==> final(self)@.wf(),
    {
        let ghost pre = self@;
        let entry = &mut self.entries[id.index];
        entry.held = false;
        proof {
            assert(self@.entries =~= pre.entries.update(
                id.index as int,
                EntryV { buffer: pre.entries[id.index as int].buffer, held: false },
            ));
            lemma_same_buffers_keep_wf(pre, self@);
        }
    }

    /// Applies one editing action to the addressed buffer, unless that
    /// buffer is already under mutation (an outstanding [`Engine::try_hold`]),
    /// in which case it fails fast with a borrow conflict and changes
    /// nothing.
    pub fn apply_action(&mut self, id: BufferId, action: BufferAction) -> (r: Result<
        (),
        crate::EvieError,
    >)
        requires
            old(self)@.wf(),
            id.index < old(self)@.entries.len(),
        ensures
            final(self)@.wf(),
            final(self)@.base == old(self)@.base,
            final(self)@.entries.len() == old(self)@.entries.len(),
            forall|j: int|
                0 <= j < old(self)@.entries.len() && j != id.index ==> final(self)@.entries[j]
                    == old(self)@.entries[j],
            ({
                let entry = old(self)@.entries[id.index as int];
                if entry.held {
                    (r matches Err(e) && e@ == crate::EvieErrorV::BorrowConflict) && final(self)@
                        == old(self)@
                } else {
                    match entry.buffer.apply_spec(action@) {
                        Ok(b2) => r is Ok && final(self)@.entries[id.index as int] == (EntryV {
                            buffer: b2,
                            held: false,
                        }),
                        Err(e2) => (r matches Err(e) && e@ == crate::EvieErrorV::Engine(e2))
                            && final(self)@ == old(self)@,
                    }
                }
            }),
    {
        let ghost pre = self@;
        if self.entries[id.index].held {
            return Err(crate::EvieError::BorrowConflict);
        }
        let entry = &mut self.entries[id.index];
        let res = entry.buffer.apply(action);
        proof {
            // the action leaves the buffer's path alone, so uniqueness holds
            let bv = pre.entries[id.index as int].buffer;
            match bv.apply_spec(action@) {
                Ok(b2) => {
                    assert(b2.path == bv.path);
                    assert(self@.entries =~= pre.entries.update(
                        id.index as int,
                        EntryV { buffer: b2, held: false },
                    ));
                    assert forall|i: int, j: int|
                        0 <= i < j < self@.entries.len() implies (
                    #[trigger] self@.entries[i]).buffer.path != (
                    #[trigger] self@.entries[j]).buffer.path by {
                        assert(pre.entries[i].buffer.path != pre.entries[j].buffer.path);
                        assert(self@.entries[i].buffer.path == pre.entries[i].buffer.path);
                        assert(self@.entries[j].buffer.path == pre.entries[j].buffer.path);
                    }
                    assert forall|i: int|
                        0 <= i < self@.entries.len() implies (
                    #[trigger] self@.entries[i]).buffer.wf() by {
                        if i != id.index as int {
                            assert(self@.entries[i].buffer == pre.entries[i].buffer);
                            assert(pre.entries[i].buffer.wf());
                        }
                    }
                },
                Err(_) => {
                    assert(self@.entries =~= pre.entries);
                    assert(self@ == pre);
                },
            }
        }
        match res {
            Ok(u) => Ok(u),
            Err(e) => Err(crate::EvieError::Engine(e)),
        }
    }
}

/// A store whose entries keep their buffers (only the hold flags moved)
/// keeps its well-formedness.
proof fn lemma_same_buffers_keep_wf(pre: EngineV, post: EngineV)
    requires
        pre.entries.len() == post.entries.len(),
        forall|i: int|
            0 <= i < pre.entries.len() ==> (#[trigger] post.entries[i]).buffer
                == pre.entries[i].buffer,
    ensures
        pre.wf() ==> post.wf(),
{
    if pre.wf() {
        assert forall|i: int, j: int|
            0 <= i < j < post.entries.len() implies (#[trigger] post.entries[i]).buffer.path != (
        #[trigger] post.entries[j]).buffer.path by {
            assert(pre.entries[i].buffer.path != pre.entries[j].buffer.path);
        }
        assert forall|i: int| 0 <= i < post.entries.len() implies (
        #[trigger] post.entries[i]).buffer.wf() by {
            assert(pre.entries[i].buffer.wf());
        }
    }
}

} // verus!
