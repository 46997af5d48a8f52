//! Actions, modes, and the editing commands a buffer can carry out.
//!
//! A resolved key sequence yields an [`Action`]: either a request against the
//! coordinator itself (change the active mode) or an editing operation
//! addressed to one buffer. Editing operations speak in byte offsets; the
//! buffer converts and validates them against character boundaries before
//! mutating (see `buffer`).

use core::ops::Range;
use vstd::prelude::*;

verus! {

/// The mutually exclusive editing states. Exactly one is active at a time.
#[derive(Clone, Copy, Debug, PartialEq, Eq, Structural)]
pub enum Mode {
    /// The default mode
    Normal,
    /// The familiar, plain mode
    Insert,
    /// The selection mode
    Visual,
    /// The command mode
    Command,
    /// Like insert, but overwrites instead of inserts
    Replace,
    /// Terminal support
    Terminal,
}

impl Default for Mode {
    /// The initial mode is `Normal`.
    fn default() -> (r: Self)
        ensures
            r == Mode::Normal,
    {
        Mode::Normal
    }
}

/// A cursor movement direction. Configuration vocabulary for binding tables.
#[derive(Clone, Copy, Debug, PartialEq, Eq, Structural)]
pub enum Move {
    Left,
    Right,
    Up,
    Down,
}

/// An action addressed to the coordinator itself.
#[derive(Clone, Copy, Debug, PartialEq, Eq, Structural)]
pub enum CoreAction {
    /// Request a transition to the given mode.
    SetMode(Mode),
}

/// Insert `text` so that its first byte lands at byte offset `index`.
#[derive(Debug)]
pub struct Insert {
    pub index: usize,
    pub text: String,
}

/// Delete the bytes in `range` (`[start, end)`, byte offsets).
#[derive(Debug)]
pub struct Delete {
    pub range: Range<usize>,
}

/// Replace the bytes in `range` with `new_text`; the new content starts at
/// the deleted range's start.
#[derive(Debug)]
pub struct Replace {
    pub range: Range<usize>,
    pub new_text: String,
}

/// An editing operation addressed to one buffer.
#[derive(Debug)]
pub enum BufferAction {
    /// Insert at a byte offset.
    Insert(Insert),
    /// Delete a byte range.
    Delete(Delete),
    /// Replace a byte range.
    Replace(Replace),
    /// Insert at the buffer's tracked cursor and advance the cursor by the
    /// inserted byte length.
    Append(String),
}

/// What a resolved key sequence asks for.
#[derive(Debug)]
pub enum Action {
    Core(CoreAction),
    Buffer(BufferAction),
}

/// Either a single editing command or an ordered list of them.
#[derive(Debug)]
pub enum Edit<T> {
    One(T),
    Multi(Vec<T>),
}

/// Mathematical model of an [`Insert`].
pub struct InsertV {
    pub index: int,
    pub text: Seq<char>,
}

/// Mathematical model of a [`Delete`].
pub struct DeleteV {
    pub start: int,
    pub end: int,
}

/// Mathematical model of a [`Replace`].
pub struct ReplaceV {
    pub start: int,
    pub end: int,
    pub new_text: Seq<char>,
}

/// Mathematical model of a [`BufferAction`].
pub enum BufferActionV {
    Insert(InsertV),
    Delete(DeleteV),
    Replace(ReplaceV),
    Append(Seq<char>),
}

/// Mathematical model of an [`Action`].
pub enum ActionV {
    Core(CoreAction),
    Buffer(BufferActionV),
}

impl View for Insert {
    type V = InsertV;

    open spec fn view(&self) -> InsertV {
        InsertV { index: self.index as int, text: self.text@ }
    }
}

impl View for Delete {
    type V = DeleteV;

    open spec fn view(&self) -> DeleteV {
        DeleteV { start: self.range.start as int, end: self.range.end as int }
    }
}

impl View for Replace {
    type V = ReplaceV;

    open spec fn view(&self) -> ReplaceV {
        ReplaceV {
            start: self.range.start as int,
            end: self.range.end as int,
            new_text: self.new_text@,
        }
    }
}

impl View for BufferAction {
    type V = BufferActionV;

    open spec fn view(&self) -> BufferActionV {
        match self {
            BufferAction::Insert(i) => BufferActionV::Insert(i@),
            BufferAction::Delete(d) => BufferActionV::Delete(d@),
            BufferAction::Replace(r) => BufferActionV::Replace(r@),
            BufferAction::Append(s) => BufferActionV::Append(s@),
        }
    }
}

impl View for Action {
    type V = ActionV;

    open spec fn view(&self) -> ActionV {
        match self {
            Action::Core(c) => ActionV::Core(*c),
            Action::Buffer(b) => ActionV::Buffer(b@),
        }
    }
}

impl Clone for Insert {
    fn clone(&self) -> (r: Self)
        ensures
            r == *self,
    {
        Insert { index: self.index, text: self.text.clone() }
    }
}

impl Clone for Delete {
    fn clone(&self) -> (r: Self)
        ensures
            r == *self,
    {
        Delete { range: self.range.start..self.range.end }
    }
}

impl Clone for Replace {
    fn clone(&self) -> (r: Self)
        ensures
            r == *self,
    {
        Replace { range: self.range.start..self.range.end, new_text: self.new_text.clone() }
    }
}

impl Clone for BufferAction {
    fn clone(&self) -> (r: Self)
        ensures
            r == *self,
    {
        match self {
            BufferAction::Insert(i) => BufferAction::Insert(i.clone()),
            BufferAction::Delete(d) => BufferAction::Delete(d.clone()),
            BufferAction::Replace(rp) => BufferAction::Replace(rp.clone()),
            BufferAction::Append(s) => BufferAction::Append(s.clone()),
        }
    }
}

impl Clone for Action {
    fn clone(&self) -> (r: Self)
        ensures
            r == *self,
    {
        match self {
            Action::Core(c) => Action::Core(*c),
            Action::Buffer(b) => Action::Buffer(b.clone()),
        }
    }
}

impl From<CoreAction> for Action {
    fn from(value: CoreAction) -> (r: Self)
        ensures
            r == Action::Core(value),
    {
        Action::Core(value)
    }
}

impl vstd::std_specs::convert::FromSpecImpl<CoreAction> for Action {
    open spec fn obeys_from_spec() -> bool {
        true
    }

    open spec fn from_spec(t: CoreAction) -> Action {
        Action::Core(t)
    }
}

impl From<BufferAction> for Action {
    fn from(value: BufferAction) -> (r: Self)
        ensures
            r == Action::Buffer(value),
    {
        Action::Buffer(value)
    }
}

impl vstd::std_specs::convert::FromSpecImpl<BufferAction> for Action {
    open spec fn obeys_from_spec() -> bool {
        true
    }

    open spec fn from_spec(t: BufferAction) -> Action {
        Action::Buffer(t)
    }
}

} // verus!
