//! Input symbols consumed by the dispatch engine.
//!
//! A key is one keystroke or input event. The dispatch engine treats keys as
//! opaque symbols: it only ever compares them for equality against the keys
//! bound in a trigger map, or hands them to a fallback class.

use vstd::prelude::*;

verus! {

/// One input symbol: either a printable character or a named key.
#[derive(Clone, Copy, Debug, Hash, PartialEq, Eq, Structural)]
pub enum KeyAction {
    /// A printable character, as delivered by the input source.
    Letter(char),
    /// A key with a name rather than a character.
    Named(Named),
}

/// The named (non-character) keys the input source can deliver.
#[derive(Clone, Copy, Debug, Hash, PartialEq, Eq, Structural)]
pub enum Named {
    Alt,
    AltGraph,
    CapsLock,
    Control,
    Fn,
    FnLock,
    NumLock,
    ScrollLock,
    Shift,
    Meta,
    Super,
    Enter,
    Tab,
    Space,
    ArrowDown,
    ArrowLeft,
    ArrowRight,
    ArrowUp,
    End,
    Home,
    PageDown,
    PageUp,
    Backspace,
    Delete,
    Insert,
    Escape,
    Copy,
    Cut,
    Paste,
    Undo,
    Redo,
    Select,
    ContextMenu,
    F1,
    F2,
    F3,
    F4,
    F5,
    F6,
    F7,
    F8,
    F9,
    F10,
    F11,
    F12,
}

} // verus!
