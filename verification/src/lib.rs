//! The non-visual core of a modal text editor.
//!
//! The crate resolves sequences of input keys into editing or mode-change
//! actions through per-mode trigger tries, and applies those actions to
//! in-memory text buffers with UTF-8-safe byte-offset indexing. Rendering,
//! input capture, and file-system bootstrapping are left to the embedding
//! application.
//!
//! This root module holds the central interface: the [`Evie`] coordinator
//! owns the active mode, the in-progress trigger cursor, the mode table,
//! and the buffer store, and routes resolved actions to mode switches or
//! buffer edits. A [`BufferView`] is the thin per-buffer facade the
//! presentation layer drives.

pub mod action;
pub mod buffer;
pub mod engine;
pub mod key;
pub mod rope;
pub mod text;
pub mod trigger;

pub use action::{Action, BufferAction, CoreAction, Delete, Edit, Insert, Mode, Move, Replace};
pub use engine::{BufferId, Engine, EngineError, EngineResult, IoFailure};
pub use key::{KeyAction, Named};
pub use trigger::{Fallback, Modes, Trigger, TriggerMap};

use crate::action::ActionV;
use crate::engine::{EngineErrorV, EntryV};
use crate::rope::{rope_clone, rope_text};
use crate::trigger::{arc_clone, ModesV, TriggerMapV, TriggerV};
use ropey::Rope;
use std::sync::Arc;
use vstd::prelude::*;

verus! {

/// A failure surfaced to the presentation layer.
#[derive(Debug)]
pub enum EvieError {
    /// A buffer mutation was attempted while another mutation of the same
    /// buffer was in flight. Recoverable: the caller may retry or drop the
    /// action.
    BorrowConflict,
    /// A store or buffer failure.
    Engine(EngineError),
}

/// Mathematical model of an [`EvieError`].
pub enum EvieErrorV {
    BorrowConflict,
    Engine(EngineErrorV),
}

impl View for EvieError {
    type V = EvieErrorV;

    open spec fn view(&self) -> EvieErrorV {
        match self {
            EvieError::BorrowConflict => EvieErrorV::BorrowConflict,
            EvieError::Engine(e) => EvieErrorV::Engine(e@),
        }
    }
}

/// The central interface: current mode, current trigger cursor, the mode
/// table, and the buffer store.
#[derive(Debug)]
pub struct Evie {
    pub mode: Mode,
    pub engine: Engine,
    pub mdata: Modes,
    pub trig: Arc<TriggerMap>,
}

/// The root trigger map of the given mode.
pub open spec fn root_of(table: ModesV, mode: Mode) -> TriggerMapV {
    match mode {
        Mode::Normal => table.normal,
        Mode::Insert => table.insert,
        Mode::Visual => table.visual,
        Mode::Command => table.command,
        Mode::Replace => table.replace,
        Mode::Terminal => table.terminal,
    }
}

/// What one key does to the dispatch state: the action it resolves (if
/// any) and where the trigger cursor stands afterwards.
pub struct StepV {
    pub action: Option<ActionV>,
    pub cursor: TriggerMapV,
}

/// One key of dispatch: resolve against the current cursor and apply the
/// advance-or-reset rule; only when the cursor layer has no answer at all,
/// repeat the same rule against the universal map. A terminal resolution or
/// a fully-unmatched key resets the cursor to the active mode's root; a
/// nested map becomes the new cursor — including a nested map of the
/// universal trie, so an in-progress universal sequence persists across the
/// next key.
pub open spec fn step_spec(table: ModesV, mode: Mode, cursor: TriggerMapV, key: KeyAction) -> StepV {
    match cursor.resolve(key) {
        Some(TriggerV::End(a)) => StepV { action: Some(a), cursor: root_of(table, mode) },
        Some(TriggerV::Nested(m)) => StepV { action: None, cursor: m },
        None => match table.universal.resolve(key) {
            Some(TriggerV::End(a)) => StepV { action: Some(a), cursor: root_of(table, mode) },
            Some(TriggerV::Nested(m)) => StepV { action: None, cursor: m },
            None => StepV { action: None, cursor: root_of(table, mode) },
        },
    }
}

/// The view of an optional action.
pub open spec fn opt_action_view(a: Option<Action>) -> Option<ActionV> {
    match a {
        Some(x) => Some(x@),
        None => None,
    }
}

impl Evie {
    /// A coordinator over the given mode table: the mode starts at
    /// `Normal`, the trigger cursor at the normal root, and the store
    /// empty.
    pub fn new(mdata: Modes) -> (r: Self)
        ensures
            r.mode == Mode::Normal,
            r.engine@.wf(),
            r.engine@.entries.len() == 0,
            r.engine@.base == Seq::<char>::empty(),
            r.mdata@ == mdata@,
            r.trig@ == mdata@.normal,
    {
        Evie {
            mode: Mode::Normal,
            engine: Engine::new(String::new()),
            trig: arc_clone(&mdata.normal),
            mdata,
        }
    }

    /// The active mode's root trigger map.
    fn root(&self) -> (r: Arc<TriggerMap>)
        ensures
            r@ == root_of(self.mdata@, self.mode),
    {
        match self.mode {
            Mode::Normal => arc_clone(&self.mdata.normal),
            Mode::Insert => arc_clone(&self.mdata.insert),
            Mode::Visual => arc_clone(&self.mdata.visual),
            Mode::Command => arc_clone(&self.mdata.command),
            Mode::Replace => arc_clone(&self.mdata.replace),
            Mode::Terminal => arc_clone(&self.mdata.terminal),
        }
    }

    /// The advance-or-reset rule against one resolution outcome: a terminal
    /// trigger resets the cursor to the active root and yields its action;
    /// a nested map becomes the new cursor and the key is consumed
    /// silently; no resolution resets the cursor and reports the
    /// fall-through.
    pub fn do_trig(&mut self, trig: Option<Trigger>) -> (r: Option<Option<Action>>)
        ensures
            final(self).mode == old(self).mode,
            final(self).engine == old(self).engine,
            final(self).mdata == old(self).mdata,
            match trig {
                Some(Trigger::End(a)) => r == Some(Some(a)) && final(self).trig@ == root_of(
                    old(self).mdata@,
                    old(self).mode,
                ),
                Some(Trigger::Nested(m)) => r == Some(None::<Action>) && final(self).trig == m,
                None => r == None::<Option<Action>> && final(self).trig@ == root_of(
                    old(self).mdata@,
                    old(self).mode,
                ),
            },
    {
        match trig {
            Some(Trigger::End(a)) => {
                self.trig = self.root();
                Some(Some(a))
            },
            Some(Trigger::Nested(tm)) => {
                self.trig = tm;
                Some(None)
            },
            None => {
                self.trig = self.root();
                None
            },
        }
    }

    /// Feeds one key: resolves it against the trigger cursor, and only when
    /// that layer has no answer, against the universal map. Returns the
    /// resolved action, or `None` when the key was consumed mid-sequence or
    /// matched nothing.
    pub fn trigger(&mut self, key: KeyAction) -> (r: Option<Action>)
        ensures
            final(self).mode == old(self).mode,
            final(self).engine == old(self).engine,
            final(self).mdata == old(self).mdata,
            ({
                let step = step_spec(old(self).mdata@, old(self).mode, old(self).trig@, key);
                final(self).trig@ == step.cursor && opt_action_view(r) == step.action
            }),
    {
        let first = self.trig.get(&key);
        match self.do_trig(first) {
            Some(output) => output,
            None => {
                let second = self.mdata.universal.get(&key);
                match self.do_trig(second) {
                    Some(output) => match output {
                        Some(a) => Some(a),
                        None => None,
                    },
                    None => None,
                }
            },
        }
    }

    /// Switches the active mode and discards any in-progress key sequence:
    /// the trigger cursor is reset to the new mode's root.
    pub fn change_mode(&mut self, mode: Mode)
        ensures
            final(self).mode == mode,
            final(self).trig@ == root_of(old(self).mdata@, mode),
            final(self).engine == old(self).engine,
            final(self).mdata == old(self).mdata,
    {
        self.mode = mode;
        self.trig = self.root();
    }

    /// Routes an action addressed to the coordinator itself.
    fn apply(&mut self, action: CoreAction)
        ensures
            final(self).engine == old(self).engine,
            final(self).mdata == old(self).mdata,
            match action {
                CoreAction::SetMode(m) => final(self).mode == m && final(self).trig@ == root_of(
                    old(self).mdata@,
                    m,
                ),
            },
    {
        match action {
            CoreAction::SetMode(mode) => self.change_mode(mode),
        }
    }

    /// A view addressing the buffer at `path`. The path is resolved now and
    /// the view keeps the canonical form.
    pub fn view_buffer(&self, path: &str, relative: bool) -> (r: Result<BufferView, EngineError>)
        ensures
            r matches Ok(v) && v@ == engine::norm_path_spec(self.engine@.base, path@, relative),
    {
        Ok(BufferView { buffer: self.engine.norm_path(path, relative) })
    }

    /// Registers a buffer for the addressed path (see
    /// [`Engine::add_buffer`]); the dispatch state is untouched.
    pub fn add_buffer(&mut self, path: &str, relative: bool, content: Option<String>) -> (r:
        EngineResult<BufferId>)
        requires
            old(self).engine@.wf(),
        ensures
            final(self).mode == old(self).mode,
            final(self).mdata == old(self).mdata,
            final(self).trig == old(self).trig,
            final(self).engine@.wf(),
            final(self).engine@.base == old(self).engine@.base,
            ({
                let p = engine::norm_path_spec(old(self).engine@.base, path@, relative);
                let fresh = EntryV {
                    buffer: buffer::BufferV {
                        cursor: 0,
                        path: p,
                        text: engine::content_view(content),
                    },
                    held: false,
                };
                match r {
                    Ok(id) => {
                        &&& id.index < final(self).engine@.entries.len()
                        &&& final(self).engine@.entries[id.index as int] == fresh
                        &&& final(self).engine@.entries.len() == if old(self).engine@.has_path(p) {
                            old(self).engine@.entries.len()
                        } else {
                            old(self).engine@.entries.len() + 1
                        }
                        &&& forall|j: int|
                            0 <= j < old(self).engine@.entries.len() && j != id.index
                                ==> final(self).engine@.entries[j] == old(self).engine@.entries[j]
                    },
                    Err(_) => false,
                }
            }),
    {
        self.engine.add_buffer(path, relative, content)
    }
}

/// A thin per-buffer cursor into the coordinator: it remembers only the
/// canonical path it addresses. The presentation layer feeds keys through
/// it and reads text snapshots from it.
#[derive(Debug)]
pub struct BufferView {
    buffer: String,
}

impl View for BufferView {
    type V = Seq<char>;

    closed spec fn view(&self) -> Seq<char> {
        self.buffer@
    }
}

impl BufferView {
    /// An immutable snapshot of the addressed buffer's text, as a rope.
    /// Fails with `MissingPath` when the path was never added to the store.
    pub fn rope(&self, evie: &Evie) -> (r: Result<Rope, EvieError>)
        requires
            evie.engine@.wf(),
        ensures
            match r {
                Ok(snapshot) => evie.engine@.has_path(self@) && rope_text(snapshot)
                    == evie.engine@.entries[evie.engine@.index_of(self@)].buffer.text,
                Err(e) => !evie.engine@.has_path(self@) && e@ == EvieErrorV::Engine(
                    EngineErrorV::MissingPath(self@),
                ),
            },
    {
        let id = match evie.engine.get_buffer(self.buffer.as_str(), false) {
            Ok(id) => id,
            Err(e) => {
                return Err(EvieError::Engine(e));
            },
        };
        proof {
            let idx = evie.engine@.index_of(self@);
            assert(0 <= idx < evie.engine@.entries.len() && evie.engine@.entries[idx].buffer.path
                == self@);
            if idx != id.index as int {
                assert(evie.engine@.entries[id.index as int].buffer.path
                    == evie.engine@.entries[idx].buffer.path);
            }
        }
        Ok(rope_clone(&evie.engine.buffer(id).text))
    }

    /// Feeds one key and routes whatever it resolves to: a mode change to
    /// the coordinator, an editing action to the addressed buffer. Returns
    /// whether the key had an observable effect (`false`: no action
    /// resolved, nothing to repaint). Fails with `MissingPath` when an
    /// editing action addresses a path never added, and with
    /// `BorrowConflict` when the buffer is already under mutation; the key
    /// still advanced or reset the trigger cursor either way.
    pub fn on_key(&self, evie: &mut Evie, key: KeyAction) -> (r: Result<bool, EvieError>)
        requires
            old(evie).engine@.wf(),
        ensures
            final(evie).mdata == old(evie).mdata,
            final(evie).engine@.wf(),
            final(evie).engine@.base == old(evie).engine@.base,
            ({
                let step = step_spec(old(evie).mdata@, old(evie).mode, old(evie).trig@, key);
                match step.action {
                    None => r == Ok::<bool, EvieError>(false) && final(evie).mode == old(evie).mode && final(evie).trig@ == step.cursor && final(evie).engine == old(evie).engine,
                    Some(ActionV::Core(CoreAction::SetMode(m))) => r == Ok::<bool, EvieError>(true)
                        && final(evie).mode == m && final(evie).trig@ == root_of(
                        old(evie).mdata@,
                        m,
                    ) && final(evie).engine == old(evie).engine,
                    Some(ActionV::Buffer(bav)) => final(evie).mode == old(evie).mode && final(evie).trig@ == step.cursor && ({
                        let eng = old(evie).engine@;
                        if !eng.has_path(self@) {
                            (r matches Err(e) && e@ == EvieErrorV::Engine(
                                EngineErrorV::MissingPath(self@),
                            )) && final(evie).engine@ == eng
                        } else {
                            let idx = eng.index_of(self@);
                            let entry = eng.entries[idx];
                            if entry.held {
                                (r matches Err(e) && e@ == EvieErrorV::BorrowConflict) && final(evie).engine@ == eng
                            } else {
                                match entry.buffer.apply_spec(bav) {
                                    Ok(b2) => r == Ok::<bool, EvieError>(true) && final(evie).engine@.entries == eng.entries.update(
                                        idx,
                                        EntryV { buffer: b2, held: false },
                                    ) && final(evie).engine@.base == eng.base,
                                    Err(e2) => (r matches Err(e) && e@ == EvieErrorV::Engine(e2))
                                        && final(evie).engine@ == eng,
                                }
                            }
                        }
                    }),
                }
            }),
    {
        let action = match evie.trigger(key) {
            Some(a) => a,
            None => {
                return Ok(false);
            },
        };
        match action {
            Action::Core(ca) => {
                evie.apply(ca);
                Ok(true)
            },
            Action::Buffer(ba) => {
                let id = match evie.engine.get_buffer(self.buffer.as_str(), false) {
                    Ok(id) => id,
                    Err(e) => {
                        return Err(EvieError::Engine(e));
                    },
                };
                proof {
                    let eng = evie.engine@;
                    let idx = eng.index_of(self@);
                    assert(0 <= idx < eng.entries.len() && eng.entries[idx].buffer.path == self@);
                    if idx != id.index as int {
                        assert(eng.entries[id.index as int].buffer.path
                            == eng.entries[idx].buffer.path);
                        assert(false);
                    }
                }
                let ghost pre_engine = evie.engine@;
                let res = evie.engine.apply_action(id, ba);
                proof {
                    if !pre_engine.entries[id.index as int].held {
                        match pre_engine.entries[id.index as int].buffer.apply_spec(ba@) {
                            Ok(b2) => {
                                assert(evie.engine@.entries =~= pre_engine.entries.update(
                                    id.index as int,
                                    EntryV { buffer: b2, held: false },
                                ));
                            },
                            Err(_) => {
                                assert(evie.engine@.entries =~= pre_engine.entries);
                                assert(evie.engine@ == pre_engine);
                            },
                        }
                    } else {
                        assert(evie.engine@.entries =~= pre_engine.entries);
                        assert(evie.engine@ == pre_engine);
                    }
                }
                match res {
                    Ok(u) => Ok(true),
                    Err(e) => Err(e),
                }
            },
        }
    }
}

/// The actions a sequence of keys resolves to from a given dispatch state:
/// one entry per key, `None` where the key was consumed mid-sequence or
/// matched nothing. The mode is fixed (only `change_mode` moves it); the
/// trigger cursor advances or resets step by step.
pub open spec fn replay(
    table: ModesV,
    mode: Mode,
    cursor: TriggerMapV,
    keys: Seq<KeyAction>,
) -> Seq<Option<ActionV>>
    decreases keys.len(),
{
    if keys.len() == 0 {
        Seq::empty()
    } else {
        let step = step_spec(table, mode, cursor, keys[0]);
        seq![step.action] + replay(table, mode, step.cursor, keys.drop_first())
    }
}

/// Law (trie determinism): dispatch is a function of the starting state and
/// the keys alone. Two replays of the same key sequence from equal states
/// resolve the same actions in the same order — the exec `trigger` pins
/// each call to `step_spec` of its pre-state, so this carries to any two
/// coordinators with equal views.
pub proof fn lemma_trie_determinism(
    table1: ModesV,
    mode1: Mode,
    cursor1: TriggerMapV,
    table2: ModesV,
    mode2: Mode,
    cursor2: TriggerMapV,
    keys: Seq<KeyAction>,
)
    requires
        table1 == table2,
        mode1 == mode2,
        cursor1 == cursor2,
    ensures
        replay(table1, mode1, cursor1, keys) == replay(table2, mode2, cursor2, keys),
{
}

/// Law (cursor reset): after a step that resolved a terminal action, or one
/// whose key matched neither the cursor layer nor the universal map, the
/// cursor stands at the active mode's root — so the next key is dispatched
/// exactly as it would be right after `change_mode` to the same mode.
pub proof fn lemma_cursor_reset(
    table: ModesV,
    mode: Mode,
    cursor: TriggerMapV,
    key: KeyAction,
    next: KeyAction,
)
    requires
        ({
            let step = step_spec(table, mode, cursor, key);
            step.action is Some || (cursor.resolve(key) is None && table.universal.resolve(key)
                is None)
        }),
    ensures
        step_spec(table, mode, cursor, key).cursor == root_of(table, mode),
        step_spec(table, mode, step_spec(table, mode, cursor, key).cursor, next) == step_spec(
            table,
            mode,
            root_of(table, mode),
            next,
        ),
{
}

/// Law (mode isolation): dispatch consults only the current cursor and the
/// universal map, and resets only to the active mode's root. Two mode
/// tables that agree on the active mode's root and on the universal map
/// dispatch every key sequence identically, whatever the other modes' roots
/// bind — an inactive mode's bindings are unreachable unless duplicated
/// into the universal map.
pub proof fn lemma_mode_isolation(
    table1: ModesV,
    table2: ModesV,
    mode: Mode,
    cursor: TriggerMapV,
    keys: Seq<KeyAction>,
)
    requires
        root_of(table1, mode) == root_of(table2, mode),
        table1.universal == table2.universal,
    ensures
        replay(table1, mode, cursor, keys) == replay(table2, mode, cursor, keys),
    decreases keys.len(),
{
    if keys.len() > 0 {
        let step1 = step_spec(table1, mode, cursor, keys[0]);
        let step2 = step_spec(table2, mode, cursor, keys[0]);
        assert(step1 == step2);
        lemma_mode_isolation(table1, table2, mode, step1.cursor, keys.drop_first());
    }
}

} // verus!
