//! The trigger trie: per-mode key-binding tables and their resolution.
//!
//! A [`TriggerMap`] maps keys to [`Trigger`]s: either a terminal [`Action`]
//! (the key finished a binding) or a nested map (the key continued a
//! multi-key sequence). A map may also carry one [`Fallback`], a catch-all
//! consulted only when no direct entry matches, so that open key classes
//! ("any letter") need not enumerate every key.
//!
//! Maps are logically immutable once constructed and shared by reference:
//! nested trie nodes and the coordinator's in-progress cursor all point at
//! the same nodes through `Arc`.

use crate::action::{Action, ActionV, BufferAction, BufferActionV};
use crate::key::{KeyAction, Named};
use std::sync::Arc;
use vstd::prelude::*;

verus! {

/// What one key resolves to inside a trigger map.
#[derive(Debug)]
pub enum Trigger {
    /// The sequence is complete: this key finished a binding.
    End(Action),
    /// The sequence continues: descend into a nested map.
    Nested(Arc<TriggerMap>),
}

/// A catch-all rule for keys with no direct entry, as a closed tag.
///
/// The fallback is consulted only as a last resort: a direct entry for a key
/// always wins, so a binding can carve an exception out of an open class.
#[derive(Debug)]
pub enum Fallback {
    /// No catch-all: unmatched keys resolve to nothing.
    Absent,
    /// The open "printable" class: any letter key resolves to appending that
    /// character, and `Enter` to appending a newline.
    AppendAny,
    /// Every key resolves to the same terminal action.
    Always(Action),
}

/// A mapping from keys to triggers, plus at most one fallback.
///
/// Entries are kept in insertion order and the latest entry for a key wins,
/// so rebinding a key shadows the older binding.
#[derive(Debug)]
pub struct TriggerMap {
    entries: Vec<(KeyAction, Trigger)>,
    fallback: Fallback,
}

/// Mathematical model of a [`Trigger`].
pub enum TriggerV {
    End(ActionV),
    Nested(TriggerMapV),
}

/// Mathematical model of a [`Fallback`].
pub enum FallbackV {
    Absent,
    AppendAny,
    Always(ActionV),
}

/// Mathematical model of a [`TriggerMap`].
pub struct TriggerMapV {
    pub entries: Seq<(KeyAction, TriggerV)>,
    pub fallback: FallbackV,
}

/// The model of one trigger: terminal actions are modelled by their view,
/// nested maps recursively.
pub open spec fn trigger_view(t: Trigger) -> TriggerV
    decreases t,
{
    match t {
        Trigger::End(a) => TriggerV::End(a@),
        Trigger::Nested(m) => TriggerV::Nested(map_view(*m)),
    }
}

/// The model of a fallback tag.
pub open spec fn fallback_view(f: Fallback) -> FallbackV {
    match f {
        Fallback::Absent => FallbackV::Absent,
        Fallback::AppendAny => FallbackV::AppendAny,
        Fallback::Always(a) => FallbackV::Always(a@),
    }
}

/// The model of an entry list: each trigger replaced by its view.
pub open spec fn entries_view(s: Seq<(KeyAction, Trigger)>) -> Seq<(KeyAction, TriggerV)>
    decreases s,
{
    if s.len() == 0 {
        Seq::empty()
    } else {
        entries_view(s.drop_last()).push((s.last().0, trigger_view(s.last().1)))
    }
}

/// The model of a whole map.
pub closed spec fn map_view(m: TriggerMap) -> TriggerMapV
    decreases m,
{
    TriggerMapV { entries: entries_view(m.entries@), fallback: fallback_view(m.fallback) }
}

impl View for Trigger {
    type V = TriggerV;

    open spec fn view(&self) -> TriggerV {
        trigger_view(*self)
    }
}

impl View for Fallback {
    type V = FallbackV;

    open spec fn view(&self) -> FallbackV {
        fallback_view(*self)
    }
}

impl View for TriggerMap {
    type V = TriggerMapV;

    open spec fn view(&self) -> TriggerMapV {
        map_view(*self)
    }
}

/// An entry list's length and elements carry over to its view.
pub proof fn lemma_entries_view(s: Seq<(KeyAction, Trigger)>)
    ensures
        entries_view(s).len() == s.len(),
        forall|i: int|
            0 <= i < s.len() ==> #[trigger] entries_view(s)[i] == (s[i].0, trigger_view(s[i].1)),
    decreases s,
{
    if s.len() > 0 {
        lemma_entries_view(s.drop_last());
    }
}

/// The direct entry for `key`, scanning entries so that the latest entry for
/// a key wins.
pub open spec fn lookup(entries: Seq<(KeyAction, TriggerV)>, key: KeyAction) -> Option<TriggerV>
    decreases entries,
{
    if entries.len() == 0 {
        None
    } else if entries.last().0 == key {
        Some(entries.last().1)
    } else {
        lookup(entries.drop_last(), key)
    }
}

/// What a fallback tag yields for `key` when no direct entry matched.
pub open spec fn fallback_resolve(f: FallbackV, key: KeyAction) -> Option<TriggerV> {
    match f {
        FallbackV::Absent => None,
        FallbackV::AppendAny => match key {
            KeyAction::Letter(c) => Some(
                TriggerV::End(ActionV::Buffer(BufferActionV::Append(seq![c]))),
            ),
            KeyAction::Named(n) => if n == Named::Enter {
                Some(TriggerV::End(ActionV::Buffer(BufferActionV::Append(seq!['\n']))))
            } else {
                None
            },
        },
        FallbackV::Always(a) => Some(TriggerV::End(a)),
    }
}

impl TriggerMapV {
    /// Resolution: the direct entry for `key` if one exists; otherwise
    /// whatever the fallback yields. The fallback is never consulted when a
    /// direct entry is present.
    pub open spec fn resolve(self, key: KeyAction) -> Option<TriggerV> {
        match lookup(self.entries, key) {
            Some(t) => Some(t),
            None => fallback_resolve(self.fallback, key),
        }
    }
}

/// Law: a direct entry always wins. When a map has a direct entry for `key`,
/// resolution returns that entry's trigger, whatever the fallback would have
/// said for the same key.
pub proof fn lemma_fallback_precedence(m: TriggerMapV, key: KeyAction)
    requires
        lookup(m.entries, key) is Some,
    ensures
        m.resolve(key) == lookup(m.entries, key),
{
}

/// The view of an optional trigger.
pub open spec fn opt_trigger_view(t: Option<Trigger>) -> Option<TriggerV> {
    match t {
        Some(t0) => Some(t0@),
        None => None,
    }
}

/// Relies on `Arc::clone` (std): the clone shares the same allocation, so it
/// carries the same value as the original.
#[verifier::external_body]
pub(crate) fn arc_clone(m: &Arc<TriggerMap>) -> (r: Arc<TriggerMap>)
    ensures
        r == *m,
{
    Arc::clone(m)
}

/// Relies on `char`'s `ToString` (std): the returned string holds exactly
/// the one character.
#[verifier::external_body]
fn char_to_string(c: char) -> (r: String)
    ensures
        r@ == seq![c],
{
    c.to_string()
}

impl Clone for Trigger {
    fn clone(&self) -> (r: Self)
        ensures
            r == *self,
    {
        match self {
            Trigger::End(a) => Trigger::End(a.clone()),
            Trigger::Nested(m) => Trigger::Nested(arc_clone(m)),
        }
    }
}

impl Default for TriggerMap {
    /// An empty map: no bindings and no fallback.
    fn default() -> (r: Self)
        ensures
            r@.entries == Seq::<(KeyAction, TriggerV)>::empty(),
            r@.fallback == FallbackV::Absent,
    {
        let r = TriggerMap { entries: Vec::new(), fallback: Fallback::Absent };
        proof {
            assert(r@.entries =~= Seq::<(KeyAction, TriggerV)>::empty());
        }
        r
    }
}

impl From<Arc<TriggerMap>> for Trigger {
    /// A shared map taken as a trigger continues the sequence into it.
    fn from(value: Arc<TriggerMap>) -> (r: Self)
        ensures
            r == Trigger::Nested(value),
    {
        Trigger::Nested(value)
    }
}

impl vstd::std_specs::convert::FromSpecImpl<Arc<TriggerMap>> for Trigger {
    open spec fn obeys_from_spec() -> bool {
        true
    }

    open spec fn from_spec(t: Arc<TriggerMap>) -> Trigger {
        Trigger::Nested(t)
    }
}

impl TriggerMap {
    /// Builds a map from a list of bindings and a fallback. A later binding
    /// for the same key shadows an earlier one.
    pub fn new(entries: Vec<(KeyAction, Trigger)>, fallback: Fallback) -> (r: Self)
        ensures
            r@.entries == entries_view(entries@),
            r@.fallback == fallback@,
    {
        TriggerMap { entries, fallback }
    }

    /// The same bindings with the given fallback in place of the old one.
    pub fn with_fallback(self, fallback: Fallback) -> (r: Self)
        ensures
            r@.entries == self@.entries,
            r@.fallback == fallback@,
    {
        TriggerMap { entries: self.entries, fallback }
    }

    /// Resolves one key against this map: the direct entry if present,
    /// otherwise whatever the fallback yields.
    pub fn get(&self, key: &KeyAction) -> (r: Option<Trigger>)
        ensures
            opt_trigger_view(r) == self@.resolve(*key),
    {
        proof {
            lemma_entries_view(self.entries@);
        }
        let ghost ev = entries_view(self.entries@);
        let mut i: usize = self.entries.len();
        proof {
            assert(ev.take(i as int) =~= ev);
        }
        while i > 0
            invariant
                i <= self.entries.len(),
                ev == entries_view(self.entries@),
                lookup(ev, *key) == lookup(ev.take(i as int), *key),
            decreases i,
        {
            i = i - 1;
            let found = self.entries[i].0 == *key;
            proof {
                lemma_entries_view(self.entries@);
                assert(ev.take(i + 1).drop_last() =~= ev.take(i as int));
                assert(ev.take(i + 1).last() == ev[i as int]);
            }
            if found {
                let r = Some(self.entries[i].1.clone());
                proof {
                    assert(lookup(ev.take(i + 1), *key) == Some(ev[i as int].1));
                }
                return r;
            }
        }
        proof {
            assert(ev.take(0) =~= Seq::<(KeyAction, TriggerV)>::empty());
            assert(lookup(ev, *key) is None);
        }
        match &self.fallback {
            Fallback::Absent => None,
            Fallback::AppendAny => match key {
                KeyAction::Letter(c) => Some(
                    Trigger::End(Action::Buffer(BufferAction::Append(char_to_string(*c)))),
                ),
                KeyAction::Named(n) => {
                    if *n == Named::Enter {
                        Some(Trigger::End(Action::Buffer(BufferAction::Append(char_to_string('\n')))))
                    } else {
                        None
                    }
                },
            },
            Fallback::Always(a) => Some(Trigger::End(a.clone())),
        }
    }
}

/// One trigger-map root per mode, plus the universal map consulted
/// independently of the active mode. Constructed once at startup from the
/// embedding application's binding tables; read-only thereafter.
#[derive(Debug)]
pub struct Modes {
    pub normal: Arc<TriggerMap>,
    pub insert: Arc<TriggerMap>,
    pub visual: Arc<TriggerMap>,
    pub command: Arc<TriggerMap>,
    pub replace: Arc<TriggerMap>,
    pub terminal: Arc<TriggerMap>,
    pub universal: Arc<TriggerMap>,
}

/// Mathematical model of a [`Modes`] table.
pub struct ModesV {
    pub normal: TriggerMapV,
    pub insert: TriggerMapV,
    pub visual: TriggerMapV,
    pub command: TriggerMapV,
    pub replace: TriggerMapV,
    pub terminal: TriggerMapV,
    pub universal: TriggerMapV,
}

impl View for Modes {
    type V = ModesV;

    open spec fn view(&self) -> ModesV {
        ModesV {
            normal: self.normal@,
            insert: self.insert@,
            visual: self.visual@,
            command: self.command@,
            replace: self.replace@,
            terminal: self.terminal@,
            universal: self.universal@,
        }
    }
}

impl Modes {
    /// Builds the mode table from one root map per mode plus the universal
    /// map.
    pub fn new(
        normal: TriggerMap,
        insert: TriggerMap,
        visual: TriggerMap,
        command: TriggerMap,
        replace: TriggerMap,
        terminal: TriggerMap,
        universal: TriggerMap,
    ) -> (r: Self)
        ensures
            r@.normal == normal@,
            r@.insert == insert@,
            r@.visual == visual@,
            r@.command == command@,
            r@.replace == replace@,
            r@.terminal == terminal@,
            r@.universal == universal@,
    {
        Modes {
            normal: Arc::new(normal),
            insert: Arc::new(insert),
            visual: Arc::new(visual),
            command: Arc::new(command),
            replace: Arc::new(replace),
            terminal: Arc::new(terminal),
            universal: Arc::new(universal),
        }
    }
}

} // verus!
