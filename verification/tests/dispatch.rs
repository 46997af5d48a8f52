use evie_core::{
    Action, BufferAction, CoreAction, Evie, Fallback, KeyAction, Mode, Modes, Named, Trigger,
    TriggerMap,
};
use std::sync::Arc;

fn empty_map() -> TriggerMap {
    TriggerMap::new(Vec::new(), Fallback::Absent)
}

/// The editor configuration used throughout: `i` enters insert mode from
/// normal mode, insert mode appends any printable key, and Escape always
/// returns to normal mode through the universal map.
fn standard_modes() -> Modes {
    let normal = TriggerMap::new(
        vec![(
            KeyAction::Letter('i'),
            Trigger::End(Action::Core(CoreAction::SetMode(Mode::Insert))),
        )],
        Fallback::Absent,
    );
    let insert = TriggerMap::new(Vec::new(), Fallback::AppendAny);
    let universal = TriggerMap::new(
        vec![(
            KeyAction::Named(Named::Escape),
            Trigger::End(Action::Core(CoreAction::SetMode(Mode::Normal))),
        )],
        Fallback::Absent,
    );
    Modes::new(
        normal,
        insert,
        empty_map(),
        empty_map(),
        empty_map(),
        empty_map(),
        universal,
    )
}

#[test]
fn normal_mode_key_resolves_set_mode() {
    let mut evie = Evie::new(standard_modes());
    let r = evie.trigger(KeyAction::Letter('i'));
    assert!(matches!(
        r,
        Some(Action::Core(CoreAction::SetMode(Mode::Insert)))
    ));
    // trigger alone resolves; it does not apply the mode change
    assert_eq!(evie.mode, Mode::Normal);
}

#[test]
fn unmatched_key_resolves_nothing() {
    let mut evie = Evie::new(standard_modes());
    assert!(evie.trigger(KeyAction::Letter('q')).is_none());
    assert!(evie.trigger(KeyAction::Named(Named::F1)).is_none());
}

#[test]
fn trie_determinism_replay() {
    let keys = [
        KeyAction::Letter('i'),
        KeyAction::Letter('q'),
        KeyAction::Letter('h'),
        KeyAction::Named(Named::Escape),
        KeyAction::Letter('i'),
    ];
    let mut evie1 = Evie::new(standard_modes());
    let mut evie2 = Evie::new(standard_modes());
    for key in keys {
        let r1 = evie1.trigger(key);
        let r2 = evie2.trigger(key);
        assert_eq!(format!("{r1:?}"), format!("{r2:?}"));
    }
}

#[test]
fn cursor_resets_after_end_resolution() {
    let mut evie = Evie::new(standard_modes());
    // a terminal resolution resets the cursor to the mode root,
    // so the same key resolves identically right afterwards
    let first = evie.trigger(KeyAction::Letter('i'));
    let again = evie.trigger(KeyAction::Letter('i'));
    assert_eq!(format!("{first:?}"), format!("{again:?}"));
}

#[test]
fn cursor_resets_after_unmatched_key() {
    let nested = TriggerMap::new(
        vec![(
            KeyAction::Letter('g'),
            Trigger::End(Action::Core(CoreAction::SetMode(Mode::Command))),
        )],
        Fallback::Absent,
    );
    let normal = TriggerMap::new(
        vec![(KeyAction::Letter('g'), Trigger::Nested(Arc::new(nested)))],
        Fallback::Absent,
    );
    let modes = Modes::new(
        normal,
        empty_map(),
        empty_map(),
        empty_map(),
        empty_map(),
        empty_map(),
        empty_map(),
    );
    let mut evie = Evie::new(modes);
    // descend mid-sequence, then hit an unmatched key: the sequence resets
    assert!(evie.trigger(KeyAction::Letter('g')).is_none());
    assert!(evie.trigger(KeyAction::Letter('q')).is_none());
    // a fresh "g g" works again from the root
    assert!(evie.trigger(KeyAction::Letter('g')).is_none());
    let r = evie.trigger(KeyAction::Letter('g'));
    assert!(matches!(
        r,
        Some(Action::Core(CoreAction::SetMode(Mode::Command)))
    ));
}

#[test]
fn multi_key_sequence_resolves_at_the_end() {
    let inner = TriggerMap::new(
        vec![(
            KeyAction::Letter('g'),
            Trigger::End(Action::Core(CoreAction::SetMode(Mode::Visual))),
        )],
        Fallback::Absent,
    );
    let normal = TriggerMap::new(
        vec![(KeyAction::Letter('g'), Trigger::Nested(Arc::new(inner)))],
        Fallback::Absent,
    );
    let modes = Modes::new(
        normal,
        empty_map(),
        empty_map(),
        empty_map(),
        empty_map(),
        empty_map(),
        empty_map(),
    );
    let mut evie = Evie::new(modes);
    assert!(evie.trigger(KeyAction::Letter('g')).is_none());
    let r = evie.trigger(KeyAction::Letter('g'));
    assert!(matches!(
        r,
        Some(Action::Core(CoreAction::SetMode(Mode::Visual)))
    ));
}

#[test]
fn fallback_precedence_direct_entry_wins() {
    // 'a' has both a direct entry and an open fallback that would match it:
    // the direct entry's trigger is the one returned
    let normal = TriggerMap::new(
        vec![(
            KeyAction::Letter('a'),
            Trigger::End(Action::Core(CoreAction::SetMode(Mode::Visual))),
        )],
        Fallback::AppendAny,
    );
    let modes = Modes::new(
        normal,
        empty_map(),
        empty_map(),
        empty_map(),
        empty_map(),
        empty_map(),
        empty_map(),
    );
    let mut evie = Evie::new(modes);
    let direct = evie.trigger(KeyAction::Letter('a'));
    assert!(matches!(
        direct,
        Some(Action::Core(CoreAction::SetMode(Mode::Visual)))
    ));
    // a key the direct entries do not cover falls through to the open class
    let fallback = evie.trigger(KeyAction::Letter('b'));
    match fallback {
        Some(Action::Buffer(BufferAction::Append(s))) => assert_eq!(s, "b"),
        other => panic!("expected an append, got {other:?}"),
    }
}

#[test]
fn fallback_always_matches_every_key() {
    let normal = TriggerMap::new(
        Vec::new(),
        Fallback::Always(Action::Core(CoreAction::SetMode(Mode::Terminal))),
    );
    let modes = Modes::new(
        normal,
        empty_map(),
        empty_map(),
        empty_map(),
        empty_map(),
        empty_map(),
        empty_map(),
    );
    let mut evie = Evie::new(modes);
    for key in [
        KeyAction::Letter('z'),
        KeyAction::Named(Named::Tab),
        KeyAction::Named(Named::Enter),
    ] {
        let r = evie.trigger(key);
        assert!(matches!(
            r,
            Some(Action::Core(CoreAction::SetMode(Mode::Terminal)))
        ));
    }
}

#[test]
fn mode_isolation_inactive_bindings_unreachable() {
    let visual = TriggerMap::new(
        vec![(
            KeyAction::Letter('d'),
            Trigger::End(Action::Core(CoreAction::SetMode(Mode::Normal))),
        )],
        Fallback::Absent,
    );
    let modes = Modes::new(
        empty_map(),
        empty_map(),
        visual,
        empty_map(),
        empty_map(),
        empty_map(),
        empty_map(),
    );
    let mut evie = Evie::new(modes);
    // 'd' is bound only under the visual root: invisible from normal mode
    assert!(evie.trigger(KeyAction::Letter('d')).is_none());
    evie.change_mode(Mode::Visual);
    let r = evie.trigger(KeyAction::Letter('d'));
    assert!(matches!(
        r,
        Some(Action::Core(CoreAction::SetMode(Mode::Normal)))
    ));
}

#[test]
fn universal_map_reachable_from_every_mode() {
    let mut evie = Evie::new(standard_modes());
    for mode in [
        Mode::Normal,
        Mode::Insert,
        Mode::Visual,
        Mode::Command,
        Mode::Replace,
        Mode::Terminal,
    ] {
        evie.change_mode(mode);
        let r = evie.trigger(KeyAction::Named(Named::Escape));
        assert!(matches!(
            r,
            Some(Action::Core(CoreAction::SetMode(Mode::Normal)))
        ));
    }
}

#[test]
fn mode_map_mid_sequence_shadows_universal() {
    // while the mode map is mid-sequence, the universal map is not consulted
    let inner = TriggerMap::new(
        vec![(
            KeyAction::Named(Named::Escape),
            Trigger::End(Action::Core(CoreAction::SetMode(Mode::Command))),
        )],
        Fallback::Absent,
    );
    let normal = TriggerMap::new(
        vec![(KeyAction::Letter('g'), Trigger::Nested(Arc::new(inner)))],
        Fallback::Absent,
    );
    let universal = TriggerMap::new(
        vec![(
            KeyAction::Named(Named::Escape),
            Trigger::End(Action::Core(CoreAction::SetMode(Mode::Normal))),
        )],
        Fallback::Absent,
    );
    let modes = Modes::new(
        normal,
        empty_map(),
        empty_map(),
        empty_map(),
        empty_map(),
        empty_map(),
        universal,
    );
    let mut evie = Evie::new(modes);
    assert!(evie.trigger(KeyAction::Letter('g')).is_none());
    let r = evie.trigger(KeyAction::Named(Named::Escape));
    assert!(matches!(
        r,
        Some(Action::Core(CoreAction::SetMode(Mode::Command)))
    ));
}

#[test]
fn universal_sequence_persists_across_keys() {
    // when the mode map has no answer and the universal map yields a nested
    // map, the cursor stays inside the universal trie for the next key
    let inner = TriggerMap::new(
        vec![(
            KeyAction::Letter('z'),
            Trigger::End(Action::Core(CoreAction::SetMode(Mode::Terminal))),
        )],
        Fallback::Absent,
    );
    let universal = TriggerMap::new(
        vec![(KeyAction::Letter('u'), Trigger::Nested(Arc::new(inner)))],
        Fallback::Absent,
    );
    let modes = Modes::new(
        empty_map(),
        empty_map(),
        empty_map(),
        empty_map(),
        empty_map(),
        empty_map(),
        universal,
    );
    let mut evie = Evie::new(modes);
    assert!(evie.trigger(KeyAction::Letter('u')).is_none());
    let r = evie.trigger(KeyAction::Letter('z'));
    assert!(matches!(
        r,
        Some(Action::Core(CoreAction::SetMode(Mode::Terminal)))
    ));
}

#[test]
fn latest_binding_for_a_key_wins() {
    let normal = TriggerMap::new(
        vec![
            (
                KeyAction::Letter('a'),
                Trigger::End(Action::Core(CoreAction::SetMode(Mode::Visual))),
            ),
            (
                KeyAction::Letter('a'),
                Trigger::End(Action::Core(CoreAction::SetMode(Mode::Command))),
            ),
        ],
        Fallback::Absent,
    );
    let modes = Modes::new(
        normal,
        empty_map(),
        empty_map(),
        empty_map(),
        empty_map(),
        empty_map(),
        empty_map(),
    );
    let mut evie = Evie::new(modes);
    let r = evie.trigger(KeyAction::Letter('a'));
    assert!(matches!(
        r,
        Some(Action::Core(CoreAction::SetMode(Mode::Command)))
    ));
}

#[test]
fn with_fallback_replaces_the_fallback() {
    let normal = TriggerMap::new(Vec::new(), Fallback::Absent)
        .with_fallback(Fallback::Always(Action::Core(CoreAction::SetMode(Mode::Insert))));
    let modes = Modes::new(
        normal,
        empty_map(),
        empty_map(),
        empty_map(),
        empty_map(),
        empty_map(),
        empty_map(),
    );
    let mut evie = Evie::new(modes);
    let r = evie.trigger(KeyAction::Letter('w'));
    assert!(matches!(
        r,
        Some(Action::Core(CoreAction::SetMode(Mode::Insert)))
    ));
}

#[test]
fn append_fallback_maps_enter_to_newline() {
    let mut evie = Evie::new(standard_modes());
    evie.change_mode(Mode::Insert);
    let r = evie.trigger(KeyAction::Named(Named::Enter));
    match r {
        Some(Action::Buffer(BufferAction::Append(s))) => assert_eq!(s, "\n"),
        other => panic!("expected a newline append, got {other:?}"),
    }
}

#[test]
fn append_fallback_ignores_other_named_keys() {
    let mut evie = Evie::new(standard_modes());
    evie.change_mode(Mode::Insert);
    assert!(evie.trigger(KeyAction::Named(Named::Tab)).is_none());
    assert!(evie.trigger(KeyAction::Named(Named::Backspace)).is_none());
}

#[test]
fn change_mode_discards_in_progress_sequence() {
    let inner = TriggerMap::new(
        vec![(
            KeyAction::Letter('g'),
            Trigger::End(Action::Core(CoreAction::SetMode(Mode::Command))),
        )],
        Fallback::Absent,
    );
    let normal = TriggerMap::new(
        vec![(KeyAction::Letter('g'), Trigger::Nested(Arc::new(inner)))],
        Fallback::Absent,
    );
    let modes = Modes::new(
        normal,
        empty_map(),
        empty_map(),
        empty_map(),
        empty_map(),
        empty_map(),
        empty_map(),
    );
    let mut evie = Evie::new(modes);
    assert!(evie.trigger(KeyAction::Letter('g')).is_none());
    evie.change_mode(Mode::Normal);
    // the half-typed "g g" was discarded: the second 'g' starts over
    assert!(evie.trigger(KeyAction::Letter('g')).is_none());
    let r = evie.trigger(KeyAction::Letter('g'));
    assert!(matches!(
        r,
        Some(Action::Core(CoreAction::SetMode(Mode::Command)))
    ));
}
