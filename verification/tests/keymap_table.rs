use git_pincer::i18n::{parse, Catalog, I18n};
use git_pincer::ui::keymap::{
    action_in, build, default_bindings, derive_labels, help_columns, hint_entries, key_display, parse_key, Action,
    EffectiveBinding, Key, Mods,
};

const NONE: Mods = Mods { control: false, alt: false, shift: false };
const CONTROL: Mods = Mods { control: true, alt: false, shift: false };
const ALT: Mods = Mods { control: false, alt: true, shift: false };
const SHIFT: Mods = Mods { control: false, alt: false, shift: true };

fn messages() -> I18n {
    let en = parse(
        "config.bad_action = [keys] has unknown action \"{name}\"; known actions: {list}\n\
         config.bad_key = [keys] {name} = \"{key}\" is not a key\n\
         config.key_conflict = key {key} is bound twice\n",
    );
    I18n::new(en, Catalog::empty())
}

fn overrides(pairs: &[(&str, &str)]) -> Vec<(String, String)> {
    pairs.iter().map(|(a, b)| (a.to_string(), b.to_string())).collect()
}

fn default_table() -> Vec<EffectiveBinding> {
    build(&messages(), &Vec::new()).unwrap()
}

fn group(table: &[EffectiveBinding], id: Action) -> Option<&EffectiveBinding> {
    table.iter().find(|b| b.id == id)
}

#[test]
fn keys_resolve_to_expected_actions() {
    let t = default_table();
    let f = |code| action_in(&t, code, NONE);
    assert_eq!(f(Key::Char('h')), Some(Action::TakeLocal));
    assert_eq!(f(Key::Left), Some(Action::TakeLocal));
    assert_eq!(f(Key::Char('U')), Some(Action::UndoFile));
    assert_eq!(f(Key::Char('k')), Some(Action::PrevChange));
    assert_eq!(f(Key::Tab), Some(Action::NextFile));
    assert_eq!(f(Key::Char('?')), Some(Action::Help));
    assert_eq!(f(Key::Char('0')), None);
    assert_eq!(f(Key::Esc), None);
    assert_eq!(action_in(&t, Key::Char('U'), SHIFT), Some(Action::UndoFile));
    assert_eq!(action_in(&t, Key::Left, CONTROL), None);
}

#[test]
fn default_labels_match_previous_ui() {
    let expected: [(&str, &str); 16] = [
        ("h / ←", "h"),
        ("l / →", "l"),
        ("x", "x"),
        ("u / U", "u/U"),
        ("e", "e"),
        ("a", "a"),
        ("w", "w"),
        ("q", "q"),
        ("j / k", "j/k"),
        ("n / p", "n/p"),
        ("Tab", "⇥"),
        ("z", "z"),
        ("y", "y"),
        ("Y", "Y"),
        ("H / L", "H/L"),
        ("?", "?"),
    ];
    let table = default_table();
    assert_eq!(table.len(), expected.len());
    for (binding, (label, hint_label)) in table.iter().zip(expected) {
        assert_eq!(binding.label, label, "{:?} help label drifted", binding.id);
        assert_eq!(binding.hint_label, hint_label, "{:?} hint label drifted", binding.id);
    }
}

#[test]
fn parse_key_descriptions() {
    assert_eq!(parse_key("h"), Some((Key::Char('h'), NONE)));
    assert_eq!(parse_key("U"), Some((Key::Char('U'), NONE)));
    assert_eq!(parse_key("LEFT"), Some((Key::Left, NONE)));
    assert_eq!(parse_key("ctrl+s"), Some((Key::Char('s'), CONTROL)));
    assert_eq!(parse_key("alt+enter"), Some((Key::Enter, ALT)));
    assert_eq!(parse_key("shift+u"), Some((Key::Char('U'), NONE)));
    assert_eq!(parse_key("f5"), Some((Key::F(5), NONE)));
    assert_eq!(parse_key("space"), Some((Key::Char(' '), NONE)));
    assert_eq!(parse_key(""), None);
    assert_eq!(parse_key("ctrl+"), None);
    assert_eq!(parse_key("foo"), None);
    assert_eq!(parse_key("f13"), None);
    assert_eq!(parse_key("meta+x"), None);
}

#[test]
fn overrides_replace_defaults_and_labels() {
    let table = build(&messages(), &overrides(&[("take-local", "o"), ("write", "ctrl+s")])).unwrap();
    assert_eq!(action_in(&table, Key::Char('o'), NONE), Some(Action::TakeLocal));
    assert_eq!(action_in(&table, Key::Char('h'), NONE), None);
    assert_eq!(action_in(&table, Key::Left, NONE), None);
    assert_eq!(action_in(&table, Key::Char('s'), CONTROL), Some(Action::WriteFile));
    let take_local = group(&table, Action::TakeLocal).unwrap();
    assert_eq!((take_local.label.as_str(), take_local.hint_label.as_str()), ("o", "o"));
    let write = group(&table, Action::WriteFile).unwrap();
    assert_eq!(write.label, "ctrl+s");
}

#[test]
fn partial_group_override_keeps_sibling() {
    let table = build(&messages(), &overrides(&[("undo", "ctrl+z")])).unwrap();
    assert_eq!(action_in(&table, Key::Char('z'), CONTROL), Some(Action::UndoChunk));
    assert_eq!(action_in(&table, Key::Char('U'), NONE), Some(Action::UndoFile));
    let undo = group(&table, Action::UndoChunk).unwrap();
    assert_eq!(undo.label, "ctrl+z / U");
}

#[test]
fn override_errors_are_readable() {
    let err = build(&messages(), &overrides(&[("no-such", "o")])).unwrap_err();
    assert!(err.contains("no-such") && err.contains("take-local"));

    let err = build(&messages(), &overrides(&[("write", "ctrl+")])).unwrap_err();
    assert!(err.contains("ctrl+") && err.contains("write"));

    let err = build(&messages(), &overrides(&[("write", "h")])).unwrap_err();
    assert!(err.contains('h'));
}

#[test]
fn layouts_reference_existing_groups() {
    let table = default_table();
    let hints = hint_entries(&table);
    assert_eq!(hints.len(), 11);
    for (label, key) in &hints {
        assert!(!label.is_empty());
        assert!(key.starts_with("ui.hint_"));
    }
    let (left, right) = help_columns(&table);
    assert_eq!((left.len(), right.len()), (8, 8));
    assert_eq!(left[0], ("h / ←".to_string(), "ui.help_left".to_string()));
    assert_eq!(right[0], ("j / k".to_string(), "ui.help_move".to_string()));
    assert_eq!(hints[7], ("⇥".to_string(), "ui.hint_file".to_string()));
}

#[test]
fn group_ids_are_reachable_from_own_keys() {
    for binding in default_bindings() {
        assert!(
            binding.keys.iter().any(|(_, action)| *action == binding.id),
            "group {:?} cannot be reached from its own keys",
            binding.id
        );
    }
}

#[test]
fn conflict_message_names_the_key() {
    let err = build(&messages(), &overrides(&[("help", "ctrl+s"), ("write", "ctrl+s")])).unwrap_err();
    assert_eq!(err, "key ctrl+s is bound twice");
}

#[test]
fn later_override_of_same_action_wins() {
    let table = build(&messages(), &overrides(&[("quit", "Q"), ("quit", "ctrl+q")])).unwrap();
    assert_eq!(action_in(&table, Key::Char('q'), CONTROL), Some(Action::Quit));
    assert_eq!(action_in(&table, Key::Char('Q'), NONE), None);
    assert_eq!(action_in(&table, Key::Char('q'), NONE), None);
}

#[test]
fn labels_and_display_of_keys() {
    assert_eq!(key_display(Key::Tab, NONE, true), "⇥");
    assert_eq!(key_display(Key::Tab, NONE, false), "Tab");
    assert_eq!(key_display(Key::F(12), Mods { control: true, alt: true, shift: false }, false), "ctrl+alt+F12");
    assert_eq!(key_display(Key::Char(' '), NONE, false), "Space");
    let keys = vec![
        (Key::Char('j'), NONE, Action::NextChange),
        (Key::Down, NONE, Action::NextChange),
    ];
    assert_eq!(derive_labels(&keys), ("j / ↓".to_string(), "j".to_string()));
}

#[test]
fn bad_key_message_is_filled() {
    let err = build(&messages(), &overrides(&[("fold", "f0")])).unwrap_err();
    assert_eq!(err, "[keys] fold = \"f0\" is not a key");
}

#[test]
fn every_bound_key_dispatches_its_action() {
    let i = messages();
    for table in [default_table(), build(&i, &overrides(&[("write", "ctrl+s"), ("take-local", "o"), ("quit", "f10")])).unwrap()] {
        for g in &table {
            for (code, mods, action) in &g.keys {
                assert_eq!(action_in(&table, *code, *mods), Some(*action));
            }
        }
    }
}
