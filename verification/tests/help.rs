use tere::action::Action;
use tere::help::{
    get_formatted_help_text, get_justified_keyboard_shortcuts_table, get_keyboard_shortcuts_table,
    invert_key_mapping_sorted, README_STR,
};
use tere::keys::{default_keymap, default_keymap_entries, KeyId, Keymap};
use tere::action::ActionContext;

/// A key combination read by crokey, named as the keymap names it.
fn parse_key(s: &str) -> Result<KeyId, crokey::ParseKeyError> {
    let first: crokey::crossterm::event::KeyEvent = crokey::parse(s)?.into();
    let k = crokey::KeyCombination::from(first);
    Ok(KeyId {
        name: crokey::KeyCombinationFormat::default().to_string(k),
        has_modifiers: !k.modifiers.is_empty(),
    })
}

#[test]
fn test_user_guide_found() {
    get_formatted_help_text(100, &Keymap::new());
}

#[test]
fn test_replace_works_as_expected() {
    // Everything that the help text replaces is in the README.
    assert!(README_STR.contains("shortcuts by default"));
    assert!(README_STR.contains("<kbd>"));
    assert!(README_STR.contains("</kbd>"));
    assert!(README_STR.contains("Default s"));
    assert!(README_STR.contains("should be familiar to"));
}

#[test]
fn test_keyboard_shortcuts_table_fond() {
    let table = get_keyboard_shortcuts_table();
    let lines: Vec<_> = table.split('\n').collect();
    assert_eq!(lines[0].chars().next().unwrap(), '|');
    assert_eq!(lines[0].chars().last().unwrap(), '|');

    assert_eq!(lines.iter().last().unwrap().chars().next().unwrap(), '|');
    assert_eq!(lines.iter().last().unwrap().chars().last().unwrap(), '|');

    assert!(lines[0].contains("Description"));
}

#[test]
fn test_all_key_mappings_listed_in_readme() {
    let table_lines: Vec<_> = get_keyboard_shortcuts_table().split('\n').skip(2).collect();

    let mut key_mappings: Vec<(String, Vec<Action>)> = Vec::new();

    for line in table_lines.iter() {
        let parts: Vec<_> = line.split('|').collect();

        let action_name = parts[3].replace('`', "").trim().to_string();
        let action = Action::from_name(&action_name)
            .unwrap_or_else(|| panic!("Invalid action in table row '{}': '{}'", line, action_name));

        let key_combos: Vec<_> = parts[2]
            .replace("if not searching,", "").replace("if searching", "")
            .replace("<kbd>", "").replace("</kbd>", "")
            .replace('+', "-")
            .replace('↑', "up").replace('↓', "down").replace('←', "left").replace('→', "right")
            .replace("Page Up", "pageup").replace("Page Down", "pagedown")
            .split(" or ")
            .map(|k| parse_key(k.trim()).unwrap().name)
            .collect();
        for k in key_combos {
            match key_mappings.iter_mut().find(|(name, _)| *name == k) {
                Some((_, actions)) => actions.push(action),
                None => key_mappings.push((k, vec![action])),
            }
        }
    }

    // Check that all actions are listed
    let actions: Vec<_> = key_mappings.iter().flat_map(|(_, a)| a.iter()).collect();
    for action in Action::all() {
        if action != Action::Unbind {
            assert!(actions.contains(&&action), "Action '{}' not found in readme", action.name());
        }
    }

    // Check that the default keymap matches the README
    let shift_question = parse_key("shift-?").unwrap().name;
    for (key_text, _, expected_action) in default_keymap_entries() {
        let key = parse_key(key_text).unwrap().name;
        if key == shift_question {
            continue;
        }
        let actions = key_mappings
            .iter()
            .find(|(name, _)| *name == key)
            .map(|(_, a)| a.clone())
            .unwrap_or_else(|| panic!("Key mapping {}:{} not found in README", key, expected_action.name()));
        assert!(
            actions.contains(&expected_action),
            "Key mapping '{}:{}' in default keymap doesn't match README: '{:?}'",
            key,
            expected_action.name(),
            actions
        );
    }
}

#[test]
fn justified_table_lists_the_shortcuts_of_each_action() {
    let table = get_justified_keyboard_shortcuts_table(&default_keymap());
    let lines: Vec<&str> = table.lines().collect();
    assert!(lines[0].starts_with("`Description`"));
    assert!(lines[0].ends_with("`Shortcut(s)`"));
    let exit_line = lines.iter().find(|l| l.starts_with("Exit `tere`  ")).unwrap();
    assert!(exit_line.ends_with("`Alt-q`, `Esc` (when not searching)"));
    // the shortcuts start two columns after the widest description
    let home = lines.iter().find(|l| l.starts_with("Go to home directory")).unwrap();
    let root = lines.iter().find(|l| l.starts_with("Go to root directory")).unwrap();
    assert_eq!(home.find('`'), root.find('`'));
}

#[test]
fn justified_table_without_mappings() {
    let table = get_justified_keyboard_shortcuts_table(&Keymap::new());
    assert!(table.lines().skip(1).all(|l| l.ends_with("No mapping found")));
}

#[test]
fn inverted_mapping_puts_keys_without_context_first() {
    let inv = invert_key_mapping_sorted(&default_keymap());
    let (_, parent) = inv.iter().find(|(name, _)| name == "ChangeDirParent").unwrap();
    let names: Vec<(String, ActionContext)> = parent.iter().map(|(k, c)| (k.name.clone(), *c)).collect();
    assert_eq!(names[0], ("Left".to_string(), ActionContext::NoContext));
    assert!(names[..3].iter().all(|(_, c)| *c == ActionContext::NoContext));
    assert!(names[3..].iter().all(|(_, c)| *c == ActionContext::NotSearching));
    // keys without modifiers before keys with modifiers, then by name; keys
    // in the same context keep the order of the keymap
    assert_eq!(names[1].0, "Alt-Up");
    assert_eq!(names[2].0, "Alt-h");
    assert_eq!(names[3].0, "Hyphen");
    assert_eq!(names[4].0, "Backspace");
}

#[test]
fn formatted_help_mentions_the_actual_shortcuts() {
    let help = get_formatted_help_text(100, &default_keymap());
    let text: String = help
        .iter()
        .map(|l| l.iter().map(|c| c.text.as_str()).collect::<String>())
        .collect::<Vec<_>>()
        .join("\n");
    assert!(text.contains("tere has the following keyboard shortcuts:"));
    assert!(!text.contains("should be familiar to"));
    assert!(!text.contains("<kbd>"));
}
