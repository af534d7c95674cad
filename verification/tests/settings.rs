use tere::action::{Action, ActionContext};
use tere::error::TereError;
use tere::keys::{default_keymap_entries, parse_keymap_arg, KeyId};
use tere::settings::{
    CaseSensitiveMode, CliArgs, DeprecationWarnings, FileHandlingMode, GapSearchMode, SortMode,
    TereSettings,
};

fn key(s: &str) -> KeyId {
    parse_key(s).unwrap()
}

/// A key combination read by crokey, named as the keymap names it.
fn parse_key(s: &str) -> Result<KeyId, crokey::ParseKeyError> {
    let first: crokey::crossterm::event::KeyEvent = crokey::parse(s)?.into();
    let k = crokey::KeyCombination::from(first);
    Ok(KeyId {
        name: crokey::KeyCombinationFormat::default().to_string(k),
        has_modifiers: !k.modifiers.is_empty(),
    })
}

/// The options as the argument parser gives them when none is given.
fn no_args() -> CliArgs {
    CliArgs::default()
}

fn maps(v: &[&str]) -> CliArgs {
    CliArgs { map: v.iter().map(|s| s.to_string()).collect(), ..CliArgs::default() }
}

fn parse_cli(args: CliArgs) -> (TereSettings, DeprecationWarnings) {
    TereSettings::parse_cli_args(&args).unwrap()
}

fn parse_cli_no_warnings(args: CliArgs) -> TereSettings {
    let (settings, warnings) = parse_cli(args);
    assert!(warnings.is_empty());
    settings
}

#[test]
fn check_default_keymap_keys_unique() {
    let entries = default_keymap_entries();
    for (i, (k, c, _)) in entries.iter().enumerate() {
        let count = entries.iter().filter(|(k2, c2, _)| key(k2) == key(k) && c2 == c).count();
        assert_eq!(count, 1, "found {} entries for key {:?} in context {:?}", count, k, c);
        let _ = i;
    }
}

#[test]
fn check_all_actions_have_default_keymap() {
    let actions_in_default_keymap: Vec<Action> = default_keymap_entries().iter().map(|(_, _, a)| *a).collect();
    for a in Action::all() {
        if a != Action::Unbind {
            assert!(actions_in_default_keymap.contains(&a), "Action {:?} not found in default keymap", a)
        }
    }
}

#[test]
fn test_parse_keymap_arg1() {
    let m = parse_keymap_arg("ctrl-x:Exit").unwrap();
    assert_eq!(m.len(), 1);
    let (e, c, a) = &m[0];
    assert_eq!(e, &key("ctrl-x"));
    assert_eq!(c, &ActionContext::NoContext);
    assert_eq!(a, &Action::Exit);
}

#[test]
fn test_parse_keymap_arg2() {
    let m = parse_keymap_arg("ctrl-x:Exit,ctrl-j:NotSearching:CursorUp").unwrap();
    assert_eq!(m.len(), 2);
    assert_eq!(m[0].0, key("ctrl-x"));
    assert_eq!(m[0].1, ActionContext::NoContext);
    assert_eq!(m[0].2, Action::Exit);
    assert_eq!(m[1].0, key("ctrl-j"));
    assert_eq!(m[1].1, ActionContext::NotSearching);
    assert_eq!(m[1].2, Action::CursorUp);
}

#[test]
fn test_keyboard_mapping_cli_option1() {
    let settings = parse_cli_no_warnings(maps(&["ctrl-x:Exit"]));
    assert_eq!(settings.keymap.get(&key("ctrl-x"), ActionContext::NoContext), Some(Action::Exit));
}

#[test]
fn test_keyboard_mapping_cli_option2() {
    let settings = parse_cli_no_warnings(maps(&["ctrl-x:Exit,ctrl-y:ClearSearch"]));
    assert_eq!(settings.keymap.get(&key("ctrl-x"), ActionContext::NoContext), Some(Action::Exit));
    assert_eq!(settings.keymap.get(&key("ctrl-y"), ActionContext::NoContext), Some(Action::ClearSearch));
}

#[test]
fn test_keyboard_mapping_cli_option3() {
    // repeated mapping
    let settings = parse_cli_no_warnings(maps(&["ctrl-x:Exit,ctrl-x:ClearSearch"]));
    assert_eq!(settings.keymap.get(&key("ctrl-x"), ActionContext::NoContext), Some(Action::ClearSearch));
}

#[test]
fn test_keyboard_mapping_cli_option4() {
    // the option given several times
    let settings = parse_cli_no_warnings(maps(&["ctrl-x:Exit", "ctrl-x:ClearSearch"]));
    assert_eq!(settings.keymap.get(&key("ctrl-x"), ActionContext::NoContext), Some(Action::ClearSearch));
}

#[test]
fn test_keyboard_mapping_cli_option_wrong1() {
    // incorrect action
    assert!(TereSettings::parse_cli_args(&maps(&["ctrl-x:Exxit"])).is_err());
}

#[test]
fn test_keyboard_mapping_cli_option_wrong2() {
    // incorrect mapping
    assert!(TereSettings::parse_cli_args(&maps(&["ctrl-:Exit"])).is_err());
}

#[test]
fn test_keyboard_mapping_cli_option_wrong3() {
    // incorrect context
    assert!(TereSettings::parse_cli_args(&maps(&["ctrl-x:Wrong:Exit"])).is_err());
}

#[test]
fn test_keyboard_mapping_cli_option_wrong4() {
    // incorrect syntax
    assert!(TereSettings::parse_cli_args(&maps(&["ctrl-x::Exit"])).is_err());
}

#[test]
fn test_keyboard_mapping_cli_option_wrong5() {
    // missing mapping and/or context
    assert!(TereSettings::parse_cli_args(&maps(&["ctrl-x"])).is_err());
}

#[test]
fn test_keyboard_mapping_cli_option_wrong6() {
    // missing mapping and/or context
    assert!(TereSettings::parse_cli_args(&maps(&["ctrl-x:"])).is_err());
}

#[test]
fn test_unmap1() {
    let settings = parse_cli_no_warnings(no_args());
    assert_eq!(settings.keymap.get(&key("alt-h"), ActionContext::NoContext), Some(Action::ChangeDirParent));
    assert_eq!(settings.keymap.get(&key("alt-j"), ActionContext::NoContext), Some(Action::CursorDown));
    assert_eq!(settings.keymap.get(&key("alt-k"), ActionContext::NoContext), Some(Action::CursorUp));
    assert_eq!(settings.keymap.get(&key("alt-l"), ActionContext::NoContext), Some(Action::ChangeDir));

    let settings = parse_cli_no_warnings(maps(&["alt-h:None,alt-j:None,alt-k:None,alt-l:None"]));
    assert_eq!(settings.keymap.get(&key("alt-h"), ActionContext::NoContext), None);
    assert_eq!(settings.keymap.get(&key("alt-j"), ActionContext::NoContext), None);
    assert_eq!(settings.keymap.get(&key("alt-k"), ActionContext::NoContext), None);
    assert_eq!(settings.keymap.get(&key("alt-l"), ActionContext::NoContext), None);
}

#[test]
fn test_unmap2() {
    let settings = parse_cli_no_warnings(no_args());
    assert_eq!(settings.keymap.get(&key("esc"), ActionContext::NotSearching), Some(Action::Exit));
    assert_eq!(settings.keymap.get(&key("esc"), ActionContext::Searching), Some(Action::ClearSearch));
    assert_eq!(settings.keymap.get(&key("esc"), ActionContext::NoContext), None);

    assert_eq!(settings.keymap.get(&key("backspace"), ActionContext::Searching), Some(Action::EraseSearchChar));
    assert_eq!(settings.keymap.get(&key("backspace"), ActionContext::NotSearching), Some(Action::ChangeDirParent));
    assert_eq!(settings.keymap.get(&key("backspace"), ActionContext::NoContext), None);

    let settings = parse_cli_no_warnings(maps(&[
        "esc:Searching:None",
        "backspace:None", // this shouldn't affect any of the mappings since they are context-dependent
        "backspace:None:None", // this shouldn't affect any of the mappings since they are context-dependent
    ]));
    assert_eq!(settings.keymap.get(&key("esc"), ActionContext::NotSearching), Some(Action::Exit));
    assert_eq!(settings.keymap.get(&key("esc"), ActionContext::Searching), None);
    assert_eq!(settings.keymap.get(&key("esc"), ActionContext::NoContext), None);
}

#[test]
fn test_clear_default_keymap() {
    let settings = parse_cli_no_warnings(CliArgs { clear_default_keymap: true, ..maps(&["ctrl-x:Exit"]) });
    assert!(settings.keymap.len() == 1);
}

#[test]
fn test_empty_keymap_is_error() {
    let args = CliArgs { clear_default_keymap: true, ..no_args() };
    assert!(TereSettings::parse_cli_args(&args).is_err());
}

#[test]
fn test_unmap_exit_is_error() {
    assert!(TereSettings::parse_cli_args(&maps(&["esc:NotSearching:None,alt-q:None"])).is_err());
}

#[test]
fn test_filter_search_override() {
    let settings = parse_cli_no_warnings(no_args());
    assert!(!settings.filter_search);

    // "--filter-search --no-filter-search": the last one wins
    let settings = parse_cli_no_warnings(CliArgs { filter_search: false, ..no_args() });
    assert!(!settings.filter_search);

    // "--filter-search --no-filter-search --filter-search"
    let settings = parse_cli_no_warnings(CliArgs { filter_search: true, ..no_args() });
    assert!(settings.filter_search);
}

fn files(v: &str) -> CliArgs {
    CliArgs { files: v.to_string(), ..no_args() }
}

#[test]
fn test_files_parse() {
    let settings = parse_cli_no_warnings(no_args());
    assert_eq!(settings.file_handling_mode, FileHandlingMode::Ignore);

    for v in ["ignore", "i"] {
        let settings = parse_cli_no_warnings(files(v));
        assert_eq!(settings.file_handling_mode, FileHandlingMode::Ignore);
    }
    for v in ["hide", "h"] {
        let settings = parse_cli_no_warnings(files(v));
        assert_eq!(settings.file_handling_mode, FileHandlingMode::Hide);
    }
    for v in ["match", "m"] {
        let settings = parse_cli_no_warnings(files(v));
        assert_eq!(settings.file_handling_mode, FileHandlingMode::Match);
    }
}

#[test]
fn test_files_override() {
    // "--files hide --files ignore": the last value is given
    let settings = parse_cli_no_warnings(files("ignore"));
    assert_eq!(settings.file_handling_mode, FileHandlingMode::Ignore);

    let settings = parse_cli_no_warnings(files("h"));
    assert_eq!(settings.file_handling_mode, FileHandlingMode::Hide);
}

#[test]
fn test_folders_only_deprecated() {
    let (settings, warnings) = parse_cli(CliArgs { folders_only: true, ..no_args() });
    assert_eq!(warnings.len(), 1);
    assert!(warnings[0].contains("'--folders-only' / '-d' has been deprecated, please use '--files hide' instead"));
    assert_eq!(settings.file_handling_mode, FileHandlingMode::Hide);

    let (settings, warnings) = parse_cli(CliArgs { no_folders_only: true, ..no_args() });
    assert_eq!(warnings.len(), 1);
    assert!(warnings[0].contains("'--no-folders-only' / '-D' has been deprecated, please use '--files ignore' or '--files match' instead"));
    assert_eq!(settings.file_handling_mode, FileHandlingMode::Ignore);
}

#[test]
fn test_case_sensitive_mode_override() {
    let settings = parse_cli_no_warnings(no_args());
    assert_eq!(settings.case_sensitive, CaseSensitiveMode::SmartCase);

    // "--case-sensitive --ignore-case": the parser keeps the last of them
    let settings = parse_cli_no_warnings(CliArgs { ignore_case: true, ..no_args() });
    assert_eq!(settings.case_sensitive, CaseSensitiveMode::IgnoreCase);

    let settings = parse_cli_no_warnings(CliArgs { case_sensitive: true, ..no_args() });
    assert_eq!(settings.case_sensitive, CaseSensitiveMode::CaseSensitive);

    let settings = parse_cli_no_warnings(CliArgs { smart_case: true, ..no_args() });
    assert_eq!(settings.case_sensitive, CaseSensitiveMode::SmartCase);
}

#[test]
fn test_gap_search_mode_override() {
    let settings = parse_cli_no_warnings(no_args());
    assert_eq!(settings.gap_search_mode, GapSearchMode::GapSearchFromStart);

    let settings = parse_cli_no_warnings(CliArgs { gap_search_anywhere: true, ..no_args() });
    assert_eq!(settings.gap_search_mode, GapSearchMode::GapSearchAnywhere);

    let settings = parse_cli_no_warnings(CliArgs { normal_search_anywhere: true, ..no_args() });
    assert_eq!(settings.gap_search_mode, GapSearchMode::NormalSearchAnywhere);

    let settings = parse_cli_no_warnings(CliArgs { gap_search: true, ..no_args() });
    assert_eq!(settings.gap_search_mode, GapSearchMode::GapSearchFromStart);
}

#[test]
fn test_no_gap_search_deprecated() {
    let (settings, warnings) = parse_cli(CliArgs { no_gap_search: true, ..no_args() });
    assert_eq!(warnings.len(), 1);
    assert!(warnings[0].contains("'--no-gap-search' has been renamed"));
    assert!(settings.gap_search_mode == GapSearchMode::NormalSearch);
}

#[test]
fn test_sort_mode_override() {
    let settings = parse_cli_no_warnings(no_args());
    assert_eq!(settings.sort_mode, SortMode::Name);

    let settings = parse_cli_no_warnings(CliArgs { sort: Some(SortMode::Created), ..no_args() });
    assert_eq!(settings.sort_mode, SortMode::Created);

    let settings = parse_cli_no_warnings(CliArgs { sort: Some(SortMode::Modified), ..no_args() });
    assert_eq!(settings.sort_mode, SortMode::Modified);
}

#[test]
fn test_mouse_override() {
    let settings = parse_cli_no_warnings(no_args());
    assert!(!settings.mouse_enabled);

    let settings = parse_cli_no_warnings(CliArgs { mouse: "on".to_string(), ..no_args() });
    assert!(settings.mouse_enabled);

    let settings = parse_cli_no_warnings(CliArgs { mouse: "off".to_string(), ..no_args() });
    assert!(!settings.mouse_enabled);
}

#[test]
fn test_skip_first_run_prompt() {
    let settings = parse_cli_no_warnings(no_args());
    assert!(!settings.skip_first_run_prompt);

    let settings = parse_cli_no_warnings(CliArgs { skip_first_run_prompt: true, ..no_args() });
    assert!(settings.skip_first_run_prompt);
}

#[test]
fn autocd_timeout_values() {
    let settings = parse_cli_no_warnings(no_args());
    assert_eq!(settings.autocd_timeout, Some(200));
    let settings = parse_cli_no_warnings(CliArgs { autocd_timeout: vec!["5".to_string(), "off".to_string()], ..no_args() });
    assert_eq!(settings.autocd_timeout, None);
    let settings = parse_cli_no_warnings(CliArgs { autocd_timeout: vec!["+42".to_string()], ..no_args() });
    assert_eq!(settings.autocd_timeout, Some(42));
    match TereSettings::parse_cli_args(&CliArgs { autocd_timeout: vec!["soon".to_string()], ..no_args() }) {
        Err(TereError::InvalidValue(msg)) => assert_eq!(msg, "Invalid value for 'autocd-timeout': 'soon'\n"),
        _ => panic!("expected an invalid value"),
    }
    assert!(TereSettings::parse_cli_args(&CliArgs { autocd_timeout: vec!["18446744073709551616".to_string()], ..no_args() }).is_err());
}

#[test]
fn history_file_values() {
    let settings = parse_cli_no_warnings(no_args());
    assert_eq!(settings.history_file, None);
    let settings = parse_cli_no_warnings(CliArgs { cache_dir: Some("/home/u/.cache".to_string()), ..no_args() });
    assert_eq!(settings.history_file, Some("/home/u/.cache/tere/history.json".to_string()));
    let settings = parse_cli_no_warnings(CliArgs { history_file: Some(String::new()), cache_dir: Some("/c".to_string()), ..no_args() });
    assert_eq!(settings.history_file, None);
    let settings = parse_cli_no_warnings(CliArgs { history_file: Some("/h.json".to_string()), ..no_args() });
    assert_eq!(settings.history_file, Some("/h.json".to_string()));
}

#[test]
fn keymap_errors_are_described() {
    match TereSettings::parse_cli_args(&maps(&["ctrl-x:Wrong:Exit"])) {
        Err(TereError::InvalidValue(msg)) => {
            assert_eq!(msg, "Error parsing key mapping 'ctrl-x:Wrong:Exit': invalid context 'Wrong'\n")
        }
        _ => panic!("expected an invalid value"),
    }
    match TereSettings::parse_cli_args(&CliArgs { clear_default_keymap: true, ..no_args() }) {
        Err(TereError::InvalidValue(msg)) => assert_eq!(msg, "No keyboard mapping found for exit!\n"),
        _ => panic!("expected an invalid value"),
    }
    match TereSettings::parse_cli_args(&maps(&["a:Exit,"])) {
        Err(TereError::InvalidValue(msg)) => assert_eq!(msg, "Invalid mapping: 'a:Exit,'\n"),
        _ => panic!("expected an invalid value"),
    }
}

#[test]
fn default_modes_and_texts() {
    assert_eq!(FileHandlingMode::Ignore.no_matches_message(), "No folders matching search");
    assert_eq!(FileHandlingMode::Hide.no_matches_message(), "No matches");
    assert_eq!(FileHandlingMode::Match.no_matches_message(), "No matches");
    assert_eq!(FileHandlingMode::default(), FileHandlingMode::Ignore);
    assert_eq!(CaseSensitiveMode::default(), CaseSensitiveMode::SmartCase);
    assert_eq!(GapSearchMode::default(), GapSearchMode::GapSearchFromStart);
    assert_eq!(SortMode::default(), SortMode::Name);
    assert_eq!(SortMode::Created.display_text(), "cre");
    assert_eq!(GapSearchMode::NormalSearchAnywhere.display_text(), "normal search anywhere");
    assert_eq!(CaseSensitiveMode::IgnoreCase.display_text(), "ignore case");
}

#[test]
fn multi_key_mapping_is_keyed_by_its_first_key() {
    let m = parse_keymap_arg("ctrl-a-b:Exit").unwrap();
    assert_eq!(m.len(), 1);
    assert_eq!(m[0].0, key("ctrl-a"));
}
