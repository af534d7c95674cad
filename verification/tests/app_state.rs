use std::io::{Error as IoError, ErrorKind};

use tere::app_state::{CdResult, CdSearch, CdStep, ReadDirOutcome, TereAppState};
use tere::listing::CustomDirEntry;
use tere::settings::{CaseSensitiveMode, FileHandlingMode, GapSearchMode, SortMode, TereSettings};

const TMP: &str = "/tmp/tere_test";

/// A file system made of folders (absolute paths) and files.
struct FakeFs {
    dirs: Vec<String>,
    files: Vec<String>,
    denied: Vec<String>,
}

impl FakeFs {
    fn new(folder_names: &[&str], file_names: &[&str]) -> FakeFs {
        let mut dirs = vec!["/".to_string(), "/tmp".to_string(), TMP.to_string()];
        dirs.extend(folder_names.iter().map(|n| format!("{TMP}/{n}")));
        let files = file_names.iter().map(|n| format!("{TMP}/{n}")).collect();
        FakeFs { dirs, files, denied: vec![] }
    }

    fn read(&self, path: &str) -> ReadDirOutcome {
        let read = if self.denied.iter().any(|d| d == path) {
            Err(IoError::new(ErrorKind::PermissionDenied, "permission denied"))
        } else if self.dirs.iter().any(|d| d == path) {
            Ok(())
        } else {
            Err(IoError::new(ErrorKind::NotFound, "not found"))
        };
        ReadDirOutcome::of_read(read)
    }

    fn children(&self, path: &str) -> Vec<CustomDirEntry> {
        let prefix = if path == "/" { "/".to_string() } else { format!("{path}/") };
        let mut out = vec![];
        for (list, is_dir) in [(&self.dirs, true), (&self.files, false)] {
            for p in list.iter() {
                if let Some(rest) = p.strip_prefix(&prefix) {
                    if !rest.is_empty() && !rest.contains('/') {
                        out.push(entry(rest, p, is_dir));
                    }
                }
            }
        }
        out
    }

    fn remove_tree(&mut self, path: &str) {
        self.dirs.retain(|d| d != path && !d.starts_with(&format!("{path}/")));
    }
}

fn entry(name: &str, path: &str, is_dir: bool) -> CustomDirEntry {
    CustomDirEntry {
        path: path.to_string(),
        file_name: name.to_string(),
        is_folder: is_dir,
        created_ns: 0,
        modified_ns: 0,
        symlink_target: None,
    }
}

fn parent() -> CustomDirEntry {
    CustomDirEntry::custom("..", 0, 0)
}

/// Finds the folder to change to, as the application does with the real
/// file system.
fn find_valid_cd_target(s: &TereAppState, fs: &FakeFs, path: &str) -> Result<(String, CdResult), IoError> {
    let mut search = CdSearch::new(s, path);
    loop {
        let dir = search.next_dir();
        match search.step(fs.read(&dir)) {
            CdStep::Found(p, r) => return Ok((p, r)),
            CdStep::Retry(next) => search = next,
            CdStep::Failed(e) => return Err(e),
        }
    }
}

fn change_dir(s: &mut TereAppState, fs: &FakeFs, path: &str) -> Result<CdResult, IoError> {
    let (target, result) = find_valid_cd_target(s, fs, path)?;
    let listing = fs.children(&target);
    s.change_dir_to(target, listing, parent());
    Ok(result)
}

fn create_test_state_with_settings(
    settings: TereSettings,
    win_h: usize,
    file_names: Vec<&str>,
    folder_names: Vec<&str>,
) -> (TereAppState, FakeFs) {
    let fs = FakeFs::new(&folder_names, &file_names);
    let mut state = TereAppState::init(settings, &vec![], "/", None);
    state.update_main_window_dimensions(10, win_h);
    change_dir(&mut state, &fs, TMP).unwrap();
    (state, fs)
}

fn create_test_state_with_files_and_folders(win_h: usize, file_names: Vec<&str>, folder_names: Vec<&str>) -> (TereAppState, FakeFs) {
    create_test_state_with_settings(TereSettings::default(), win_h, file_names, folder_names)
}

fn create_test_state_with_folders(win_h: usize, folder_names: Vec<&str>) -> TereAppState {
    create_test_state_with_files_and_folders(win_h, vec![], folder_names).0
}

fn create_test_state_with_n_folders(win_h: usize, n_folders: usize) -> TereAppState {
    let fnames: Vec<_> = (1..=n_folders).map(|i| format!("folder {i}")).collect();
    create_test_state_with_folders(win_h, fnames.iter().map(|s| s.as_ref()).collect())
}

fn visible_names(s: &TereAppState) -> Vec<String> {
    s.visible_items().iter().map(|x| x.file_name_checked()).collect()
}

#[test]
fn test_scrolling_bufsize_less_than_window_size() {
    let mut state = create_test_state_with_n_folders(10, 4);

    for i in 2..=4 {
        state.move_cursor(1, false);
        assert_eq!(state.cursor_pos, i);
        assert_eq!(state.scroll_pos, 0);
    }

    for _ in 0..5 {
        state.move_cursor(1, false);
        assert_eq!(state.cursor_pos, 4);
        assert_eq!(state.scroll_pos, 0);
    }

    state.move_cursor(100, false);
    assert_eq!(state.cursor_pos, 4);
    assert_eq!(state.scroll_pos, 0);

    for i in 1..=4 {
        state.move_cursor(-1, false);
        assert_eq!(state.cursor_pos, 4 - i);
        assert_eq!(state.scroll_pos, 0);
    }

    assert_eq!(state.cursor_pos, 0);

    for _ in 0..5 {
        state.move_cursor(-1, false);
        assert_eq!(state.cursor_pos, 0);
        assert_eq!(state.scroll_pos, 0);
    }

    state.move_cursor(-100, false);
    assert_eq!(state.cursor_pos, 0);
    assert_eq!(state.scroll_pos, 0);

    state.move_cursor(100, false);
    assert_eq!(state.cursor_pos, 4);
    assert_eq!(state.scroll_pos, 0);
    state.move_cursor(-100, false);
    assert_eq!(state.cursor_pos, 0);
    assert_eq!(state.scroll_pos, 0);
}

#[test]
fn test_scrolling_bufsize_less_than_window_size_wrap() {
    let mut state = create_test_state_with_n_folders(5, 4);

    state.move_cursor_to(0);
    for i in 0..4 {
        state.move_cursor(1, true);
        assert_eq!(state.cursor_pos, i + 1);
        assert_eq!(state.scroll_pos, 0);
    }
    assert_eq!(state.cursor_pos, 4);
    assert_eq!(state.scroll_pos, 0);

    state.move_cursor(1, true);
    assert_eq!(state.cursor_pos, 0);
    assert_eq!(state.scroll_pos, 0);

    state.move_cursor(-1, true);
    assert_eq!(state.cursor_pos, 4);
    assert_eq!(state.scroll_pos, 0);
}

#[test]
fn test_scrolling_bufsize_equal_to_window_size() {
    let mut state = create_test_state_with_n_folders(5, 4);

    for i in 2..=4 {
        state.move_cursor(1, false);
        assert_eq!(state.cursor_pos, i);
        assert_eq!(state.scroll_pos, 0);
    }

    for _ in 0..5 {
        state.move_cursor(1, false);
        assert_eq!(state.cursor_pos, 4);
        assert_eq!(state.scroll_pos, 0);
    }

    for i in 1..=3 {
        state.move_cursor(-1, false);
        assert_eq!(state.cursor_pos, 4 - i);
        assert_eq!(state.scroll_pos, 0);
    }

    state.move_cursor(100, false);
    assert_eq!(state.cursor_pos, 4);
    assert_eq!(state.scroll_pos, 0);
    state.move_cursor(-100, false);
    assert_eq!(state.cursor_pos, 0);
    assert_eq!(state.scroll_pos, 0);
}

fn test_scrolling_bufsize_larger_than_window_size_helper(win_h: usize, n_files: usize) {
    let mut state = create_test_state_with_n_folders(win_h, n_files);
    let max_cursor = win_h - 1;
    let max_scroll = n_files + 1 - win_h;

    state.move_cursor_to(0);

    for i in 1..=max_cursor {
        state.move_cursor(1, false);
        assert_eq!(state.cursor_pos, i);
        assert_eq!(state.scroll_pos, 0);
    }

    for i in 1..=max_scroll {
        state.move_cursor(1, false);
        assert_eq!(state.cursor_pos, max_cursor);
        assert_eq!(state.scroll_pos, i);
    }

    assert_eq!(state.scroll_pos, max_scroll);

    for _ in 0..5 {
        state.move_cursor(1, false);
        assert_eq!(state.cursor_pos, max_cursor);
        assert_eq!(state.scroll_pos, max_scroll);
    }
    state.move_cursor(win_h as isize + 100, false);
    assert_eq!(state.cursor_pos, max_cursor);
    assert_eq!(state.scroll_pos, max_scroll);

    for i in 1..=max_cursor {
        state.move_cursor(-1, false);
        assert_eq!(state.cursor_pos, max_cursor - i);
        assert_eq!(state.scroll_pos, max_scroll);
    }
    assert_eq!(state.cursor_pos, 0);
    assert_eq!(state.scroll_pos, max_scroll);

    for i in 1..=max_scroll {
        state.move_cursor(-1, false);
        assert_eq!(state.cursor_pos, 0);
        assert_eq!(state.scroll_pos, max_scroll - i);
    }

    assert_eq!(state.cursor_pos, 0);
    assert_eq!(state.scroll_pos, 0);
    for _ in 0..5 {
        state.move_cursor(-1, false);
        assert_eq!(state.cursor_pos, 0);
        assert_eq!(state.scroll_pos, 0);
    }
    state.move_cursor(-100, false);
    assert_eq!(state.cursor_pos, 0);
    assert_eq!(state.scroll_pos, 0);

    state.move_cursor(win_h as isize + 100, false);
    assert_eq!(state.cursor_pos, max_cursor);
    assert_eq!(state.scroll_pos, max_scroll);
    state.move_cursor(-100 - win_h as isize, false);
    assert_eq!(state.cursor_pos, 0);
    assert_eq!(state.scroll_pos, 0);
}

#[test]
fn test_scrolling_bufsize_larger_than_window_size1() {
    test_scrolling_bufsize_larger_than_window_size_helper(4, 5);
}

#[test]
fn test_scrolling_bufsize_larger_than_window_size2() {
    test_scrolling_bufsize_larger_than_window_size_helper(4, 6);
}

#[test]
fn test_scrolling_bufsize_larger_than_window_size3() {
    test_scrolling_bufsize_larger_than_window_size_helper(4, 7);
}

#[test]
fn test_scrolling_bufsize_larger_than_window_size4() {
    test_scrolling_bufsize_larger_than_window_size_helper(4, 8);
}

#[test]
fn test_scrolling_bufsize_larger_than_window_size5() {
    test_scrolling_bufsize_larger_than_window_size_helper(4, 10);
}

#[test]
fn test_scrolling_bufsize_larger_than_window_size_wrap() {
    let mut state = create_test_state_with_n_folders(4, 5);

    state.move_cursor_to(6);
    assert_eq!(state.cursor_pos, 3);
    assert_eq!(state.scroll_pos, 2);

    state.move_cursor(1, true);
    assert_eq!(state.cursor_pos, 0);
    assert_eq!(state.scroll_pos, 0);

    state.move_cursor(-1, true);
    assert_eq!(state.cursor_pos, 3);
    assert_eq!(state.scroll_pos, 2);
}

#[test]
fn test_basic_advance_search() {
    let mut s = create_test_state_with_folders(5, vec!["bar", "baz", "foo", "frob"]);
    s.move_cursor_to(2);
    assert_eq!(s.cursor_pos, 2);
    assert_eq!(s.scroll_pos, 0);

    s.advance_search("f");
    assert_eq!(s.cursor_pos, 3);
    s.move_cursor_to_adjacent_match(1);
    assert_eq!(s.cursor_pos, 4);
    s.move_cursor_to_adjacent_match(1);
    assert_eq!(s.cursor_pos, 3);
}

#[test]
fn test_advance_search_wrap() {
    let mut s = create_test_state_with_folders(3, vec!["bar", "baz", "foo", "frob"]);
    s.move_cursor_to(4);
    assert_eq!(s.cursor_pos, 2);
    assert_eq!(s.scroll_pos, 2);

    s.advance_search("b");
    assert_eq!(s.cursor_pos, 0);
    assert_eq!(s.scroll_pos, 1);

    s.move_cursor_to_adjacent_match(1);
    assert_eq!(s.cursor_pos, 1);
    s.move_cursor_to_adjacent_match(1);
    assert_eq!(s.cursor_pos, 0);
}

#[test]
fn test_advance_and_erase_search_with_cursor_on_match() {
    let mut s = create_test_state_with_folders(6, vec!["bar", "baz", "foo", "frob"]);
    s.move_cursor_to(3);
    assert_eq!(s.cursor_pos, 3);
    assert_eq!(s.scroll_pos, 0);

    s.advance_search("f");
    assert_eq!(s.cursor_pos, 3);
    assert_eq!(s.scroll_pos, 0);

    s.move_cursor_to_adjacent_match(1);
    assert_eq!(s.cursor_pos, 4);
    s.move_cursor_to_adjacent_match(1);
    assert_eq!(s.cursor_pos, 3);
    s.move_cursor_to_adjacent_match(1);
    assert_eq!(s.cursor_pos, 4);

    s.erase_search_char();
    assert_eq!(s.cursor_pos, 4);
}

#[test]
fn test_advance_and_erase_with_filter_search() {
    let mut s = create_test_state_with_folders(6, vec!["bar", "baz", "foo", "frob"]);
    s.set_filter_search(true);
    assert_eq!(s.cursor_pos, 1);
    assert_eq!(s.scroll_pos, 0);

    s.advance_search("f");
    assert_eq!(s.cursor_pos, 0);
    assert_eq!(s.scroll_pos, 0);
    assert_eq!(s.visible_items().len(), 2);

    s.move_cursor_to_adjacent_match(1);
    assert_eq!(s.cursor_pos, 1);
    assert_eq!(s.scroll_pos, 0);
    s.move_cursor_to_adjacent_match(1);
    assert_eq!(s.cursor_pos, 0);
    assert_eq!(s.scroll_pos, 0);

    s.erase_search_char();
    assert_eq!(s.cursor_pos, 3);
}

#[test]
fn test_advance_and_clear_with_filter_search() {
    let mut s = create_test_state_with_folders(6, vec!["bar", "baz", "foo", "forb"]);
    s.set_filter_search(true);
    assert_eq!(s.cursor_pos, 1);
    assert_eq!(s.scroll_pos, 0);

    s.advance_search("f");
    s.advance_search("o");
    assert_eq!(s.cursor_pos, 0);
    assert_eq!(s.scroll_pos, 0);
    assert_eq!(visible_names(&s), vec!["foo", "forb"]);

    s.move_cursor_to_adjacent_match(1);
    assert_eq!(s.cursor_pos, 1);
    assert_eq!(s.scroll_pos, 0);
    s.move_cursor_to_adjacent_match(1);
    assert_eq!(s.cursor_pos, 0);
    assert_eq!(s.scroll_pos, 0);

    s.clear_search();
    assert_eq!(s.cursor_pos, 3);
    assert_eq!(s.visible_items().len(), s.ls_output_buf.all_items().len());
}

#[test]
fn test_advance_search_with_filter_search_and_scrolling() {
    let mut s = create_test_state_with_folders(3, vec!["foo", "frob", "bar", "baz"]);
    s.set_filter_search(true);
    s.move_cursor_to(3);
    assert_eq!(s.cursor_pos, 2);
    assert_eq!(s.scroll_pos, 1);

    s.advance_search("f");
    assert_eq!(s.cursor_pos, 0);
    assert_eq!(s.scroll_pos, 0);
    assert_eq!(s.visible_items().len(), 2);

    s.move_cursor_to_adjacent_match(1);
    assert_eq!(s.cursor_pos, 1);
    s.move_cursor_to_adjacent_match(1);
    assert_eq!(s.cursor_pos, 0);
}

#[test]
fn test_advance_and_erase_search_with_filter_and_cursor_on_match() {
    let mut s = create_test_state_with_folders(6, vec!["bar", "baz", "foo", "frob"]);
    s.set_filter_search(true);
    s.move_cursor_to(2);
    assert_eq!(s.cursor_pos, 2);
    assert_eq!(s.scroll_pos, 0);

    s.advance_search("b");
    assert_eq!(visible_names(&s), vec!["bar", "baz"]);
    assert_eq!(s.cursor_pos, 1);
    assert_eq!(s.scroll_pos, 0);

    s.move_cursor_to_adjacent_match(1);
    assert_eq!(s.cursor_pos, 0);
    s.move_cursor_to_adjacent_match(1);
    assert_eq!(s.cursor_pos, 1);

    s.erase_search_char();
    assert_eq!(s.cursor_pos, 2);
    assert_eq!(visible_names(&s), vec!["..", "bar", "baz", "foo", "frob"]);
}

#[test]
fn test_advance_and_erase_search_with_filter_and_cursor_on_match2() {
    let mut s = create_test_state_with_folders(6, vec!["bar", "baz", "foo", "frob"]);
    s.set_filter_search(true);
    s.move_cursor_to(4);
    assert_eq!(s.cursor_pos, 4);
    assert_eq!(s.scroll_pos, 0);

    s.advance_search("f");
    assert_eq!(s.cursor_pos, 1);
    assert_eq!(s.scroll_pos, 0);

    s.move_cursor_to_adjacent_match(1);
    assert_eq!(s.cursor_pos, 0);
    s.move_cursor_to_adjacent_match(1);
    assert_eq!(s.cursor_pos, 1);

    s.erase_search_char();
    assert_eq!(s.cursor_pos, 4);
}

#[test]
fn test_advance_and_erase_search_with_filter_and_scrolling() {
    let mut s = create_test_state_with_folders(2, vec!["bar", "baz", "foo", "frob"]);
    s.set_filter_search(true);
    assert_eq!(s.cursor_pos, 1);
    assert_eq!(s.scroll_pos, 0);

    s.advance_search("f");
    assert_eq!(s.cursor_pos, 0);
    assert_eq!(s.scroll_pos, 0);

    s.move_cursor_to_adjacent_match(1);
    assert_eq!(s.cursor_pos, 1);
    s.move_cursor_to_adjacent_match(1);
    assert_eq!(s.cursor_pos, 0);

    s.erase_search_char();
    assert_eq!(s.cursor_pos, 1);
    assert_eq!(s.scroll_pos, 2);
}

#[test]
fn test_advance_search_with_filter_search_and_scrolling2() {
    let mut s = create_test_state_with_folders(3, vec!["bar", "baz", "foo", "frob"]);
    s.set_filter_search(true);
    s.move_cursor_to(4);
    assert_eq!(s.cursor_pos, 2);
    assert_eq!(s.scroll_pos, 2);

    s.advance_search("f");
    assert_eq!(s.cursor_pos, 1);
    assert_eq!(s.scroll_pos, 0);
}

#[test]
fn test_search_default_file_handling_mode() {
    // by default, only folders are searched
    let (mut s, _) = create_test_state_with_files_and_folders(3, vec!["foo"], vec!["frob"]);
    s.advance_search("f");
    assert_eq!(s.visible_match_indices(), vec![1]);
}

#[test]
fn test_search_file_handling_mode_match() {
    // match both files and folders
    let settings = TereSettings { file_handling_mode: FileHandlingMode::Match, ..TereSettings::default() };
    let (mut s, _) = create_test_state_with_settings(settings, 3, vec!["foo"], vec!["frob"]);
    s.advance_search("f");
    assert_eq!(s.visible_match_indices(), vec![1, 2]);
}

#[test]
fn test_search_file_handling_mode_hide() {
    // match only folders, and hide files
    let settings = TereSettings { file_handling_mode: FileHandlingMode::Hide, ..TereSettings::default() };
    let (s, _) = create_test_state_with_settings(settings, 3, vec!["foo"], vec!["frob"]);
    assert_eq!(visible_names(&s), vec!["..", "frob"]);
}

#[test]
fn test_filter_search_toggle() {
    let mut s = create_test_state_with_folders(10, vec!["aaa", "aab", "bbb"]);
    s.set_filter_search(false);
    s.cursor_pos = 1;
    assert_eq!(s.cursor_pos, 1);

    s.advance_search("a");
    s.move_cursor_to_adjacent_match(1);

    assert_eq!(s.scroll_pos, 0);
    assert_eq!(s.cursor_pos, 2);
    assert_eq!(visible_names(&s), vec!["..", "aaa", "aab", "bbb"]);

    s.set_filter_search(true);

    assert_eq!(s.scroll_pos, 0);
    assert_eq!(s.cursor_pos, 1);
    assert_eq!(visible_names(&s), vec!["aaa", "aab"]);
}

#[test]
fn test_case_sensitive_mode_change() {
    let mut s = create_test_state_with_folders(10, vec!["A", "a"]);
    s.cursor_pos = 1;
    s.advance_search("a");
    assert_eq!(s.visible_match_indices(), vec![1, 2]);
    assert_eq!(s.cursor_pos, 1);

    s.set_case_sensitive(CaseSensitiveMode::CaseSensitive);
    assert_eq!(s.visible_match_indices(), vec![2]);
    assert_eq!(s.cursor_pos, 2);
}

#[test]
fn test_gap_search_mode_change() {
    let mut s = create_test_state_with_folders(10, vec!["aaa", "aab", "aba"]);
    s.cursor_pos = 1;
    s.advance_search("a");
    s.advance_search("b");
    assert_eq!(s.visible_match_indices(), vec![2, 3]);
    assert_eq!(s.cursor_pos, 2);

    s.set_gap_search_mode(GapSearchMode::NormalSearch);
    assert_eq!(s.visible_match_indices(), vec![3]);
    assert_eq!(s.cursor_pos, 3);
}

#[test]
fn test_cd_basic() {
    let (mut s, fs) = create_test_state_with_files_and_folders(10, vec![], vec!["foo"]);
    assert_eq!(s.current_path, TMP);
    assert!(change_dir(&mut s, &fs, "foo").is_ok());
    assert_eq!(s.current_path, format!("{TMP}/foo"));
}

#[test]
fn test_cd_parent() {
    let (mut s, fs) = create_test_state_with_files_and_folders(10, vec![], vec!["foo"]);
    assert_eq!(s.current_path, TMP);
    assert!(change_dir(&mut s, &fs, "..").is_ok());
    assert_eq!(s.current_path, "/tmp");
}

#[test]
fn test_cd_item_under_cursor() {
    let (mut s, fs) = create_test_state_with_files_and_folders(10, vec![], vec!["bar", "foo"]);
    assert_eq!(s.cursor_pos, 1);
    assert_eq!(s.current_path, TMP);
    assert!(change_dir(&mut s, &fs, "").is_ok());
    assert_eq!(s.current_path, format!("{TMP}/bar"));
    assert!(change_dir(&mut s, &fs, "..").is_ok());
    s.move_cursor(1, false);
    assert_eq!(s.cursor_pos, 2);
    assert!(change_dir(&mut s, &fs, "").is_ok());
    assert_eq!(s.current_path, format!("{TMP}/foo"));
}

#[test]
fn test_cd_nonexistent() {
    let (mut s, fs) = create_test_state_with_files_and_folders(10, vec![], vec!["foo"]);
    assert_eq!(s.current_path, TMP);
    let res = change_dir(&mut s, &fs, "bar");
    match res {
        Ok(CdResult::MovedUpwards { target_abs_path: p, root_error: e }) => {
            assert_eq!(p, format!("{TMP}/bar"));
            assert_eq!(e.kind(), ErrorKind::NotFound);
        }
        something_else => panic!("{:?}", something_else),
    }
    assert_eq!(s.current_path, TMP);
}

#[test]
fn test_cd_root() {
    let (mut s, fs) = create_test_state_with_files_and_folders(10, vec![], vec!["foo"]);
    assert_eq!(s.current_path, TMP);
    assert!(change_dir(&mut s, &fs, "/").is_ok());
    assert_eq!(s.current_path, "/");
}

#[test]
fn test_find_valid_cd_target() {
    let (s, fs) = create_test_state_with_files_and_folders(10, vec![], vec!["foo"]);

    // valid target
    let (path, res) = find_valid_cd_target(&s, &fs, "foo").unwrap();
    assert_eq!(path, format!("{TMP}/foo"));
    match res {
        CdResult::Success => {}
        something_else => panic!("{:?}", something_else),
    }

    // target not found
    let (path, res) = find_valid_cd_target(&s, &fs, "invalid").unwrap();
    assert_eq!(path, TMP);
    match res {
        CdResult::MovedUpwards { target_abs_path: p, root_error: e } => {
            assert_eq!(p, format!("{TMP}/invalid"));
            assert_eq!(e.kind(), ErrorKind::NotFound);
        }
        something_else => panic!("{:?}", something_else),
    }

    // root
    let (path, res) = find_valid_cd_target(&s, &fs, "/").unwrap();
    assert_eq!(path, "/");
    match res {
        CdResult::Success => {}
        something_else => panic!("{:?}", something_else),
    }

    // valid target is root
    let (path, res) = find_valid_cd_target(&s, &fs, "/foo/bar").unwrap();
    assert_eq!(path, "/");
    match res {
        CdResult::MovedUpwards { target_abs_path: p, root_error: e } => {
            assert_eq!(p, "/foo/bar");
            assert_eq!(e.kind(), ErrorKind::NotFound);
        }
        something_else => panic!("{:?}", something_else),
    }
}

#[test]
fn test_cd_current_dir_deleted() {
    let (mut s, mut fs) = create_test_state_with_files_and_folders(10, vec![], vec!["foo"]);

    change_dir(&mut s, &fs, "foo").unwrap();
    let path = format!("{TMP}/foo");
    fs.remove_tree(&path);
    let res = change_dir(&mut s, &fs, ".").unwrap();

    assert_eq!(s.current_path, TMP);
    match res {
        CdResult::MovedUpwards { target_abs_path: p, root_error: e } => {
            assert_eq!(p, path);
            assert_eq!(e.kind(), ErrorKind::NotFound);
        }
        something_else => panic!("{:?}", something_else),
    }
}

#[test]
fn test_cd_current_dir_parent_deleted() {
    let (mut s, mut fs) = create_test_state_with_files_and_folders(10, vec![], vec!["foo"]);
    let target_path = format!("{TMP}/foo/bar");
    fs.dirs.push(target_path.clone());

    change_dir(&mut s, &fs, "foo").unwrap();
    change_dir(&mut s, &fs, "bar").unwrap();
    fs.remove_tree(&format!("{TMP}/foo"));

    let res = change_dir(&mut s, &fs, ".").unwrap();

    assert_eq!(s.current_path, TMP);
    match res {
        CdResult::MovedUpwards { target_abs_path: p, root_error: e } => {
            assert_eq!(p, target_path);
            assert_eq!(e.kind(), ErrorKind::NotFound);
        }
        something_else => panic!("{:?}", something_else),
    }
}

#[test]
fn test_cd_current_dir_permission_denied() {
    let (mut s, mut fs) = create_test_state_with_files_and_folders(10, vec![], vec!["foo"]);

    change_dir(&mut s, &fs, "foo").unwrap();
    assert_eq!(s.current_path, format!("{TMP}/foo"));

    let path = format!("{TMP}/foo");
    fs.denied.push(path.clone());

    let res = change_dir(&mut s, &fs, ".").unwrap();

    assert_eq!(s.current_path, TMP);
    match res {
        CdResult::MovedUpwards { target_abs_path: p, root_error: e } => {
            assert_eq!(p, path);
            assert_eq!(e.kind(), ErrorKind::PermissionDenied);
        }
        something_else => panic!("{:?}", something_else),
    }
}

#[test]
fn cd_fails_on_other_errors() {
    let (s, _) = create_test_state_with_files_and_folders(10, vec![], vec!["foo"]);
    let search = CdSearch::new(&s, "foo");
    match search.step(ReadDirOutcome::Failed(IoError::new(ErrorKind::Other, "broken"))) {
        CdStep::Failed(e) => assert_eq!(e.kind(), ErrorKind::Other),
        _ => panic!("expected a failure"),
    }
}

#[test]
fn listing_puts_folders_first_and_sorts_by_name() {
    let (s, _) = create_test_state_with_files_and_folders(20, vec!["b.txt", "A.txt"], vec!["Zed", "alpha", "beta"]);
    assert_eq!(visible_names(&s), vec!["..", "alpha", "beta", "Zed", "A.txt", "b.txt"]);
}

#[test]
fn listing_sorts_by_time_newest_first() {
    let mut s = create_test_state_with_folders(20, vec![]);
    let mut entries = vec![];
    for (name, created, modified) in [("old", 1u128, 30u128), ("new", 3, 10), ("mid", 2, 20)] {
        let mut e = entry(name, &format!("{TMP}/{name}"), true);
        e.created_ns = created;
        e.modified_ns = modified;
        entries.push(e);
    }
    s.set_sort_mode(SortMode::Created, Some((entries.clone(), parent())));
    assert_eq!(visible_names(&s), vec!["..", "new", "mid", "old"]);
    s.set_sort_mode(SortMode::Modified, Some((entries, parent())));
    assert_eq!(visible_names(&s), vec!["..", "old", "mid", "new"]);
    s.set_sort_mode(SortMode::Name, None);
    assert_eq!(visible_names(&s), vec!["..", "old", "mid", "new"]);
}

#[test]
fn sort_mode_keeps_cursor_on_item() {
    let mut s = create_test_state_with_folders(20, vec!["a", "b", "c"]);
    s.move_cursor_to(1);
    let listing = vec![
        entry("c", "/c", true),
        entry("a", "/a", true),
        entry("b", "/b", true),
    ];
    let mut listing2 = listing.clone();
    listing2[0].created_ns = 5;
    s.set_sort_mode(SortMode::Created, Some((listing2, parent())));
    assert_eq!(visible_names(&s), vec!["..", "c", "a", "b"]);
    assert_eq!(s.get_item_at_cursor_pos(s.cursor_pos).unwrap().file_name_checked(), "a");
}

#[test]
fn gap_search_from_start_and_anywhere() {
    let mut s = create_test_state_with_folders(20, vec!["DeskTop", "DocumenTs", "downloads", "mydt"]);
    s.advance_search("dt");
    assert_eq!(s.visible_match_indices(), vec![1, 2]);
    s.set_gap_search_mode(GapSearchMode::GapSearchAnywhere);
    assert_eq!(s.visible_match_indices(), vec![1, 2, 4]);
    s.set_gap_search_mode(GapSearchMode::NormalSearchAnywhere);
    assert_eq!(s.visible_match_indices(), vec![4]);
}

#[test]
fn smart_case_and_match_locations() {
    let mut s = create_test_state_with_folders(20, vec!["Foo", "foo"]);
    s.advance_search("F");
    assert_eq!(s.visible_match_indices(), vec![1]);
    assert_eq!(s.get_match_locations_at_cursor_pos(1), Some(&vec![(0, 1)]));
    s.erase_search_char();
    s.advance_search("o");
    assert_eq!(s.visible_match_indices(), vec![]);
    s.clear_search();
    s.advance_search("fo");
    assert_eq!(s.visible_match_indices(), vec![1, 2]);
    assert_eq!(s.get_match_locations_at_cursor_pos(1), Some(&vec![(0, 1), (1, 2)]));
}

#[test]
fn search_escapes_special_characters() {
    let mut s = create_test_state_with_folders(20, vec!["a.b", "axb", "(x)"]);
    s.set_gap_search_mode(GapSearchMode::NormalSearch);
    s.advance_search("a.");
    assert_eq!(visible_names(&s).len(), 4);
    assert_eq!(s.visible_match_indices(), vec![2]);
    s.clear_search();
    s.advance_search("(");
    assert_eq!(s.visible_match_indices(), vec![1]);
}

#[test]
fn wrap_round_trip_returns_to_item() {
    let mut s = create_test_state_with_n_folders(3, 6);
    for start in 0..7 {
        s.move_cursor_to(start);
        let before = s.cursor_pos + s.scroll_pos;
        s.move_cursor(1, true);
        s.move_cursor(-1, true);
        assert_eq!(s.cursor_pos + s.scroll_pos, before);
    }
}

#[test]
fn window_resize_keeps_item_under_cursor() {
    let mut s = create_test_state_with_n_folders(3, 9);
    s.move_cursor_to(8);
    assert_eq!((s.cursor_pos, s.scroll_pos), (2, 6));
    s.update_main_window_dimensions(10, 6);
    assert_eq!(s.cursor_pos + s.scroll_pos, 8);
    assert_eq!((s.cursor_pos, s.scroll_pos), (5, 3));
    s.update_main_window_dimensions(10, 2);
    assert_eq!(s.cursor_pos + s.scroll_pos, 8);
    assert!(s.cursor_pos < 2);
}

#[test]
fn init_messages() {
    let s = TereAppState::init(TereSettings::default(), &vec![], "/home/user", None);
    assert_eq!(s.info_msg, "tere 1.5.1 - Type something to search, press '?' to view help or Esc to exit.");
    assert_eq!(s.header_msg, "/home/user");
    let s = TereAppState::init(TereSettings::default(), &vec!["first.", "second."], "/", None);
    assert_eq!(s.info_msg, "Warning: first. second.");
}

#[test]
fn history_brings_cursor_back_to_last_visited_folder() {
    let (mut s, mut fs) = create_test_state_with_files_and_folders(10, vec![], vec!["a", "b", "c"]);
    fs.dirs.push(format!("{TMP}/c/x"));
    change_dir(&mut s, &fs, "c").unwrap();
    change_dir(&mut s, &fs, "..").unwrap();
    assert_eq!(s.get_item_at_cursor_pos(s.cursor_pos).unwrap().file_name_checked(), "c");
}

#[test]
fn test_read_outcome_by_error_kind() {
    assert!(matches!(ReadDirOutcome::of_read(Ok(())), ReadDirOutcome::Readable));
    assert!(matches!(
        ReadDirOutcome::of_read(Err(IoError::new(ErrorKind::NotFound, "x"))),
        ReadDirOutcome::Unreachable(_)
    ));
    assert!(matches!(
        ReadDirOutcome::of_read(Err(IoError::new(ErrorKind::PermissionDenied, "x"))),
        ReadDirOutcome::Unreachable(_)
    ));
    match ReadDirOutcome::of_read(Err(IoError::new(ErrorKind::InvalidData, "bad"))) {
        ReadDirOutcome::Failed(e) => assert_eq!(e.kind(), ErrorKind::InvalidData),
        _ => panic!("an error of another kind must fail the change of folder"),
    }
}

#[test]
fn autocd_target_needs_exactly_one_match() {
    let mut s = create_test_state_with_folders(10, vec!["bar", "baz", "foo"]);
    assert_eq!(s.autocd_target(), None);
    s.advance_search("b");
    assert_eq!(s.autocd_target(), None);
    s.advance_search("az");
    assert_eq!(s.autocd_target(), Some("baz".to_string()));
    s.clear_search();
    assert_eq!(s.autocd_target(), None);
}

#[test]
fn modes_cycle_in_declaration_order() {
    assert_eq!(CaseSensitiveMode::IgnoreCase.next(), CaseSensitiveMode::CaseSensitive);
    assert_eq!(CaseSensitiveMode::SmartCase.next(), CaseSensitiveMode::IgnoreCase);
    assert_eq!(GapSearchMode::NormalSearch.next(), GapSearchMode::NormalSearchAnywhere);
    assert_eq!(GapSearchMode::GapSearchAnywhere.next(), GapSearchMode::NormalSearch);
    assert_eq!(SortMode::Name.next(), SortMode::Created);
    assert_eq!(SortMode::Modified.next(), SortMode::Name);
    let m = GapSearchMode::GapSearchFromStart;
    assert_eq!(m.next().next().next().next(), m);
}

#[test]
fn change_dir_keeps_history_of_other_folders() {
    let (mut s, mut fs) = create_test_state_with_files_and_folders(10, vec![], vec!["a", "b"]);
    fs.dirs.push(format!("{TMP}/a/x"));
    change_dir(&mut s, &fs, "a").unwrap();
    change_dir(&mut s, &fs, "x").unwrap();
    change_dir(&mut s, &fs, "/").unwrap();
    change_dir(&mut s, &fs, TMP).unwrap();
    change_dir(&mut s, &fs, "a").unwrap();
    assert_eq!(s.get_item_at_cursor_pos(s.cursor_pos).unwrap().file_name_checked(), "x");
}

#[test]
fn cd_walk_keeps_first_error() {
    let (s, _fs) = create_test_state_with_files_and_folders(10, vec![], vec!["a"]);
    let mut fs = FakeFs::new(&[], &[]);
    fs.denied.push(format!("{TMP}/a/b"));
    let (target, result) = find_valid_cd_target(&s, &fs, "a/b").unwrap();
    assert_eq!(target, TMP);
    match result {
        CdResult::MovedUpwards { target_abs_path, root_error } => {
            assert_eq!(target_abs_path, format!("{TMP}/a/b"));
            assert_eq!(root_error.kind(), ErrorKind::PermissionDenied);
        }
        CdResult::Success => panic!("the folder asked for cannot be read"),
    }
}
