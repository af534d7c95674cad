//! The state of the application, independent of how it is drawn: the
//! listing of the current folder, the cursor, the search and the history.
use vstd::prelude::*;
use crate::history::HistoryTree;
use crate::listing::{CustomDirEntry, MatchesVec};
use crate::settings::{TereSettings, CaseSensitiveMode, GapSearchMode, FileHandlingMode, SortMode};
use crate::search::{build_search_regex, contains_uppercase, to_lowercase, has_uppercase, lowercased, search_regex};
use crate::listing::{compile_pattern, regex_compiles, matches_of};
use crate::text::{chars_of, string_from_chars};
use crate::listing::{sort_listing, stably_sorted};
use crate::paths::{is_absolute, join_path, normalized, parent_of, path_is_absolute, path_join, normalize_path, path_parent};
use crate::history::{visited_names, visited_chain, lone_root};
use crate::settings::DeprecationWarnings;
use vstd::arithmetic::div_mod::{lemma_small_mod, lemma_mod_add_multiples_vanish, lemma_mod_sub_multiples_vanish};
use vstd::string::StringExecFns;
use vstd::string::StrSliceExecFns;

verus! {

/// Where the cursor points among `n` visible items after moving by `amount`
/// from `p`: modulo `n` if it wraps, else held within the items.
pub open spec fn pointer_after(p: int, n: int, amount: int, wrap: bool) -> int {
    if n == 0 {
        p
    } else if wrap {
        (p + amount) % n
    } else if p + amount < 0 {
        0
    } else if p + amount > n - 1 {
        n - 1
    } else {
        p + amount
    }
}

/// The cursor row and the scroll position after moving by `amount` in a
/// window of height `h`: the window scrolls just enough to show the item
/// under the cursor, and not at all if all items fit above its last row.
pub open spec fn view_after(cursor: int, scroll: int, n: int, h: int, amount: int, wrap: bool) -> (int, int) {
    let np = pointer_after(cursor + scroll, n, amount, wrap);
    let max_cursor = h - 1;
    if n <= max_cursor {
        (np, 0)
    } else if np <= scroll {
        (0, np)
    } else if np >= scroll + max_cursor {
        (max_cursor, np - max_cursor)
    } else {
        (np - scroll, scroll)
    }
}

/// The items that are shown: only the matching ones while filtering, else
/// all of them.
pub open spec fn visible_of(items: Seq<CustomDirEntry>, matched: Seq<(int, Seq<(usize, usize)>)>, filtering: bool) -> Seq<CustomDirEntry> {
    if filtering {
        matched.map_values(|m: (int, Seq<(usize, usize)>)| items[m.0])
    } else {
        items
    }
}

/// The state of the application.
pub struct TereAppState {
    /// The width and height of the main window.
    main_win_w: usize,
    main_win_h: usize,
    /// The items of the current folder, the parent folder `..` first.
    pub ls_output_buf: MatchesVec,
    /// The absolute path of the current folder, as the user reached it
    /// (links are not resolved).
    pub current_path: String,
    /// The row of the window on which the cursor is.
    pub cursor_pos: usize,
    /// The item of the visible items that is on the first row of the window.
    pub scroll_pos: usize,
    search_string: String,
    pub header_msg: String,
    pub info_msg: String,
    _settings: TereSettings,
    history: HistoryTree,
}

impl TereAppState {
    /// The listing.
    pub closed spec fn buf(self) -> MatchesVec {
        self.ls_output_buf
    }

    /// The row of the cursor.
    pub closed spec fn cursor(self) -> int {
        self.cursor_pos as int
    }

    /// The scroll position.
    pub closed spec fn scroll(self) -> int {
        self.scroll_pos as int
    }

    /// The cursor row and the scroll position are never negative, and each
    /// fits in a `usize`.
    pub proof fn lemma_positions_in_range(self)
        ensures
            0 <= self.cursor() <= usize::MAX,
            0 <= self.scroll() <= usize::MAX,
    {
    }

    /// The current folder.
    pub closed spec fn path(self) -> Seq<char> {
        self.current_path@
    }

    /// The header and info messages.
    pub closed spec fn messages(self) -> (Seq<char>, Seq<char>) {
        (self.header_msg@, self.info_msg@)
    }

    /// The height of the main window.
    pub closed spec fn window_height(self) -> int {
        self.main_win_h as int
    }

    /// The width of the main window.
    pub closed spec fn window_width(self) -> int {
        self.main_win_w as int
    }

    /// The current search.
    pub closed spec fn search(self) -> Seq<char> {
        self.search_string@
    }

    /// The settings.
    pub closed spec fn settings_of(self) -> TereSettings {
        self._settings
    }

    /// The history of visited folders.
    pub closed spec fn history_of(self) -> HistoryTree {
        self.history
    }

    /// Whether a search is going on.
    pub open spec fn searching(self) -> bool {
        self.search().len() > 0
    }

    /// Whether only the matching items are shown.
    pub open spec fn filtering(self) -> bool {
        self.searching() && self.settings_of().filter_search
    }

    /// The items that are shown, in order.
    pub open spec fn visible(self) -> Seq<CustomDirEntry> {
        visible_of(self.buf().items(), self.buf().matched(), self.filtering())
    }

    /// The place of the item under the cursor among the visible items.
    pub open spec fn pointer(self) -> int {
        self.cursor() + self.scroll()
    }

    /// The state is consistent: the window has a row, the matches point
    /// into the listing, the history is well formed, and the positions fit
    /// in an `isize`.
    pub open spec fn wf(self) -> bool {
        &&& self.window_height() >= 1
        &&& self.buf().wf()
        &&& self.history_of().wf()
        &&& self.buf().items().len() <= isize::MAX
        &&& self.pointer() < isize::MAX
    }

    /// The window, the folder, the messages, the settings and the history
    /// are as in `other`.
    pub open spec fn same_frame(self, other: TereAppState) -> bool {
        &&& self.window_height() == other.window_height()
        &&& self.window_width() == other.window_width()
        &&& self.path() == other.path()
        &&& self.messages() == other.messages()
        &&& self.settings_of() == other.settings_of()
        &&& self.history_of() == other.history_of()
    }

    /// Everything but the cursor and the scroll position is as in `other`.
    pub open spec fn same_but_cursor(self, other: TereAppState) -> bool {
        &&& self.same_frame(other)
        &&& self.buf() == other.buf()
        &&& self.search() == other.search()
    }

    /// The cursor row and scroll position after moving by `amount`.
    pub open spec fn view_after_move(self, amount: int, wrap: bool) -> (int, int) {
        view_after(self.cursor(), self.scroll(), self.visible().len() as int, self.window_height(), amount, wrap)
    }

    proof fn lemma_visible_len(self)
        requires
            self.wf(),
        ensures
            self.visible().len() <= self.buf().items().len(),
            forall|i: int| 0 <= i < self.visible().len() ==> #[trigger] self.visible()[i] == (if self.filtering() {
                self.buf().items()[self.buf().matched()[i].0]
            } else {
                self.buf().items()[i]
            }),
    {
        if self.filtering() {
            let ms = self.buf().matched();
            let n = self.buf().items().len();
            if ms.len() > n {
                lemma_increasing_below(ms, n as int);
            }
        }
    }

    /// The settings.
    pub fn settings(&self) -> (r: &TereSettings)
        ensures
            *r == self.settings_of(),
    {
        &self._settings
    }

    /// The history of visited folders.
    pub fn history(&self) -> (r: &HistoryTree)
        ensures
            *r == self.history_of(),
    {
        &self.history
    }

    /// Whether a search is going on.
    pub fn is_searching(&self) -> (r: bool)
        ensures
            r == self.searching(),
    {
        !self.search_string.as_str().is_empty()
    }

    /// The current search.
    pub fn search_string(&self) -> (r: &String)
        ensures
            r@ == self.search(),
    {
        &self.search_string
    }

    /// The number of items in the listing.
    pub fn num_total_items(&self) -> (r: usize)
        ensures
            r == self.buf().items().len(),
    {
        self.ls_output_buf.all_items().len()
    }

    /// The number of items that match the current search.
    pub fn num_matching_items(&self) -> (r: usize)
        ensures
            r == self.buf().matched().len(),
    {
        self.ls_output_buf.num_matches()
    }

    /// The number of visible items.
    pub fn num_visible_items(&self) -> (r: usize)
        requires
            self.wf(),
        ensures
            r == self.visible().len(),
    {
        proof {
            self.lemma_visible_len();
        }
        if self.is_searching() && self._settings.filter_search {
            self.num_matching_items()
        } else {
            self.num_total_items()
        }
    }

    /// The visible items, in order.
    pub fn visible_items(&self) -> (r: Vec<&CustomDirEntry>)
        requires
            self.wf(),
        ensures
            r@.len() == self.visible().len(),
            forall|i: int| 0 <= i < r@.len() ==> *#[trigger] r@[i] == self.visible()[i],
    {
        proof {
            self.lemma_visible_len();
        }
        if self.is_searching() && self._settings.filter_search {
            self.ls_output_buf.kept_items()
        } else {
            let items = self.ls_output_buf.all_items();
            let mut r: Vec<&CustomDirEntry> = Vec::new();
            let mut i: usize = 0;
            while i < items.len()
                invariant
                    0 <= i <= items@.len(),
                    r@.len() == i,
                    forall|j: int| 0 <= j < i ==> *#[trigger] r@[j] == items@[j],
                decreases items@.len() - i,
            {
                r.push(&items[i]);
                i = i + 1;
            }
            r
        }
    }

    /// The place among the visible items of the item on a row of the window.
    pub fn cursor_pos_to_visible_item_index(&self, cursor_pos: usize) -> (r: usize)
        requires
            cursor_pos + self.scroll() <= usize::MAX,
        ensures
            r == cursor_pos + self.scroll(),
    {
        cursor_pos + self.scroll_pos
    }

    /// The visible item on a row of the window, if there is one.
    pub fn get_item_at_cursor_pos(&self, cursor_pos: usize) -> (r: Option<&CustomDirEntry>)
        requires
            self.wf(),
            cursor_pos + self.scroll() <= usize::MAX,
        ensures
            match r {
                Some(e) => cursor_pos + self.scroll() < self.visible().len() && *e == self.visible()[cursor_pos + self.scroll()],
                None => cursor_pos + self.scroll() >= self.visible().len(),
            },
    {
        let idx = self.cursor_pos_to_visible_item_index(cursor_pos);
        proof {
            self.lemma_visible_len();
        }
        if self.is_searching() && self._settings.filter_search {
            if idx < self.ls_output_buf.num_matches() {
                let k = self.ls_output_buf.kept_index_at(idx);
                Some(&self.ls_output_buf.all_items()[k])
            } else {
                None
            }
        } else {
            if idx < self.ls_output_buf.all_items().len() {
                Some(&self.ls_output_buf.all_items()[idx])
            } else {
                None
            }
        }
    }

    /// The name of the item under the cursor, if there is one.
    fn name_under_cursor(&self) -> (r: Option<String>)
        requires
            self.wf(),
        ensures
            match r {
                Some(name) => self.pointer() < self.visible().len() && name@ == self.visible()[self.pointer()].file_name@,
                None => self.pointer() >= self.visible().len(),
            },
    {
        match self.get_item_at_cursor_pos(self.cursor_pos) {
            Some(e) => Some(e.file_name_checked()),
            None => None,
        }
    }

    /// Moves the cursor by `amount` visible items, down for a positive
    /// amount, wrapping around the ends if `wrap` and else stopping at them,
    /// and scrolls the window to keep the cursor in view; see [`view_after`].
    pub fn move_cursor(&mut self, amount: isize, wrap: bool)
        requires
            old(self).wf(),
            isize::MIN <= old(self).pointer() + amount <= isize::MAX,
        ensures
            final(self).wf(),
            final(self).same_but_cursor(*old(self)),
            (final(self).cursor(), final(self).scroll()) == old(self).view_after_move(amount as int, wrap),
    {
        let n_visible_items = self.num_visible_items();
        let max_cursor_pos = self.main_win_h - 1;
        let old_scroll_pos = self.scroll_pos;
        let old_pointer_pos: usize = self.cursor_pos + old_scroll_pos;
        proof {
            self.lemma_visible_len();
        }
        let new_pointer_pos: usize = if n_visible_items == 0 {
            old_pointer_pos
        } else {
            let p = old_pointer_pos as isize;
            let n = n_visible_items as isize;
            let result: isize = p + amount;
            if wrap {
                match result.checked_rem_euclid(n) {
                    Some(r) => r as usize,
                    None => 0,
                }
            } else if result < 0 {
                0
            } else if result > n - 1 {
                (n - 1) as usize
            } else {
                result as usize
            }
        };
        if n_visible_items <= max_cursor_pos {
            self.scroll_pos = 0;
            self.cursor_pos = new_pointer_pos;
        } else if new_pointer_pos <= old_scroll_pos {
            self.scroll_pos = new_pointer_pos;
            self.cursor_pos = 0;
        } else if new_pointer_pos >= old_scroll_pos + max_cursor_pos {
            self.cursor_pos = max_cursor_pos;
            self.scroll_pos = new_pointer_pos - max_cursor_pos;
        } else {
            self.cursor_pos = new_pointer_pos - self.scroll_pos;
        }
    }

    /// Moves the cursor to a place among the visible items, scrolling as
    /// needed.
    pub fn move_cursor_to(&mut self, row: usize)
        requires
            old(self).wf(),
            row <= isize::MAX,
        ensures
            final(self).wf(),
            final(self).same_but_cursor(*old(self)),
            (final(self).cursor(), final(self).scroll()) == old(self).view_after_move(row - old(self).pointer(), false),
    {
        let amount: isize = row as isize - self.cursor_pos as isize - self.scroll_pos as isize;
        self.move_cursor(amount, false);
    }

    /// The first place among the visible items of an item with the given
    /// name, if there is one.
    fn index_of_filename(&self, fname: &str) -> (r: Option<usize>)
        requires
            self.wf(),
        ensures
            match r {
                Some(i) => index_of_name(self.visible(), fname@) == Some(i as int),
                None => index_of_name(self.visible(), fname@) is None,
            },
    {
        let vis = self.visible_items();
        let mut i: usize = 0;
        while i < vis.len()
            invariant
                0 <= i <= vis@.len(),
                vis@.len() == self.visible().len(),
                forall|j: int| 0 <= j < vis@.len() ==> *#[trigger] vis@[j] == self.visible()[j],
                forall|j: int| 0 <= j < i ==> (#[trigger] self.visible()[j]).file_name@ != fname@,
            decreases vis@.len() - i,
        {
            if crate::text::str_eq(vis[i].file_name.as_str(), fname) {
                proof {
                    lemma_index_of_name(self.visible(), fname@);
                }
                return Some(i);
            }
            i = i + 1;
        }
        proof {
            lemma_index_of_name(self.visible(), fname@);
        }
        None
    }

    /// Moves the cursor to the first visible item with the given name; if
    /// there is none, the cursor stays, and the result is false.
    pub fn move_cursor_to_filename(&mut self, fname: &str) -> (r: bool)
        requires
            old(self).wf(),
        ensures
            final(self).wf(),
            final(self).same_but_cursor(*old(self)),
            r == index_of_name(old(self).visible(), fname@) is Some,
            (final(self).cursor(), final(self).scroll()) == old(self).view_after_find(fname@),
    {
        match self.index_of_filename(fname) {
            Some(idx) => {
                proof {
                    lemma_index_of_name(self.visible(), fname@);
                    self.lemma_visible_len();
                }
                self.move_cursor_to(idx);
                true
            },
            None => false,
        }
    }

    /// The cursor row and scroll position after moving to the first
    /// visible item with the given name, if there is one.
    pub open spec fn view_after_find(self, name: Seq<char>) -> (int, int) {
        match index_of_name(self.visible(), name) {
            Some(i) => self.view_after_move(i - self.pointer(), false),
            None => (self.cursor(), self.scroll()),
        }
    }

    /// The cursor row and scroll position after moving to the next match
    /// (`dir` positive), the previous one (negative) or the current one
    /// (zero); see [`adjacent_row`].
    pub open spec fn view_after_adjacent(self, dir: int) -> (int, int) {
        adjacent_view(self.searching(), self.settings_of().filter_search, self.kept(),
            self.visible().len() as int, self.window_height(), self.cursor(), self.scroll(), dir)
    }

    /// The indices of the matching items.
    pub open spec fn kept(self) -> Seq<int> {
        self.buf().matched().map_values(|m: (int, Seq<(usize, usize)>)| m.0)
    }

    /// The name of the item under the cursor, if there is one.
    pub open spec fn name_at_pointer(self) -> Option<Seq<char>> {
        if 0 <= self.pointer() < self.visible().len() {
            Some(self.visible()[self.pointer()].file_name@)
        } else {
            None
        }
    }

    /// Moves the cursor to the next or previous match among all items, or to
    /// the current one; while filtering, or when nothing matches, it moves
    /// by one visible item, wrapping around. Nothing happens when there is
    /// no search.
    pub fn move_cursor_to_adjacent_match(&mut self, dir: isize)
        requires
            old(self).wf(),
        ensures
            final(self).wf(),
            final(self).same_but_cursor(*old(self)),
            (final(self).cursor(), final(self).scroll()) == old(self).view_after_adjacent(dir as int),
    {
        if self.is_searching() {
            let sign: isize = if dir > 0 { 1 } else if dir < 0 { -1 } else { 0 };
            if self.num_matching_items() == 0 || self._settings.filter_search {
                self.move_cursor(sign, true);
                return;
            }
            let cur_idx = self.cursor_pos_to_visible_item_index(self.cursor_pos);
            let kept_indices = self.ls_output_buf.kept_indices();
            let ghost kept = self.buf().matched().map_values(|m: (int, Seq<(usize, usize)>)| m.0);
            proof {
                assert forall|j: int| 0 <= j < kept.len() implies kept_indices@[j] as int == #[trigger] kept[j] && kept[j] < self.buf().items().len() by {
                    assert(0 <= self.buf().matched()[j].0 < self.buf().items().len());
                }
            }
            let mut ci: usize = 0;
            while ci < kept_indices.len() && kept_indices[ci] < cur_idx
                invariant
                    0 <= ci <= kept_indices@.len(),
                    kept_indices@.len() == kept.len(),
                    forall|j: int| 0 <= j < kept.len() ==> kept_indices@[j] as int == #[trigger] kept[j],
                    first_at_or_after(kept, cur_idx as int, 0) == first_at_or_after(kept, cur_idx as int, ci as int),
                decreases kept_indices@.len() - ci,
            {
                ci = ci + 1;
            }
            let n = kept_indices.len();
            let found: usize = if ci < n { ci } else { 0 };
            let new_row = if dir < 0 {
                let i = if found == 0 { n - 1 } else { found - 1 };
                kept_indices[i]
            } else if dir > 0 {
                kept_indices[(found + 1) % n]
            } else {
                kept_indices[found]
            };
            proof {
                self.lemma_visible_len();
            }
            self.move_cursor_to(new_row);
        }
    }

    /// Matches the current search against the listing again; see
    /// [`search_matches`].
    fn update_search_matches(&mut self)
        requires
            old(self).wf(),
        ensures
            final(self).wf(),
            final(self).same_frame(*old(self)),
            final(self).search() == old(self).search(),
            final(self).cursor() == old(self).cursor(),
            final(self).scroll() == old(self).scroll(),
            final(self).buf().items() == old(self).buf().items(),
            final(self).buf().matched() == search_matches(old(self).buf().items(), old(self).settings_of(), old(self).search()),
    {
        let is_case_sensitive = match self._settings.case_sensitive {
            CaseSensitiveMode::IgnoreCase => false,
            CaseSensitiveMode::CaseSensitive => true,
            CaseSensitiveMode::SmartCase => contains_uppercase(self.search_string.as_str()),
        };
        let query = if is_case_sensitive {
            self.search_string.clone()
        } else {
            to_lowercase(self.search_string.as_str())
        };
        let pattern = build_search_regex(query.as_str(), self._settings.gap_search_mode);
        let ignore_files = self._settings.file_handling_mode == FileHandlingMode::Ignore;
        match compile_pattern(pattern.as_str()) {
            Some(p) => self.ls_output_buf.update_matches(&p, is_case_sensitive, ignore_files),
            None => self.ls_output_buf.clear_matches(),
        }
    }

    /// Moves the cursor after the search changed; see [`view_after_search`].
    fn place_cursor_after_search(&mut self, prev: Option<String>)
        requires
            old(self).wf(),
        ensures
            final(self).wf(),
            final(self).same_but_cursor(*old(self)),
            (final(self).cursor(), final(self).scroll()) == view_after_search(
                match prev { Some(p) => Some(p@), None => None },
                old(self).settings_of().filter_search, old(self).searching(), old(self).visible(), old(self).kept(),
                old(self).window_height(), old(self).cursor(), old(self).scroll()),
    {
        if self._settings.filter_search {
            match prev {
                Some(name) => {
                    if !self.move_cursor_to_filename(name.as_str()) {
                        self.move_cursor_to(0);
                    }
                },
                None => {},
            }
        } else {
            self.move_cursor_to_adjacent_match(0);
        }
    }

    /// Adds text to the end of the search, matches it, and moves the cursor:
    /// while filtering, to the item that was under it (or to the first item if
    /// that no longer shows), else to the first match at or after it.
    pub fn advance_search(&mut self, query: &str)
        requires
            old(self).wf(),
        ensures
            final(self).wf(),
            searched(*old(self), *final(self), old(self).search() + query@),
    {
        let prev = self.name_under_cursor();
        self.search_string.append(query);
        self.update_search_matches();
        self.place_cursor_after_search(prev);
    }

    /// Takes the last character off the search, if there is one, matches
    /// again and moves the cursor as [`Self::advance_search`] does; without a
    /// search nothing changes.
    pub fn erase_search_char(&mut self)
        requires
            old(self).wf(),
        ensures
            final(self).wf(),
            old(self).search().len() == 0 ==> *final(self) == *old(self),
            old(self).search().len() > 0 ==> searched(*old(self), *final(self), old(self).search().drop_last()),
    {
        let prev = self.name_under_cursor();
        let mut cs = chars_of(self.search_string.as_str());
        if cs.len() > 0 {
            cs.pop();
            self.search_string = string_from_chars(cs.as_slice());
            self.update_search_matches();
            self.place_cursor_after_search(prev);
        }
    }

    /// Ends the search, keeping the cursor on the item it was on. The matches
    /// are kept, but no longer shown.
    pub fn clear_search(&mut self)
        requires
            old(self).wf(),
        ensures
            final(self).wf(),
            final(self).same_frame(*old(self)),
            final(self).search().len() == 0,
            final(self).buf() == old(self).buf(),
            (final(self).cursor(), final(self).scroll()) == match old(self).name_at_pointer() {
                Some(name) => find_view(old(self).buf().items(), old(self).window_height(), old(self).cursor(), old(self).scroll(), name),
                None => (old(self).cursor(), old(self).scroll()),
            },
    {
        let prev = self.name_under_cursor();
        self.search_string = String::new();
        match prev {
            Some(name) => {
                self.move_cursor_to_filename(name.as_str());
            },
            None => {},
        }
    }

    /// Turns filtering of the matches on or off, keeping the cursor on the
    /// item it was on.
    pub fn set_filter_search(&mut self, filter_search: bool)
        requires
            old(self).wf(),
        ensures
            final(self).wf(),
            final(self).settings_of().filter_search == filter_search,
            final(self).buf() == old(self).buf(),
            final(self).search() == old(self).search(),
            (final(self).cursor(), final(self).scroll()) == match old(self).name_at_pointer() {
                Some(name) => find_view(final(self).visible(), old(self).window_height(), old(self).cursor(), old(self).scroll(), name),
                None => (old(self).cursor(), old(self).scroll()),
            },
    {
        let prev = self.name_under_cursor();
        self._settings.filter_search = filter_search;
        match prev {
            Some(name) => {
                self.move_cursor_to_filename(name.as_str());
            },
            None => {},
        }
    }

    /// Changes the case sensitivity, then matches and moves the cursor as
    /// [`Self::advance_search`] does with nothing to add.
    pub fn set_case_sensitive(&mut self, case_sensitive: CaseSensitiveMode)
        requires
            old(self).wf(),
        ensures
            final(self).wf(),
            final(self).settings_of().case_sensitive == case_sensitive,
            final(self).search() == old(self).search(),
            final(self).buf().items() == old(self).buf().items(),
            final(self).buf().matched() == search_matches(old(self).buf().items(), final(self).settings_of(), old(self).search()),
            (final(self).cursor(), final(self).scroll()) == view_after_search(old(self).name_at_pointer(),
                old(self).settings_of().filter_search, final(self).searching(), final(self).visible(), final(self).kept(),
                old(self).window_height(), old(self).cursor(), old(self).scroll()),
    {
        self._settings.case_sensitive = case_sensitive;
        self.advance_search("");
        proof {
            reveal_strlit("");
            assert(old(self).search() + ""@ =~= old(self).search());
        }
    }

    /// Changes the search mode, then matches and moves the cursor as
    /// [`Self::advance_search`] does with nothing to add.
    pub fn set_gap_search_mode(&mut self, gap_search_mode: GapSearchMode)
        requires
            old(self).wf(),
        ensures
            final(self).wf(),
            final(self).settings_of().gap_search_mode == gap_search_mode,
            final(self).search() == old(self).search(),
            final(self).buf().items() == old(self).buf().items(),
            final(self).buf().matched() == search_matches(old(self).buf().items(), final(self).settings_of(), old(self).search()),
            (final(self).cursor(), final(self).scroll()) == view_after_search(old(self).name_at_pointer(),
                old(self).settings_of().filter_search, final(self).searching(), final(self).visible(), final(self).kept(),
                old(self).window_height(), old(self).cursor(), old(self).scroll()),
    {
        self._settings.gap_search_mode = gap_search_mode;
        self.advance_search("");
        proof {
            reveal_strlit("");
            assert(old(self).search() + ""@ =~= old(self).search());
        }
    }

    /// Replaces the listing with the items of the folder that were read:
    /// only the folders if files are hidden, sorted stably (see
    /// [`stably_sorted`]), after the entry `parent` of the parent folder.
    /// Nothing matches until the search is matched again.
    pub fn update_ls_output_buf(&mut self, entries: Vec<CustomDirEntry>, parent: CustomDirEntry)
        requires
            old(self).wf(),
            entries.len() < isize::MAX,
        ensures
            final(self).wf(),
            final(self).same_frame(*old(self)),
            final(self).search() == old(self).search(),
            final(self).cursor() == old(self).cursor(),
            final(self).scroll() == old(self).scroll(),
            listing_of(final(self).buf().items(), entries@, parent, old(self).settings_of()),
            final(self).buf().matched().len() == 0,
    {
        let mode = self._settings.sort_mode;
        let shown = if self._settings.file_handling_mode == FileHandlingMode::Hide {
            folders_only(entries)
        } else {
            entries
        };
        let ghost shown_view = shown@;
        let mut sorted = sort_listing(shown, mode);
        let ghost sorted_view = sorted@;
        proof {
            lemma_sorted_len(mode, shown_view, sorted_view);
            lemma_folders_len(entries@);
        }
        let mut items: Vec<CustomDirEntry> = Vec::new();
        items.push(parent);
        items.append(&mut sorted);
        proof {
            assert(items@.drop_first() =~= sorted_view);
        }
        self.ls_output_buf = MatchesVec::from(items);
    }

    /// Changes the sort mode and, if the folder could be read again, takes
    /// its items as [`Self::update_ls_output_buf`] does; then matches the
    /// search again, keeping the cursor on the item it was on.
    pub fn set_sort_mode(&mut self, sort_mode: SortMode, listing: Option<(Vec<CustomDirEntry>, CustomDirEntry)>)
        requires
            old(self).wf(),
            listing matches Some(l) ==> l.0.len() < isize::MAX,
        ensures
            final(self).wf(),
            final(self).settings_of().sort_mode == sort_mode,
            final(self).search() == old(self).search(),
            match listing {
                Some(l) => listing_of(final(self).buf().items(), l.0@, l.1, final(self).settings_of()),
                None => final(self).buf().items() == old(self).buf().items(),
            },
            final(self).buf().matched() == search_matches(final(self).buf().items(), final(self).settings_of(), old(self).search()),
            (final(self).cursor(), final(self).scroll()) == match old(self).name_at_pointer() {
                Some(name) => find_view(final(self).visible(), old(self).window_height(), old(self).cursor(), old(self).scroll(), name),
                None => (old(self).cursor(), old(self).scroll()),
            },
    {
        let prev = self.name_under_cursor();
        self._settings.sort_mode = sort_mode;
        match listing {
            Some((entries, parent)) => self.update_ls_output_buf(entries, parent),
            None => {},
        }
        self.update_search_matches();
        match prev {
            Some(name) => {
                self.move_cursor_to_filename(name.as_str());
            },
            None => {},
        }
    }

    /// Shows a new listing from its top: the cursor goes to the second item
    /// (the first is the parent folder), then to the child of the current
    /// folder that was visited last, if it is listed.
    pub fn show_new_listing(&mut self, entries: Vec<CustomDirEntry>, parent: CustomDirEntry)
        requires
            old(self).wf(),
            entries.len() < isize::MAX,
        ensures
            final(self).wf(),
            final(self).same_frame(*old(self)),
            final(self).search() == old(self).search(),
            listing_of(final(self).buf().items(), entries@, parent, old(self).settings_of()),
            final(self).buf().matched().len() == 0,
            (final(self).cursor(), final(self).scroll()) == start_view(final(self).visible(), final(self).window_height(),
                final(self).history_of().current_of().last_visited_label_of()),
    {
        self.update_ls_output_buf(entries, parent);
        self.cursor_pos = 0;
        self.scroll_pos = 0;
        self.move_cursor(1, false);
        match self.history.current_entry().last_visited_child_label() {
            Some(prev_dir) => {
                self.move_cursor_to_filename(prev_dir.as_str());
            },
            None => {},
        }
    }

    /// The absolute folder that changing to `path` aims at: `path` itself if
    /// it is absolute, else `path` (or, if it is empty, the name of the item
    /// under the cursor) after the current folder, normalized.
    pub fn cd_target(&self, path: &str) -> (r: String)
        requires
            self.wf(),
        ensures
            r@ == cd_target_of(self.path(), if path@.len() == 0 {
                match self.name_at_pointer() {
                    Some(name) => name,
                    None => Seq::empty(),
                }
            } else {
                path@
            }),
    {
        let target = if path.unicode_len() == 0 {
            match self.name_under_cursor() {
                Some(name) => name,
                None => String::new(),
            }
        } else {
            String::from_str(path)
        };
        if path_is_absolute(target.as_str()) {
            target
        } else {
            let joined = path_join(self.current_path.as_str(), target.as_str());
            normalize_path(joined.as_str())
        }
    }

    /// Makes `target` the current folder and ends the search; the listing
    /// is then given to [`Self::finish_change_dir`].
    pub fn enter_dir(&mut self, target: String)
        requires
            old(self).wf(),
        ensures
            final(self).wf(),
            final(self).path() == target@,
            final(self).search().len() == 0,
            final(self).buf() == old(self).buf(),
            final(self).settings_of() == old(self).settings_of(),
            final(self).history_of() == old(self).history_of(),
            final(self).window_height() == old(self).window_height(),
            final(self).window_width() == old(self).window_width(),
            final(self).messages() == old(self).messages(),
    {
        self.current_path = target;
        self.clear_search();
    }

    /// Shows the listing of the folder that was entered: the history goes to
    /// the current folder, and the listing is shown from its top as
    /// [`Self::show_new_listing`] does.
    pub fn finish_change_dir(&mut self, entries: Vec<CustomDirEntry>, parent: CustomDirEntry)
        requires
            old(self).wf(),
            entries.len() < isize::MAX,
        ensures
            final(self).wf(),
            final(self).path() == old(self).path(),
            final(self).search() == old(self).search(),
            final(self).settings_of() == old(self).settings_of(),
            final(self).messages() == old(self).messages(),
            final(self).window_height() == old(self).window_height(),
            final(self).history_of().current_labels_of() == seq![old(self).history_of().root_of().label_of()] + visited_names(old(self).path()),
            visited_chain(old(self).history_of(), final(self).history_of(), visited_names(old(self).path())),
            listing_of(final(self).buf().items(), entries@, parent, old(self).settings_of()),
            final(self).buf().matched().len() == 0,
            (final(self).cursor(), final(self).scroll()) == start_view(final(self).visible(), final(self).window_height(),
                final(self).history_of().current_of().last_visited_label_of()),
    {
        self.history.change_dir(self.current_path.as_str());
        self.show_new_listing(entries, parent);
    }

    /// Changes to the folder `target` (found by a [`CdSearch`]), whose listing
    /// is `entries`: the folder becomes current, the search ends, the history
    /// goes from its root to the folder, and the listing is shown from its top
    /// with the cursor on the folder last visited from there, if it is listed.
    pub fn change_dir_to(&mut self, target: String, entries: Vec<CustomDirEntry>, parent: CustomDirEntry)
        requires
            old(self).wf(),
            entries.len() < isize::MAX,
        ensures
            final(self).wf(),
            final(self).path() == target@,
            final(self).search().len() == 0,
            final(self).settings_of() == old(self).settings_of(),
            final(self).messages() == old(self).messages(),
            final(self).window_height() == old(self).window_height(),
            visited_chain(old(self).history_of(), final(self).history_of(), visited_names(target@)),
            final(self).history_of().current_labels_of() == seq![old(self).history_of().root_of().label_of()] + visited_names(target@),
            listing_of(final(self).buf().items(), entries@, parent, old(self).settings_of()),
            final(self).buf().matched().len() == 0,
            (final(self).cursor(), final(self).scroll()) == start_view(final(self).visible(), final(self).window_height(),
                final(self).history_of().current_of().last_visited_label_of()),
    {
        self.enter_dir(target);
        self.finish_change_dir(entries, parent);
    }

    /// Sets the header to the current folder.
    pub fn update_header(&mut self)
        ensures
            final(self).messages().0 == old(self).path(),
            final(self).messages().1 == old(self).messages().1,
            final(self).path() == old(self).path(),
            final(self).buf() == old(self).buf(),
            final(self).search() == old(self).search(),
            final(self).settings_of() == old(self).settings_of(),
            final(self).history_of() == old(self).history_of(),
            final(self).window_height() == old(self).window_height(),
            final(self).window_width() == old(self).window_width(),
            final(self).cursor() == old(self).cursor(),
            final(self).scroll() == old(self).scroll(),
    {
        self.header_msg = self.current_path.clone();
    }

    /// The places among the visible items of the matching items: all of them
    /// while filtering, else the indices of the matches.
    pub fn visible_match_indices(&self) -> (r: Vec<usize>)
        requires
            self.wf(),
        ensures
            self.filtering() ==> r@.len() == self.buf().matched().len() && forall|i: int| 0 <= i < r@.len() ==> #[trigger] r@[i] == i,
            !self.filtering() ==> r@ == self.kept().map_values(|k: int| k as usize),
    {
        if self.is_searching() && self._settings.filter_search {
            let n = self.ls_output_buf.num_matches();
            let mut r: Vec<usize> = Vec::new();
            let mut i: usize = 0;
            while i < n
                invariant
                    0 <= i <= n,
                    r@.len() == i,
                    forall|j: int| 0 <= j < i ==> #[trigger] r@[j] == j,
                decreases n - i,
            {
                r.push(i);
                i = i + 1;
            }
            r
        } else {
            let r = self.ls_output_buf.kept_indices();
            assert(r@ =~= self.kept().map_values(|k: int| k as usize));
            r
        }
    }

    /// The folder to enter by itself when the search leaves exactly one
    /// match: the name of that item; none without a search or with any other
    /// number of matches.
    pub fn autocd_target(&self) -> (r: Option<String>)
        requires
            self.wf(),
        ensures
            (self.searching() && self.buf().matched().len() == 1) ==> (r matches Some(name)
                && name@ == self.buf().items()[self.kept()[0]].file_name@),
            !(self.searching() && self.buf().matched().len() == 1) ==> r is None,
    {
        if self.is_searching() && self.ls_output_buf.num_matches() == 1 {
            let idx = self.ls_output_buf.kept_index_at(0);
            proof {
                assert(self.kept()[0] == self.buf().matched()[0].0);
            }
            Some(self.ls_output_buf.all_items()[idx].file_name.clone())
        } else {
            None
        }
    }

    /// The spans of the match of the visible item on a row of the window, if
    /// it matches: with filtering on, the row counts among the matches, else
    /// among all items.
    pub fn get_match_locations_at_cursor_pos(&self, cursor_pos: usize) -> (r: Option<&Vec<(usize, usize)>>)
        requires
            self.wf(),
            cursor_pos + self.scroll() <= usize::MAX,
        ensures
            self.settings_of().filter_search ==> match r {
                Some(v) => cursor_pos + self.scroll() < self.buf().matched().len() && v@ == self.buf().matched()[cursor_pos + self.scroll()].1,
                None => cursor_pos + self.scroll() >= self.buf().matched().len(),
            },
            !self.settings_of().filter_search ==> match r {
                Some(v) => exists|i: int| 0 <= i < self.buf().matched().len() && self.buf().matched()[i].0 == cursor_pos + self.scroll()
                    && v@ == #[trigger] self.buf().matched()[i].1,
                None => forall|i: int| 0 <= i < self.buf().matched().len() ==> #[trigger] self.buf().matched()[i].0 != cursor_pos + self.scroll(),
            },
    {
        let idx = self.cursor_pos_to_visible_item_index(cursor_pos);
        if self._settings.filter_search {
            self.ls_output_buf.match_at(idx)
        } else {
            self.ls_output_buf.match_of_item(idx)
        }
    }

    /// Sets the size of the main window, keeping the cursor in view; when the
    /// window grows, it scrolls back as far as the added rows allow, with
    /// the cursor staying on its item.
    pub fn update_main_window_dimensions(&mut self, w: usize, h: usize)
        requires
            old(self).wf(),
            h >= 1,
        ensures
            final(self).wf(),
            final(self).window_width() == w,
            final(self).window_height() == h,
            final(self).buf() == old(self).buf(),
            final(self).search() == old(self).search(),
            final(self).path() == old(self).path(),
            final(self).messages() == old(self).messages(),
            final(self).settings_of() == old(self).settings_of(),
            final(self).history_of() == old(self).history_of(),
            (final(self).cursor(), final(self).scroll()) == view_after_resize(
                old(self).cursor(), old(self).scroll(), old(self).visible().len() as int, old(self).window_height(), h as int),
    {
        let delta_h: usize = if h > self.main_win_h { h - self.main_win_h } else { 0 };
        self.main_win_w = w;
        self.main_win_h = h;
        self.move_cursor(0, false);
        if delta_h > 0 {
            let old_scroll_pos = self.scroll_pos;
            self.scroll_pos = if self.scroll_pos > delta_h { self.scroll_pos - delta_h } else { 0 };
            self.cursor_pos = self.cursor_pos + (old_scroll_pos - self.scroll_pos);
        }
    }
}

/// The items that are folders, in order.
pub open spec fn folders_of(s: Seq<CustomDirEntry>) -> Seq<CustomDirEntry>
    decreases s.len(),
{
    if s.len() == 0 {
        Seq::empty()
    } else if s.last().is_folder {
        folders_of(s.drop_last()).push(s.last())
    } else {
        folders_of(s.drop_last())
    }
}

/// Keeps the folders among the items; see [`folders_of`].
fn folders_only(entries: Vec<CustomDirEntry>) -> (r: Vec<CustomDirEntry>)
    ensures
        r@ == folders_of(entries@),
{
    let ghost s = entries@;
    let mut r: Vec<CustomDirEntry> = Vec::new();
    for e in it: entries
        invariant
            it.seq() == s,
            r@ == folders_of(s.take(it.index() as int)),
    {
        proof {
            assert(s.take(it.index() + 1).drop_last() =~= s.take(it.index() as int));
            assert(s.take(it.index() + 1).last() == e);
        }
        if e.is_folder {
            r.push(e);
        }
    }
    assert(s.take(s.len() as int) =~= s);
    r
}

proof fn lemma_folders_len(s: Seq<CustomDirEntry>)
    ensures
        folders_of(s).len() <= s.len(),
    decreases s.len(),
{
    if s.len() > 0 {
        lemma_folders_len(s.drop_last());
    }
}

proof fn lemma_sorted_len(mode: SortMode, items: Seq<CustomDirEntry>, r: Seq<CustomDirEntry>)
    requires
        stably_sorted(mode, items, r),
    ensures
        r.len() == items.len(),
{
    let order = choose|order: Seq<int>| #[trigger] crate::listing::sorted_order(mode, items, order) && r == order.map_values(|i: int| items[i]);
    assert(r.len() == order.len());
}

/// `items` is the listing of a folder whose entries were read as `entries`:
/// the entry of the parent folder, then the entries that are shown (only
/// folders, if files are hidden), sorted stably.
pub open spec fn listing_of(items: Seq<CustomDirEntry>, entries: Seq<CustomDirEntry>, parent: CustomDirEntry, st: TereSettings) -> bool {
    let shown = if st.file_handling_mode == FileHandlingMode::Hide { folders_of(entries) } else { entries };
    &&& items.len() >= 1
    &&& items[0] == parent
    &&& stably_sorted(st.sort_mode, shown, items.drop_first())
}

/// The cursor row and scroll position when a listing is shown from its
/// top: one item down from the top, then on the item named `last`, if
/// there is one.
pub open spec fn start_view(vis: Seq<CustomDirEntry>, h: int, last: Option<Seq<char>>) -> (int, int) {
    let v = view_after(0, 0, vis.len() as int, h, 1, false);
    match last {
        Some(name) => find_view(vis, h, v.0, v.1, name),
        None => v,
    }
}

/// The absolute folder for a target: the target if it is absolute, else
/// the target after `current`, normalized.
pub open spec fn cd_target_of(current: Seq<char>, target: Seq<char>) -> Seq<char> {
    if is_absolute(target) {
        target
    } else {
        normalized(join_path(current, target))
    }
}

/// `after` is `before` with the search changed to `q`: the items are matched
/// against it, and the cursor placed as [`view_after_search`] says.
pub open spec fn searched(before: TereAppState, after: TereAppState, q: Seq<char>) -> bool {
    &&& after.same_frame(before)
    &&& after.search() == q
    &&& after.buf().items() == before.buf().items()
    &&& after.buf().matched() == search_matches(before.buf().items(), before.settings_of(), q)
    &&& (after.cursor(), after.scroll()) == view_after_search(before.name_at_pointer(),
        before.settings_of().filter_search, after.searching(), after.visible(), after.kept(),
        before.window_height(), before.cursor(), before.scroll())
}

/// Whether a search for `q` tells upper and lower case apart.
pub open spec fn is_case_sensitive(mode: CaseSensitiveMode, q: Seq<char>) -> bool {
    match mode {
        CaseSensitiveMode::IgnoreCase => false,
        CaseSensitiveMode::CaseSensitive => true,
        CaseSensitiveMode::SmartCase => has_uppercase(q),
    }
}

/// The regular expression for the search `q`: in lower case unless the
/// search is case sensitive.
pub open spec fn pattern_for(st: TereSettings, q: Seq<char>) -> Seq<char> {
    search_regex(if is_case_sensitive(st.case_sensitive, q) { q } else { lowercased(q) }, st.gap_search_mode)
}

/// The items that match the search `q`, with the spans of each match; files
/// take part only if they are not ignored. A pattern that cannot be compiled
/// matches nothing.
pub open spec fn search_matches(items: Seq<CustomDirEntry>, st: TereSettings, q: Seq<char>) -> Seq<(int, Seq<(usize, usize)>)> {
    let p = pattern_for(st, q);
    if regex_compiles(p) {
        matches_of(p, items, is_case_sensitive(st.case_sensitive, q), st.file_handling_mode == FileHandlingMode::Ignore)
    } else {
        Seq::empty()
    }
}

/// The cursor row and scroll position after the window height changes from
/// `old_h` to `h`.
pub open spec fn view_after_resize(cursor: int, scroll: int, n: int, old_h: int, h: int) -> (int, int) {
    let v = view_after(cursor, scroll, n, h, 0, false);
    if h > old_h {
        let s = if v.1 > h - old_h { v.1 - (h - old_h) } else { 0 };
        (v.0 + (v.1 - s), s)
    } else {
        v
    }
}

/// The cursor row and scroll position after moving to an adjacent match;
/// see [`TereAppState::move_cursor_to_adjacent_match`].
pub open spec fn adjacent_view(searching: bool, filter: bool, kept: Seq<int>, n: int, h: int, cursor: int, scroll: int, dir: int) -> (int, int) {
    if !searching {
        (cursor, scroll)
    } else if kept.len() == 0 || filter {
        view_after(cursor, scroll, n, h, if dir > 0 { 1 } else if dir < 0 { -1 } else { 0 }, true)
    } else {
        view_after(cursor, scroll, n, h, adjacent_row(kept, cursor + scroll, dir) - (cursor + scroll), false)
    }
}

/// The cursor row and scroll position after moving to the first of `vis`
/// named `name`, if there is one.
pub open spec fn find_view(vis: Seq<CustomDirEntry>, h: int, cursor: int, scroll: int, name: Seq<char>) -> (int, int) {
    match index_of_name(vis, name) {
        Some(i) => view_after(cursor, scroll, vis.len() as int, h, i - (cursor + scroll), false),
        None => (cursor, scroll),
    }
}

/// The cursor row and scroll position after the search changed: while
/// filtering, on the item that was under the cursor (`prev`), or else on the
/// first visible item; otherwise on the match at or after the cursor.
pub open spec fn view_after_search(prev: Option<Seq<char>>, filter: bool, searching: bool, vis: Seq<CustomDirEntry>,
    kept: Seq<int>, h: int, cursor: int, scroll: int) -> (int, int) {
    if filter {
        match prev {
            None => (cursor, scroll),
            Some(name) => match index_of_name(vis, name) {
                Some(i) => view_after(cursor, scroll, vis.len() as int, h, i - (cursor + scroll), false),
                None => view_after(cursor, scroll, vis.len() as int, h, 0 - (cursor + scroll), false),
            },
        }
    } else {
        adjacent_view(searching, false, kept, vis.len() as int, h, cursor, scroll, 0)
    }
}

/// The first place of an item with the given name.
pub open spec fn index_of_name(items: Seq<CustomDirEntry>, name: Seq<char>) -> Option<int>
    decreases items.len(),
{
    if items.len() == 0 {
        None
    } else if items[0].file_name@ == name {
        Some(0)
    } else {
        match index_of_name(items.drop_first(), name) {
            Some(i) => Some(i + 1),
            None => None,
        }
    }
}

proof fn lemma_index_of_name(items: Seq<CustomDirEntry>, name: Seq<char>)
    ensures
        match index_of_name(items, name) {
            Some(i) => 0 <= i < items.len() && items[i].file_name@ == name
                && forall|j: int| 0 <= j < i ==> (#[trigger] items[j]).file_name@ != name,
            None => forall|j: int| 0 <= j < items.len() ==> (#[trigger] items[j]).file_name@ != name,
        },
    decreases items.len(),
{
    if items.len() > 0 {
        lemma_index_of_name(items.drop_first(), name);
        assert forall|j: int| 1 <= j < items.len() implies #[trigger] items[j] == items.drop_first()[j - 1] by {}
    }
}

/// The place in `kept` of the first index that is at least `cur`, looking
/// from place `j` on.
pub open spec fn first_at_or_after(kept: Seq<int>, cur: int, j: int) -> Option<int>
    decreases kept.len() - j,
{
    if j < 0 || j >= kept.len() {
        None
    } else if kept[j] >= cur {
        Some(j)
    } else {
        first_at_or_after(kept, cur, j + 1)
    }
}

/// The index among all items of the match to move to, from the item at `cur`:
/// the first match at or after `cur` (or the first match, if there is none
/// after it) for `dir` zero, the one after that for a positive `dir` and the
/// one before for a negative one, wrapping around.
pub open spec fn adjacent_row(kept: Seq<int>, cur: int, dir: int) -> int {
    let ci = match first_at_or_after(kept, cur, 0) {
        Some(j) => j,
        None => 0,
    };
    if dir < 0 {
        kept[if ci == 0 { kept.len() - 1 } else { ci - 1 }]
    } else if dir > 0 {
        kept[(ci + 1) % (kept.len() as int)]
    } else {
        kept[ci]
    }
}

/// Increasing indices below `n` are at most `n` in number.
proof fn lemma_increasing_below(ms: Seq<(int, Seq<(usize, usize)>)>, n: int)
    requires
        0 <= n,
        crate::listing::indices_ok(ms, n),
    ensures
        ms.len() <= n,
    decreases ms.len(),
{
    if ms.len() > 0 {
        let init = ms.drop_last();
        assert(crate::listing::indices_ok(init, ms.last().0)) by {
            assert forall|i: int| 0 <= i < init.len() implies 0 <= #[trigger] init[i].0 < ms.last().0 by {
                assert(ms[i].0 < ms[ms.len() - 1].0);
            }
            assert forall|i: int, j: int| 0 <= i < j < init.len() implies #[trigger] init[i].0 < #[trigger] init[j].0 by {
                assert(ms[i].0 < ms[j].0);
            }
        }
        assert(0 <= ms[ms.len() - 1].0 < n);
        lemma_increasing_below(init, ms.last().0);
    }
}

/// How a change of folder went, when it did not fail.
#[derive(Debug)]
pub enum CdResult {
    /// The folder was changed as asked.
    Success,
    /// The folder asked for could not be entered, so a folder one or more
    /// levels above it was entered instead.
    MovedUpwards {
        /// The absolute path of the folder asked for.
        target_abs_path: String,
        /// Why it could not be entered.
        root_error: std::io::Error,
    },
}

/// What trying to read a folder gave.
#[derive(Debug)]
pub enum ReadDirOutcome {
    /// The folder can be read.
    Readable,
    /// The folder does not exist, or may not be read.
    Unreachable(std::io::Error),
    /// Any other error.
    Failed(std::io::Error),
}

/// The kinds of input/output error that a change of folder tells apart.
#[derive(Debug, Clone, Copy, PartialEq, Eq, Structural)]
pub enum IoErrorKind {
    /// The folder does not exist.
    NotFound,
    /// The folder may not be read.
    PermissionDenied,
    /// Any other kind.
    Other,
}

/// The kind of an input/output error, as `std::io::Error::kind` gives it,
/// with the kinds that a change of folder does not tell apart taken together.
pub uninterp spec fn io_kind_of(e: std::io::Error) -> IoErrorKind;

/// `std::io::Error::kind`: the kind carried by the error, NotFound and
/// PermissionDenied kept apart and every other kind given as `Other`. The
/// result is named [`io_kind_of`]; it depends on the error alone.
#[verifier::external_body]
fn io_error_kind(e: &std::io::Error) -> (k: IoErrorKind)
    ensures
        k == io_kind_of(*e),
{
    match e.kind() {
        std::io::ErrorKind::NotFound => IoErrorKind::NotFound,
        std::io::ErrorKind::PermissionDenied => IoErrorKind::PermissionDenied,
        _ => IoErrorKind::Other,
    }
}

impl ReadDirOutcome {
    /// The outcome of a read error of the given kind: a folder that does not
    /// exist or may not be read is unreachable; any other error fails.
    pub fn of_error(e: std::io::Error, kind: IoErrorKind) -> (r: ReadDirOutcome)
        ensures
            match kind {
                IoErrorKind::NotFound | IoErrorKind::PermissionDenied => r matches ReadDirOutcome::Unreachable(x) && x == e,
                IoErrorKind::Other => r matches ReadDirOutcome::Failed(x) && x == e,
            },
    {
        match kind {
            IoErrorKind::NotFound | IoErrorKind::PermissionDenied => ReadDirOutcome::Unreachable(e),
            IoErrorKind::Other => ReadDirOutcome::Failed(e),
        }
    }

    /// The outcome of reading a folder: readable when the read succeeded,
    /// else the error, unreachable when its kind is NotFound or
    /// PermissionDenied and failed otherwise (see [`Self::of_error`]).
    pub fn of_read(read: Result<(), std::io::Error>) -> (r: ReadDirOutcome)
        ensures
            read is Ok ==> r is Readable,
            read matches Err(e) ==> match io_kind_of(e) {
                IoErrorKind::NotFound | IoErrorKind::PermissionDenied => r matches ReadDirOutcome::Unreachable(x) && x == e,
                IoErrorKind::Other => r matches ReadDirOutcome::Failed(x) && x == e,
            },
    {
        match read {
            Ok(()) => ReadDirOutcome::Readable,
            Err(e) => {
                let kind = io_error_kind(&e);
                ReadDirOutcome::of_error(e, kind)
            },
        }
    }
}

/// The search for a folder to change to: the folder asked for, or else the
/// nearest folder above it that can be read.
pub struct CdSearch {
    base: String,
    target_abs: String,
    candidate: String,
    result: CdResult,
}

/// What comes after trying a folder.
pub enum CdStep {
    /// This folder (an absolute path) can be entered.
    Found(String, CdResult),
    /// The next folder to try.
    Retry(CdSearch),
    /// An error that ends the change of folder.
    Failed(std::io::Error),
}

/// What one step of a search gives for the outcome of reading its folder: a
/// readable folder is the one to enter, with the outcome so far; after a
/// folder that does not exist or may not be read, its parent (or the root) is
/// tried next and the first such error is kept; any other error ends the
/// search with that error.
pub open spec fn stepped(s: CdSearch, outcome: ReadDirOutcome, r: CdStep) -> bool {
    match outcome {
        ReadDirOutcome::Readable => r matches CdStep::Found(p, res) && p@ == full_path_of(s.base_of(), s.candidate_of())
            && (match res {
                CdResult::Success => !s.moved_of(),
                CdResult::MovedUpwards { target_abs_path, root_error } => s.moved_of() && target_abs_path@ == s.target_of()
                    && root_error == s.result_error(),
            }),
        ReadDirOutcome::Unreachable(e) => r matches CdStep::Retry(next) && next.wf()
            && next.base_of() == s.base_of() && next.target_of() == s.target_of()
            && next.candidate_of() == next_candidate(s.candidate_of()) && next.moved_of()
            && next.result_error() == (if s.moved_of() { s.result_error() } else { e }),
        ReadDirOutcome::Failed(e) => r matches CdStep::Failed(err) && err == e,
    }
}

/// The folder tried after `k` folders could not be reached, starting from
/// `c`: each time the parent, or the root where there is none.
pub open spec fn nth_candidate(c: Seq<char>, k: nat) -> Seq<char>
    decreases k,
{
    if k == 0 {
        c
    } else {
        next_candidate(nth_candidate(c, (k - 1) as nat))
    }
}

/// The folder that is tried for a candidate: itself if it is absolute, else
/// after the base folder, normalized.
pub open spec fn full_path_of(base: Seq<char>, candidate: Seq<char>) -> Seq<char> {
    if is_absolute(candidate) {
        candidate
    } else {
        normalized(join_path(base, candidate))
    }
}

/// The folder to try after one that could not be reached: its parent, or
/// the root if it has none.
pub open spec fn next_candidate(candidate: Seq<char>) -> Seq<char> {
    match parent_of(candidate) {
        Some(p) => p,
        None => seq!['/'],
    }
}

impl CdSearch {
    /// The folder the current state's folder was when the search began.
    pub closed spec fn base_of(self) -> Seq<char> {
        self.base@
    }

    /// The absolute folder asked for.
    pub closed spec fn target_of(self) -> Seq<char> {
        self.target_abs@
    }

    /// The folder to try next, as a path.
    pub closed spec fn candidate_of(self) -> Seq<char> {
        self.candidate@
    }

    /// Whether a folder could not be reached yet.
    pub closed spec fn moved_of(self) -> bool {
        self.result is MovedUpwards
    }

    /// The outcome so far holds the folder asked for.
    pub closed spec fn wf(self) -> bool {
        self.result matches CdResult::MovedUpwards { target_abs_path, .. } ==> target_abs_path@ == self.target_abs@
    }

    /// Starts a change of the state's folder to `path`; see
    /// [`TereAppState::cd_target`].
    pub fn new(state: &TereAppState, path: &str) -> (r: CdSearch)
        requires
            state.wf(),
        ensures
            r.wf(),
            r.base_of() == state.path(),
            r.target_of() == cd_target_of(state.path(), if path@.len() == 0 {
                match state.name_at_pointer() {
                    Some(name) => name,
                    None => Seq::empty(),
                }
            } else {
                path@
            }),
            r.candidate_of() == r.target_of(),
            !r.moved_of(),
    {
        let target = state.cd_target(path);
        CdSearch { base: state.current_path.clone(), target_abs: target.clone(), candidate: target, result: CdResult::Success }
    }

    /// The folder to try now.
    pub fn next_dir(&self) -> (r: String)
        ensures
            r@ == full_path_of(self.base_of(), self.candidate_of()),
    {
        if path_is_absolute(self.candidate.as_str()) {
            self.candidate.clone()
        } else {
            let joined = path_join(self.base.as_str(), self.candidate.as_str());
            normalize_path(joined.as_str())
        }
    }

    /// Goes on from the outcome of reading [`Self::next_dir`]: a readable
    /// folder is the one to enter; after a folder that does not exist or may
    /// not be read, its parent is tried, and the first such error is kept for
    /// the outcome; any other error ends the search.
    pub fn step(self, outcome: ReadDirOutcome) -> (r: CdStep)
        requires
            self.wf(),
        ensures
            stepped(self, outcome, r),
    {
        match outcome {
            ReadDirOutcome::Readable => {
                let p = self.next_dir();
                CdStep::Found(p, self.result)
            },
            ReadDirOutcome::Unreachable(e) => {
                let candidate = match path_parent(self.candidate.as_str()) {
                    Some(p) => p,
                    None => {
                        proof {
                            reveal_strlit("/");
                        }
                        let root = String::from_str("/");
                        assert(root@ =~= seq!['/']);
                        root
                    },
                };
                assert(candidate@ == next_candidate(self.candidate@));
                let result = match self.result {
                    CdResult::Success => CdResult::MovedUpwards { target_abs_path: self.target_abs.clone(), root_error: e },
                    moved => moved,
                };
                CdStep::Retry(CdSearch { base: self.base, target_abs: self.target_abs, candidate, result })
            },
            ReadDirOutcome::Failed(e) => CdStep::Failed(e),
        }
    }

    /// The error kept for the outcome, if a folder could not be reached.
    pub closed spec fn result_error(self) -> std::io::Error {
        match self.result {
            CdResult::MovedUpwards { root_error, .. } => root_error,
            CdResult::Success => arbitrary(),
        }
    }
}

/// The message shown when there are no warnings.
pub open spec fn welcome_message() -> Seq<char> {
    "tere 1.5.1 - Type something to search, press '?' to view help or Esc to exit."@
}

/// The warnings joined by spaces.
pub open spec fn joined_warnings(ws: Seq<&'static str>) -> Seq<char>
    decreases ws.len(),
{
    if ws.len() == 0 {
        Seq::empty()
    } else if ws.len() == 1 {
        ws[0]@
    } else {
        joined_warnings(ws.drop_last()) + " "@ + ws.last()@
    }
}

/// The first info message: the name and version of the program with a
/// hint, or the deprecation warnings.
pub open spec fn first_info_message(ws: Seq<&'static str>) -> Seq<char> {
    if ws.len() == 0 {
        welcome_message()
    } else {
        "Warning: "@ + joined_warnings(ws)
    }
}

impl TereAppState {
    /// The state at the start, in the folder `cwd` with an empty listing and
    /// a window of one row: the history read from its file goes to `cwd`, or
    /// a new history is made from `cwd`. The listing is then given to
    /// [`Self::show_new_listing`].
    pub fn init(settings: TereSettings, warnings: &DeprecationWarnings, cwd: &str, saved_history: Option<HistoryTree>) -> (r: TereAppState)
        requires
            saved_history matches Some(t) ==> t.wf(),
        ensures
            r.wf(),
            r.path() == cwd@,
            r.messages() == (cwd@, first_info_message(warnings@)),
            r.settings_of() == settings,
            r.search().len() == 0,
            r.buf().items().len() == 0,
            r.cursor() == 0,
            r.scroll() == 0,
            r.window_height() == 1,
            r.window_width() == 1,
            r.history_of().current_labels_of() == seq![match saved_history {
                Some(t) => t.root_of().label_of(),
                None => seq!['/'],
            }] + visited_names(cwd@),
            saved_history matches Some(t) ==> visited_chain(t, r.history_of(), visited_names(cwd@)),
            saved_history is None ==> exists|start: HistoryTree|
                #[trigger] lone_root(start) && visited_chain(start, r.history_of(), visited_names(cwd@)),
    {
        let mut info_msg = String::new();
        proof {
            reveal_strlit("tere 1.5.1 - Type something to search, press '?' to view help or Esc to exit.");
            reveal_strlit("Warning: ");
            reveal_strlit(" ");
        }
        if warnings.len() == 0 {
            info_msg.append("tere 1.5.1 - Type something to search, press '?' to view help or Esc to exit.");
        } else {
            info_msg.append("Warning: ");
            let mut i: usize = 0;
            while i < warnings.len()
                invariant
                    0 <= i <= warnings@.len(),
                    info_msg@ == "Warning: "@ + joined_warnings(warnings@.take(i as int)),
                decreases warnings@.len() - i,
            {
                proof {
                    assert(warnings@.take(i + 1).drop_last() =~= warnings@.take(i as int));
                }
                if i > 0 {
                    info_msg.append(" ");
                }
                info_msg.append(warnings[i]);
                proof {
                    if i == 0 {
                        assert(joined_warnings(warnings@.take(1)) == warnings@[0]@);
                    }
                    assert(info_msg@ =~= "Warning: "@ + joined_warnings(warnings@.take(i + 1)));
                }
                i = i + 1;
            }
            assert(warnings@.take(warnings@.len() as int) =~= warnings@);
        }
        let history = match saved_history {
            Some(t) => {
                let mut t = t;
                t.change_dir(cwd);
                t
            },
            None => HistoryTree::from_abs_path(cwd),
        };
        let mut r = TereAppState {
            main_win_w: 1,
            main_win_h: 1,
            ls_output_buf: MatchesVec::from(Vec::new()),
            current_path: String::from_str(cwd),
            cursor_pos: 0,
            scroll_pos: 0,
            search_string: String::new(),
            header_msg: String::new(),
            info_msg,
            _settings: settings,
            history,
        };
        r.update_header();
        r
    }
}

/// After any move among a non-empty list of visible items, the cursor is on
/// a row of the window and points to an item: the one the move aims at.
pub proof fn law_move_stays_in_view(cursor: int, scroll: int, n: int, h: int, amount: int, wrap: bool)
    requires
        cursor >= 0,
        scroll >= 0,
        n > 0,
        h >= 1,
    ensures
        ({
            let (c, s) = view_after(cursor, scroll, n, h, amount, wrap);
            &&& 0 <= c < h
            &&& 0 <= s
            &&& c + s == pointer_after(cursor + scroll, n, amount, wrap)
            &&& 0 <= c + s < n
        }),
{
}

/// Moving down one item and then up one item, wrapping around, comes back to
/// the same item.
pub proof fn law_wrap_round_trip(p: int, n: int)
    requires
        0 <= p < n,
    ensures
        pointer_after(pointer_after(p, n, 1, true), n, -1, true) == p,
        pointer_after(pointer_after(p, n, -1, true), n, 1, true) == p,
{
    lemma_small_mod(p as nat, n as nat);
    if p + 1 < n {
        lemma_small_mod((p + 1) as nat, n as nat);
        lemma_small_mod(p as nat, n as nat);
    } else {
        lemma_mod_add_multiples_vanish(0, n);
        lemma_small_mod(0, n as nat);
        lemma_mod_add_multiples_vanish(-1, n);
        lemma_small_mod((n - 1) as nat, n as nat);
    }
    if p >= 1 {
        lemma_small_mod((p - 1) as nat, n as nat);
    } else {
        lemma_mod_add_multiples_vanish(-1, n);
        lemma_small_mod((n - 1) as nat, n as nat);
        lemma_mod_sub_multiples_vanish(n, n);
        lemma_mod_add_multiples_vanish(0, n);
        lemma_small_mod(0, n as nat);
    }
}

/// Moving the cursor to a place among the visible items puts it on that item.
pub proof fn law_move_to_lands_on_row(cursor: int, scroll: int, n: int, h: int, row: int)
    requires
        cursor >= 0,
        scroll >= 0,
        h >= 1,
        0 <= row < n,
    ensures
        ({
            let (c, s) = view_after(cursor, scroll, n, h, row - (cursor + scroll), false);
            c + s == row && 0 <= c < h
        }),
{
    law_move_stays_in_view(cursor, scroll, n, h, row - (cursor + scroll), false);
}

/// Moving to a name that is shown puts the cursor on the first item with that
/// name.
pub proof fn law_find_lands_on_name(vis: Seq<CustomDirEntry>, h: int, cursor: int, scroll: int, name: Seq<char>)
    requires
        cursor >= 0,
        scroll >= 0,
        h >= 1,
        index_of_name(vis, name) is Some,
    ensures
        ({
            let (c, s) = find_view(vis, h, cursor, scroll, name);
            &&& 0 <= c + s < vis.len()
            &&& vis[c + s].file_name@ == name
            &&& forall|j: int| 0 <= j < c + s ==> (#[trigger] vis[j]).file_name@ != name
        }),
{
    lemma_index_of_name(vis, name);
    let i = index_of_name(vis, name)->0;
    law_move_to_lands_on_row(cursor, scroll, vis.len() as int, h, i);
}

/// While searching without filtering, moving to an adjacent match puts the
/// cursor on a matching item, if there is one.
pub proof fn law_adjacent_lands_on_match(kept: Seq<int>, n: int, h: int, cursor: int, scroll: int, dir: int)
    requires
        cursor >= 0,
        scroll >= 0,
        h >= 1,
        kept.len() > 0,
        forall|k: int| 0 <= k < kept.len() ==> 0 <= #[trigger] kept[k] < n,
    ensures
        ({
            let (c, s) = adjacent_view(true, false, kept, n, h, cursor, scroll, dir);
            exists|k: int| 0 <= k < kept.len() && #[trigger] kept[k] == c + s
        }),
{
    let cur = cursor + scroll;
    let ci = match first_at_or_after(kept, cur, 0) {
        Some(j) => j,
        None => 0,
    };
    lemma_first_at_or_after_range(kept, cur, 0);
    let k = if dir < 0 {
        if ci == 0 { kept.len() - 1 } else { ci - 1 }
    } else if dir > 0 {
        (ci + 1) % (kept.len() as int)
    } else {
        ci
    };
    assert(adjacent_row(kept, cur, dir) == kept[k]);
    law_move_to_lands_on_row(cursor, scroll, n, h, kept[k]);
}

proof fn lemma_first_at_or_after_range(kept: Seq<int>, cur: int, j: int)
    ensures
        first_at_or_after(kept, cur, j) matches Some(i) ==> 0 <= j <= i < kept.len(),
    decreases kept.len() - j,
{
    if 0 <= j < kept.len() && kept[j] < cur {
        lemma_first_at_or_after_range(kept, cur, j + 1);
    }
}

/// Adding a character to the search and erasing it again gives back the
/// search and, if the matches were up to date, the same matches.
pub proof fn law_advance_then_erase(st0: TereAppState, st1: TereAppState, st2: TereAppState, c: char)
    requires
        st0.buf().matched() == search_matches(st0.buf().items(), st0.settings_of(), st0.search()),
        searched(st0, st1, st0.search().push(c)),
        searched(st1, st2, st1.search().drop_last()),
    ensures
        st2.search() == st0.search(),
        st2.buf().items() == st0.buf().items(),
        st2.buf().matched() == st0.buf().matched(),
        st2.same_frame(st0),
{
    assert(st0.search().push(c).drop_last() =~= st0.search());
}

/// After the search changes, the matches are exactly the items that the
/// pattern of the search matches, in order.
pub proof fn law_matches_are_matching_items(items: Seq<CustomDirEntry>, st: TereSettings, q: Seq<char>, i: int)
    requires
        0 <= i < items.len(),
        regex_compiles(pattern_for(st, q)),
    ensures
        (exists|k: int| 0 <= k < search_matches(items, st, q).len() && #[trigger] search_matches(items, st, q)[k].0 == i)
            <==> crate::listing::item_match(pattern_for(st, q), items[i], is_case_sensitive(st.case_sensitive, q),
                st.file_handling_mode == FileHandlingMode::Ignore) is Some,
{
    let p = pattern_for(st, q);
    let cs = is_case_sensitive(st.case_sensitive, q);
    let ig = st.file_handling_mode == FileHandlingMode::Ignore;
    assert(search_matches(items, st, q) == matches_of(p, items, cs, ig));
    crate::listing::lemma_matches_of_members(p, items, cs, ig, i);
}

/// With smart case, a search without upper case letters ignores case: it
/// is matched in lower case against names in lower case; with an upper case
/// letter it is matched as it is against the names as they are.
pub proof fn law_smart_case(st: TereSettings, q: Seq<char>)
    requires
        st.case_sensitive == CaseSensitiveMode::SmartCase,
    ensures
        !has_uppercase(q) ==> pattern_for(st, q) == search_regex(lowercased(q), st.gap_search_mode)
            && !is_case_sensitive(st.case_sensitive, q),
        has_uppercase(q) ==> pattern_for(st, q) == search_regex(q, st.gap_search_mode)
            && is_case_sensitive(st.case_sensitive, q),
{
}

/// From an absolute folder, every change of folder aims at an absolute
/// folder.
pub proof fn law_cd_target_absolute(current: Seq<char>, target: Seq<char>)
    requires
        is_absolute(current),
    ensures
        is_absolute(cd_target_of(current, target)),
{
    if !is_absolute(target) {
        let j = join_path(current, target);
        assert(j[0] == current[0]);
        crate::paths::law_normalized_absolute(j);
    }
}


/// After `k` steps over folders that could not be reached, the search still
/// goes from the same folder to the same target, tries the `k`-th parent of
/// its first candidate, and, after at least one step, keeps the first error.
proof fn lemma_cd_walk_prefix(searches: Seq<CdSearch>, errors: Seq<std::io::Error>, k: int)
    requires
        searches.len() == errors.len() + 1,
        !searches[0].moved_of(),
        forall|i: int| 0 <= i < errors.len() ==> #[trigger] stepped(searches[i], ReadDirOutcome::Unreachable(errors[i]), CdStep::Retry(searches[i + 1])),
        0 <= k < searches.len(),
    ensures
        searches[k].base_of() == searches[0].base_of(),
        searches[k].target_of() == searches[0].target_of(),
        searches[k].candidate_of() == nth_candidate(searches[0].candidate_of(), k as nat),
        searches[k].moved_of() == (k > 0),
        k > 0 ==> searches[k].result_error() == errors[0],
    decreases k,
{
    if k > 0 {
        lemma_cd_walk_prefix(searches, errors, k - 1);
        let j = k - 1;
        assert(stepped(searches[j], ReadDirOutcome::Unreachable(errors[j]), CdStep::Retry(searches[j + 1])));
        assert(j + 1 == k);
    }
}

/// A whole change of folder: when the folder asked for and the `n` folders
/// tried after it could not be reached and the next one can be read, that one
/// is entered: the `n`-th parent (or the root) of the folder asked for. The
/// outcome is a success exactly when `n` is zero, and otherwise names the
/// folder asked for and keeps the error of the first try.
pub proof fn law_cd_walk(searches: Seq<CdSearch>, errors: Seq<std::io::Error>, last: CdStep)
    requires
        searches.len() == errors.len() + 1,
        !searches[0].moved_of(),
        forall|i: int| 0 <= i < errors.len() ==> #[trigger] stepped(searches[i], ReadDirOutcome::Unreachable(errors[i]), CdStep::Retry(searches[i + 1])),
        stepped(searches.last(), ReadDirOutcome::Readable, last),
    ensures
        last matches CdStep::Found(p, res)
            && p@ == full_path_of(searches[0].base_of(), nth_candidate(searches[0].candidate_of(), errors.len() as nat))
            && (res is Success <==> errors.len() == 0)
            && (res matches CdResult::MovedUpwards { target_abs_path, root_error } ==>
                target_abs_path@ == searches[0].target_of() && root_error == errors[0]),
{
    let n = errors.len() as int;
    lemma_cd_walk_prefix(searches, errors, n);
    assert(searches.last() == searches[n]);
}


/// Ignoring case, the search does not tell case apart: two searches with the
/// same text in lower case find the same matches, and the search is the
/// lower-cased query matched against the names in lower case.
pub proof fn law_ignore_case(items: Seq<CustomDirEntry>, st: TereSettings, q1: Seq<char>, q2: Seq<char>)
    requires
        st.case_sensitive == CaseSensitiveMode::IgnoreCase,
        lowercased(q1) == lowercased(q2),
    ensures
        search_matches(items, st, q1) == search_matches(items, st, q2),
        pattern_for(st, q1) == search_regex(lowercased(q1), st.gap_search_mode),
        !is_case_sensitive(st.case_sensitive, q1),
        search_matches(items, st, q1) == (if regex_compiles(search_regex(lowercased(q1), st.gap_search_mode)) {
            matches_of(search_regex(lowercased(q1), st.gap_search_mode), items, false, st.file_handling_mode == FileHandlingMode::Ignore)
        } else {
            Seq::empty()
        }),
{
}


/// Where the first match at or after `cur` (looking from place `j` on) is:
/// every earlier place holds an index below `cur`.
proof fn lemma_first_at_or_after_spec(kept: Seq<int>, cur: int, j: int)
    requires
        0 <= j,
    ensures
        match first_at_or_after(kept, cur, j) {
            Some(i) => j <= i < kept.len() && kept[i] >= cur
                && forall|t: int| j <= t < i ==> #[trigger] kept[t] < cur,
            None => forall|t: int| j <= t < kept.len() ==> #[trigger] kept[t] < cur,
        },
    decreases kept.len() - j,
{
    if j < kept.len() && kept[j] < cur {
        lemma_first_at_or_after_spec(kept, cur, j + 1);
    }
}

/// Moving to an adjacent match, while searching without filtering, over the
/// matches in increasing order of their places: the previous match is the
/// last one before the item under the cursor (or, if there is none, the last
/// match of all); the current one is the first at or after it (or, if there
/// is none, the first of all); from a match, the next one is the first after
/// it (or, if there is none, the first of all).
pub proof fn law_adjacent_match_order(kept: Seq<int>, n: int, h: int, cursor: int, scroll: int)
    requires
        cursor >= 0,
        scroll >= 0,
        h >= 1,
        kept.len() > 0,
        forall|k: int| 0 <= k < kept.len() ==> 0 <= #[trigger] kept[k] < n,
        forall|i: int, j: int| 0 <= i < j < kept.len() ==> kept[i] < kept[j],
    ensures
        ({
            let p = cursor + scroll;
            let (cb, sb) = adjacent_view(true, false, kept, n, h, cursor, scroll, -1);
            let b = cb + sb;
            &&& exists|k: int| 0 <= k < kept.len() && kept[k] == b
            &&& (exists|k: int| 0 <= k < kept.len() && kept[k] < p) ==> b < p
                && forall|k: int| 0 <= k < kept.len() && kept[k] < p ==> kept[k] <= b
            &&& (forall|k: int| 0 <= k < kept.len() ==> kept[k] >= p) ==> forall|k: int| 0 <= k < kept.len() ==> kept[k] <= b
        }),
        ({
            let p = cursor + scroll;
            let (cz, sz) = adjacent_view(true, false, kept, n, h, cursor, scroll, 0);
            let z = cz + sz;
            &&& exists|k: int| 0 <= k < kept.len() && kept[k] == z
            &&& (exists|k: int| 0 <= k < kept.len() && kept[k] >= p) ==> z >= p
                && forall|k: int| 0 <= k < kept.len() && kept[k] >= p ==> z <= kept[k]
            &&& (forall|k: int| 0 <= k < kept.len() ==> kept[k] < p) ==> forall|k: int| 0 <= k < kept.len() ==> z <= kept[k]
        }),
        ({
            let p = cursor + scroll;
            let (cf, sf) = adjacent_view(true, false, kept, n, h, cursor, scroll, 1);
            let f = cf + sf;
            &&& exists|k: int| 0 <= k < kept.len() && kept[k] == f
            &&& (exists|k: int| 0 <= k < kept.len() && kept[k] == p) && (exists|k: int| 0 <= k < kept.len() && kept[k] > p)
                ==> f > p && forall|k: int| 0 <= k < kept.len() && kept[k] > p ==> f <= kept[k]
            &&& (exists|k: int| 0 <= k < kept.len() && kept[k] == p) && (forall|k: int| 0 <= k < kept.len() ==> kept[k] <= p)
                ==> forall|k: int| 0 <= k < kept.len() ==> f <= kept[k]
        }),
{
    let p = cursor + scroll;
    let len = kept.len() as int;
    lemma_first_at_or_after_spec(kept, p, 0);
    let ci = match first_at_or_after(kept, p, 0) {
        Some(j) => j,
        None => 0,
    };
    let kb = if ci == 0 { len - 1 } else { ci - 1 };
    let kf = (ci + 1) % len;
    assert(adjacent_row(kept, p, -1) == kept[kb]);
    assert(adjacent_row(kept, p, 0) == kept[ci]);
    assert(adjacent_row(kept, p, 1) == kept[kf]);
    law_move_to_lands_on_row(cursor, scroll, n, h, kept[kb]);
    law_move_to_lands_on_row(cursor, scroll, n, h, kept[ci]);
    law_move_to_lands_on_row(cursor, scroll, n, h, kept[kf]);
    // Increasing places give increasing indices, and the other way round.
    assert forall|i: int, j: int| 0 <= i < len && 0 <= j < len && kept[i] < kept[j] implies i < j by {
        if j < i {
            assert(kept[j] < kept[i]);
        } else if j == i {
        }
    }
    assert forall|i: int, j: int| 0 <= i <= j < len implies kept[i] <= kept[j] by {
        if i < j {
            assert(kept[i] < kept[j]);
        }
    }
    match first_at_or_after(kept, p, 0) {
        Some(j) => {
            assert(kept[j] >= p);
            if ci > 0 {
                assert(kept[ci - 1] < p);
            }
            assert(exists|k: int| 0 <= k < len && kept[k] >= p);
            if exists|k: int| 0 <= k < len && kept[k] == p {
                let k0 = choose|k: int| 0 <= k < len && kept[k] == p;
                assert(k0 >= ci) by {
                    if k0 < ci {
                        assert(kept[k0] < p);
                    }
                }
                assert(kept[ci] <= kept[k0]);
                assert(kept[ci] == p);
                if ci + 1 < len {
                    vstd::arithmetic::div_mod::lemma_small_mod((ci + 1) as nat, len as nat);
                    assert(kf == ci + 1);
                    assert forall|k: int| 0 <= k < len && kept[k] > p implies kept[kf] <= kept[k] by {
                        assert(k > ci) by {
                            if k <= ci {
                                assert(kept[k] <= kept[ci]);
                            }
                        }
                    }
                    assert(kept[kf] > p);
                } else {
                    assert(ci + 1 == len);
                    vstd::arithmetic::div_mod::lemma_mod_self_0(len);
                    assert(kf == 0);
                    assert forall|k: int| 0 <= k < len implies kept[k] <= p by {
                        assert(kept[k] <= kept[ci]);
                    }
                }
            }
            assert forall|k: int| 0 <= k < len && kept[k] >= p implies kept[ci] <= kept[k] by {
                assert(k >= ci) by {
                    if k < ci {
                        assert(kept[k] < p);
                    }
                }
            }
            if ci == 0 {
                assert forall|k: int| 0 <= k < len implies kept[k] >= p by {
                    assert(kept[0] <= kept[k]);
                }
                assert forall|k: int| 0 <= k < len implies kept[k] <= kept[kb] by {
                    assert(kb == len - 1);
                }
            } else {
                assert forall|k: int| 0 <= k < len && kept[k] < p implies kept[k] <= kept[kb] by {
                    assert(k < ci) by {
                        if k >= ci {
                            assert(kept[ci] <= kept[k]);
                        }
                    }
                }
            }
        },
        None => {
            assert(ci == 0);
            assert(kept[0] < p);
            assert(kb == len - 1);
            assert(kept[kb] < p);
            assert forall|k: int| 0 <= k < len implies kept[0] <= #[trigger] kept[k] by {}
            assert forall|k: int| 0 <= k < len && kept[k] < p implies kept[k] <= kept[kb] by {}
            if exists|k: int| 0 <= k < len && kept[k] == p {
                let k0 = choose|k: int| 0 <= k < len && kept[k] == p;
                assert(kept[k0] < p);
            }
        },
    }
}

} // verus!
