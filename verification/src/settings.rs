//! The settings of the application, read from its command line arguments.
use vstd::prelude::*;
use crate::action::Action;
use crate::action::ActionContext;
use crate::error::TereError;
use crate::keys::{Keymap, default_keymap, default_keymap_text, keymap_from_texts, key_view, mappings_result, parse_keymap_arg};
use crate::paths::{join_path, split_on, path_join};
use crate::text::{chars_of, str_eq};
use vstd::string::StringExecFns;
use vstd::string::StrSliceExecFns;

verus! {

/// How to handle files while searching.
#[derive(Debug, PartialEq, Eq, Structural, Clone, Copy)]
pub enum FileHandlingMode {
    /// Display files in the listing, but search only folders (the default).
    Ignore,
    /// Hide files in the listing, only show folders.
    Hide,
    /// Match both files and folders while searching.
    Match,
}

/// The message shown when nothing matches the search.
pub open spec fn no_matches_text(m: FileHandlingMode) -> &'static str {
    match m {
        FileHandlingMode::Ignore => "No folders matching search",
        FileHandlingMode::Hide | FileHandlingMode::Match => "No matches",
    }
}

impl FileHandlingMode {
    /// When no item matches the search, display this message.
    pub fn no_matches_message(&self) -> (r: &'static str)
        ensures
            r == no_matches_text(*self),
    {
        match self {
            FileHandlingMode::Ignore => "No folders matching search",
            FileHandlingMode::Hide | FileHandlingMode::Match => "No matches",
        }
    }
}

impl Default for FileHandlingMode {
    fn default() -> (r: Self)
        ensures
            r == FileHandlingMode::Ignore,
    {
        FileHandlingMode::Ignore
    }
}

/// Whether the search distinguishes upper and lower case.
#[derive(Debug, PartialEq, Eq, Structural, Clone, Copy)]
pub enum CaseSensitiveMode {
    IgnoreCase,
    CaseSensitive,
    /// Case sensitive only if the search has an upper case letter (the default).
    SmartCase,
}

/// How a case-sensitivity mode is shown to the user.
pub open spec fn case_sensitive_text(m: CaseSensitiveMode) -> &'static str {
    match m {
        CaseSensitiveMode::IgnoreCase => "ignore case",
        CaseSensitiveMode::CaseSensitive => "case sensitive",
        CaseSensitiveMode::SmartCase => "smart case",
    }
}

/// The case-sensitivity mode after `m` in the order of declaration, cycling.
pub open spec fn next_case_sensitive(m: CaseSensitiveMode) -> CaseSensitiveMode {
    match m {
        CaseSensitiveMode::IgnoreCase => CaseSensitiveMode::CaseSensitive,
        CaseSensitiveMode::CaseSensitive => CaseSensitiveMode::SmartCase,
        CaseSensitiveMode::SmartCase => CaseSensitiveMode::IgnoreCase,
    }
}

impl CaseSensitiveMode {
    /// How this mode is shown to the user.
    pub fn display_text(&self) -> (r: &'static str)
        ensures
            r == case_sensitive_text(*self),
    {
        match self {
            CaseSensitiveMode::IgnoreCase => "ignore case",
            CaseSensitiveMode::CaseSensitive => "case sensitive",
            CaseSensitiveMode::SmartCase => "smart case",
        }
    }

    /// The mode that follows this one when the user changes the mode, in the
    /// order of declaration, after the last the first.
    pub fn next(&self) -> (r: CaseSensitiveMode)
        ensures
            r == next_case_sensitive(*self),
    {
        match self {
            CaseSensitiveMode::IgnoreCase => CaseSensitiveMode::CaseSensitive,
            CaseSensitiveMode::CaseSensitive => CaseSensitiveMode::SmartCase,
            CaseSensitiveMode::SmartCase => CaseSensitiveMode::IgnoreCase,
        }
    }
}

impl Default for CaseSensitiveMode {
    fn default() -> (r: Self)
        ensures
            r == CaseSensitiveMode::SmartCase,
    {
        CaseSensitiveMode::SmartCase
    }
}

/// Whether the search has to match consecutive characters, and whether it has
/// to match from the start of a name.
#[derive(Debug, PartialEq, Eq, Structural, Clone, Copy)]
pub enum GapSearchMode {
    NormalSearch,
    NormalSearchAnywhere,
    /// Match from the start, with gaps allowed (the default).
    GapSearchFromStart,
    GapSearchAnywhere,
}

/// How a search mode is shown to the user.
pub open spec fn gap_search_text(m: GapSearchMode) -> &'static str {
    match m {
        GapSearchMode::GapSearchFromStart => "gap search from start",
        GapSearchMode::NormalSearch => "normal search",
        GapSearchMode::NormalSearchAnywhere => "normal search anywhere",
        GapSearchMode::GapSearchAnywhere => "gap search anywhere",
    }
}

/// The search mode after `m` in the order of declaration, cycling.
pub open spec fn next_gap_search(m: GapSearchMode) -> GapSearchMode {
    match m {
        GapSearchMode::NormalSearch => GapSearchMode::NormalSearchAnywhere,
        GapSearchMode::NormalSearchAnywhere => GapSearchMode::GapSearchFromStart,
        GapSearchMode::GapSearchFromStart => GapSearchMode::GapSearchAnywhere,
        GapSearchMode::GapSearchAnywhere => GapSearchMode::NormalSearch,
    }
}

impl GapSearchMode {
    /// How this mode is shown to the user.
    pub fn display_text(&self) -> (r: &'static str)
        ensures
            r == gap_search_text(*self),
    {
        match self {
            GapSearchMode::GapSearchFromStart => "gap search from start",
            GapSearchMode::NormalSearch => "normal search",
            GapSearchMode::NormalSearchAnywhere => "normal search anywhere",
            GapSearchMode::GapSearchAnywhere => "gap search anywhere",
        }
    }

    /// The mode that follows this one when the user changes the mode, in the
    /// order of declaration, after the last the first.
    pub fn next(&self) -> (r: GapSearchMode)
        ensures
            r == next_gap_search(*self),
    {
        match self {
            GapSearchMode::NormalSearch => GapSearchMode::NormalSearchAnywhere,
            GapSearchMode::NormalSearchAnywhere => GapSearchMode::GapSearchFromStart,
            GapSearchMode::GapSearchFromStart => GapSearchMode::GapSearchAnywhere,
            GapSearchMode::GapSearchAnywhere => GapSearchMode::NormalSearch,
        }
    }
}

impl Default for GapSearchMode {
    fn default() -> (r: Self)
        ensures
            r == GapSearchMode::GapSearchFromStart,
    {
        GapSearchMode::GapSearchFromStart
    }
}

/// The order of the listing.
#[derive(Debug, PartialEq, Eq, Structural, Clone, Copy)]
pub enum SortMode {
    Name,
    Created,
    Modified,
}

/// How a sort mode is shown to the user.
pub open spec fn sort_mode_text(m: SortMode) -> &'static str {
    match m {
        SortMode::Name => "name",
        SortMode::Created => "cre",
        SortMode::Modified => "mod",
    }
}

impl SortMode {
    /// How this mode is shown to the user.
    pub fn display_text(&self) -> (r: &'static str)
        ensures
            r == sort_mode_text(*self),
    {
        match self {
            SortMode::Name => "name",
            SortMode::Created => "cre",
            SortMode::Modified => "mod",
        }
    }

    /// The mode that follows this one when the user changes the mode, in the
    /// order of declaration, after the last the first.
    pub fn next(&self) -> (r: SortMode)
        ensures
            r == next_sort_mode(*self),
    {
        match self {
            SortMode::Name => SortMode::Created,
            SortMode::Created => SortMode::Modified,
            SortMode::Modified => SortMode::Name,
        }
    }

    /// All sort modes, in the order in which they are declared.
    pub fn all() -> (r: Vec<SortMode>)
        ensures
            r@ == seq![SortMode::Name, SortMode::Created, SortMode::Modified],
    {
        let r = vec![SortMode::Name, SortMode::Created, SortMode::Modified];
        assert(r@ =~= seq![SortMode::Name, SortMode::Created, SortMode::Modified]);
        r
    }
}

/// The sort mode after `m` in the order of declaration, cycling.
pub open spec fn next_sort_mode(m: SortMode) -> SortMode {
    match m {
        SortMode::Name => SortMode::Created,
        SortMode::Created => SortMode::Modified,
        SortMode::Modified => SortMode::Name,
    }
}

/// Changing a mode as many times as there are modes comes back to it.
pub proof fn law_modes_cycle(c: CaseSensitiveMode, g: GapSearchMode, s: SortMode)
    ensures
        next_case_sensitive(next_case_sensitive(next_case_sensitive(c))) == c,
        next_gap_search(next_gap_search(next_gap_search(next_gap_search(g)))) == g,
        next_sort_mode(next_sort_mode(next_sort_mode(s))) == s,
{
}

impl Default for SortMode {
    fn default() -> (r: Self)
        ensures
            r == SortMode::Name,
    {
        SortMode::Name
    }
}


/// The settings of the application.
#[derive(Debug)]
pub struct TereSettings {
    /// How to handle files: ignore, hide or match them.
    pub file_handling_mode: FileHandlingMode,
    /// If true, show only items matching the search in the listing.
    pub filter_search: bool,
    pub case_sensitive: CaseSensitiveMode,
    pub sort_mode: SortMode,
    pub autocd_timeout: Option<u64>,
    pub history_file: Option<String>,
    /// Whether to allow matches with gaps in them, and whether they have to
    /// match from the beginning.
    pub gap_search_mode: GapSearchMode,
    pub mouse_enabled: bool,
    pub keymap: Keymap,
    pub skip_first_run_prompt: bool,
}

impl Default for TereSettings {
    fn default() -> (r: Self)
        ensures
            r.file_handling_mode == FileHandlingMode::Ignore,
            !r.filter_search,
            r.case_sensitive == CaseSensitiveMode::SmartCase,
            r.sort_mode == SortMode::Name,
            r.autocd_timeout is None,
            r.history_file is None,
            r.gap_search_mode == GapSearchMode::GapSearchFromStart,
            !r.mouse_enabled,
            r.keymap.wf(),
            r.keymap@ == Map::<((Seq<char>, bool), ActionContext), Action>::empty(),
            !r.skip_first_run_prompt,
    {
        TereSettings {
            file_handling_mode: FileHandlingMode::Ignore,
            filter_search: false,
            case_sensitive: CaseSensitiveMode::SmartCase,
            sort_mode: SortMode::Name,
            autocd_timeout: None,
            history_file: None,
            gap_search_mode: GapSearchMode::GapSearchFromStart,
            mouse_enabled: false,
            keymap: Keymap::new(),
            skip_first_run_prompt: false,
        }
    }
}

/// Warnings about deprecated options that were given.
pub type DeprecationWarnings = Vec<&'static str>;

impl TereSettings {
    /// Whether to ask the user to configure their shell before starting: only
    /// when a history file is used and it does not exist yet, which is taken
    /// to mean that the program has not been run before.
    pub fn needs_first_run_prompt(&self, history_file_exists: bool) -> (r: bool)
        ensures
            r == (self.history_file is Some && !history_file_exists),
    {
        self.history_file.is_some() && !history_file_exists
    }
}

/// The values of the command line options, as the argument parser gives them.
#[derive(Debug)]
pub struct CliArgs {
    /// The value of `--files` (`ignore` by default).
    pub files: String,
    pub folders_only: bool,
    pub no_folders_only: bool,
    pub filter_search: bool,
    pub case_sensitive: bool,
    pub ignore_case: bool,
    pub smart_case: bool,
    pub gap_search: bool,
    pub gap_search_anywhere: bool,
    pub normal_search: bool,
    pub normal_search_anywhere: bool,
    pub no_gap_search: bool,
    /// Every value given to `--autocd-timeout` (`200` by default).
    pub autocd_timeout: Vec<String>,
    /// The value of `--history-file`, if it was given.
    pub history_file: Option<String>,
    /// The cache folder of the user, if there is one.
    pub cache_dir: Option<String>,
    /// The value of `--mouse` (`off` by default).
    pub mouse: String,
    pub clear_default_keymap: bool,
    /// Every value given to `--map`.
    pub map: Vec<String>,
    /// The value of `--sort`, if it was given.
    pub sort: Option<SortMode>,
    pub skip_first_run_prompt: bool,
}

impl Default for CliArgs {
    /// The values when no option is given.
    fn default() -> (r: Self)
        ensures
            r.files@ == "ignore"@,
            r.autocd_timeout@.len() == 1 && r.autocd_timeout@[0]@ == "200"@,
            r.mouse@ == "off"@,
            r.history_file is None,
            r.cache_dir is None,
            r.map@.len() == 0,
            r.sort is None,
            !r.folders_only && !r.no_folders_only && !r.filter_search,
            !r.case_sensitive && !r.ignore_case && !r.smart_case,
            !r.gap_search && !r.gap_search_anywhere && !r.normal_search && !r.normal_search_anywhere && !r.no_gap_search,
            !r.clear_default_keymap && !r.skip_first_run_prompt,
    {
        CliArgs {
            files: String::from_str("ignore"),
            folders_only: false,
            no_folders_only: false,
            filter_search: false,
            case_sensitive: false,
            ignore_case: false,
            smart_case: false,
            gap_search: false,
            gap_search_anywhere: false,
            normal_search: false,
            normal_search_anywhere: false,
            no_gap_search: false,
            autocd_timeout: vec![String::from_str("200")],
            history_file: None,
            cache_dir: None,
            mouse: String::from_str("off"),
            clear_default_keymap: false,
            map: Vec::new(),
            sort: None,
            skip_first_run_prompt: false,
        }
    }
}

/// The values that `--files` takes.
pub open spec fn valid_files_value(v: Seq<char>) -> bool {
    v == "ignore"@ || v == "i"@ || v == "hide"@ || v == "h"@ || v == "match"@ || v == "m"@
}

/// The file handling mode that a value of `--files` names.
pub open spec fn files_value_mode(v: Seq<char>) -> FileHandlingMode {
    if v == "ignore"@ || v == "i"@ {
        FileHandlingMode::Ignore
    } else if v == "hide"@ || v == "h"@ {
        FileHandlingMode::Hide
    } else {
        FileHandlingMode::Match
    }
}

/// The warning for `--folders-only`.
pub open spec fn folders_only_warning() -> &'static str {
    "The option '--folders-only' / '-d' has been deprecated, please use '--files hide' instead."
}

/// The warning for `--no-folders-only`.
pub open spec fn no_folders_only_warning() -> &'static str {
    "The option '--no-folders-only' / '-D' has been deprecated, please use '--files ignore' or '--files match' instead."
}

/// The warning for `--no-gap-search`.
pub open spec fn no_gap_search_warning() -> &'static str {
    "The option '--no-gap-search' has been renamed to '--normal-search', please use that instead."
}

/// Whether `--no-gap-search` decides the search mode: it is the last of the
/// search mode options to be looked at.
pub open spec fn no_gap_search_used(a: CliArgs) -> bool {
    !a.gap_search && !a.gap_search_anywhere && !a.normal_search && !a.normal_search_anywhere && a.no_gap_search
}

/// The deprecation warnings for the given options, in order.
pub open spec fn cli_warnings(a: CliArgs) -> Seq<&'static str> {
    (if a.folders_only { seq![folders_only_warning()] } else { Seq::empty() })
        + (if a.no_folders_only { seq![no_folders_only_warning()] } else { Seq::empty() })
        + (if no_gap_search_used(a) { seq![no_gap_search_warning()] } else { Seq::empty() })
}

/// The file handling mode: `--no-folders-only` over `--folders-only` over `--files`.
pub open spec fn cli_file_mode(a: CliArgs) -> FileHandlingMode {
    if a.no_folders_only {
        FileHandlingMode::Ignore
    } else if a.folders_only {
        FileHandlingMode::Hide
    } else {
        files_value_mode(a.files@)
    }
}

/// The case sensitivity: the first given of the three options, in this order.
pub open spec fn cli_case_mode(a: CliArgs) -> CaseSensitiveMode {
    if a.case_sensitive {
        CaseSensitiveMode::CaseSensitive
    } else if a.ignore_case {
        CaseSensitiveMode::IgnoreCase
    } else {
        CaseSensitiveMode::SmartCase
    }
}

/// The search mode: the first given of the options, in this order.
pub open spec fn cli_gap_mode(a: CliArgs) -> GapSearchMode {
    if a.gap_search {
        GapSearchMode::GapSearchFromStart
    } else if a.gap_search_anywhere {
        GapSearchMode::GapSearchAnywhere
    } else if a.normal_search {
        GapSearchMode::NormalSearch
    } else if a.normal_search_anywhere {
        GapSearchMode::NormalSearchAnywhere
    } else if a.no_gap_search {
        GapSearchMode::NormalSearch
    } else {
        GapSearchMode::GapSearchFromStart
    }
}

/// The value of the digits, read as a decimal number.
pub open spec fn digits_value(ds: Seq<char>) -> int
    decreases ds.len(),
{
    if ds.len() == 0 {
        0
    } else {
        digits_value(ds.drop_last()) * 10 + (ds.last() as int - '0' as int)
    }
}

/// Every character is a decimal digit.
pub open spec fn all_digits(ds: Seq<char>) -> bool {
    forall|i: int| 0 <= i < ds.len() ==> '0' <= #[trigger] ds[i] <= '9'
}

/// The number that a text writes as an optional `+` and decimal digits, if it
/// fits in a `u64`; this is what `u64::from_str` accepts.
pub open spec fn u64_from_text(s: Seq<char>) -> Option<u64> {
    let ds = if s.len() > 0 && s[0] == '+' { s.drop_first() } else { s };
    if ds.len() > 0 && all_digits(ds) && digits_value(ds) <= u64::MAX {
        Some(digits_value(ds) as u64)
    } else {
        None
    }
}

proof fn lemma_digits_value_nonneg(ds: Seq<char>)
    requires
        all_digits(ds),
    ensures
        digits_value(ds) >= 0,
    decreases ds.len(),
{
    if ds.len() > 0 {
        assert(all_digits(ds.drop_last()));
        lemma_digits_value_nonneg(ds.drop_last());
    }
}

/// A longer run of digits has at least the value of its prefix.
proof fn lemma_digits_value_grows(ds: Seq<char>, k: int)
    requires
        all_digits(ds),
        0 <= k <= ds.len(),
    ensures
        digits_value(ds.take(k)) <= digits_value(ds),
    decreases ds.len() - k,
{
    if k < ds.len() {
        lemma_digits_value_grows(ds, k + 1);
        assert(ds.take(k + 1).drop_last() == ds.take(k));
        assert(all_digits(ds.take(k)));
        lemma_digits_value_nonneg(ds.take(k));
    } else {
        assert(ds.take(k) == ds);
    }
}

/// Reads a `u64` written in decimal; see [`u64_from_text`].
pub fn parse_u64(s: &str) -> (r: Option<u64>)
    ensures
        r == u64_from_text(s@),
{
    let cs = chars_of(s);
    let start: usize = if cs.len() > 0 && cs[0] == '+' { 1 } else { 0 };
    let ghost ds = if s@.len() > 0 && s@[0] == '+' { s@.drop_first() } else { s@ };
    assert(ds == cs@.subrange(start as int, cs@.len() as int));
    if start >= cs.len() {
        return None;
    }
    let mut value: u64 = 0;
    let mut i: usize = start;
    while i < cs.len()
        invariant
            start <= i <= cs@.len(),
            cs@ == s@,
            ds == (if s@.len() > 0 && s@[0] == '+' { s@.drop_first() } else { s@ }),
            ds == cs@.subrange(start as int, cs@.len() as int),
            all_digits(ds.take(i - start)),
            value as int == digits_value(ds.take(i - start)),
        decreases cs@.len() - i,
    {
        let c = cs[i];
        proof {
            assert(ds.take(i - start + 1).drop_last() == ds.take(i - start));
            assert(ds.take(i - start + 1).last() == c);
        }
        if !('0' <= c && c <= '9') {
            proof {
                assert(!all_digits(ds)) by {
                    assert(ds[i - start] == c);
                }
                assert(u64_from_text(s@) is None);
            }
            return None;
        }
        let d = (c as u32 - '0' as u32) as u64;
        match value.checked_mul(10) {
            Some(v10) => match v10.checked_add(d) {
                Some(v) => {
                    value = v;
                },
                None => {
                    proof {
                        assert(all_digits(ds.take(i - start + 1)));
                        assert(digits_value(ds.take(i - start + 1)) == v10 + d);
                        if all_digits(ds) {
                            lemma_digits_value_grows(ds, i - start + 1);
                        }
                        assert(u64_from_text(s@) is None);
                    }
                    return None;
                },
            },
            None => {
                proof {
                    assert(all_digits(ds.take(i - start + 1)));
                    lemma_digits_value_nonneg(ds.take(i - start));
                    if all_digits(ds) {
                        lemma_digits_value_grows(ds, i - start + 1);
                    }
                }
                return None;
            },
        }
        i = i + 1;
    }
    assert(ds.take(cs@.len() - start) == ds);
    Some(value)
}


/// The keymap after applying mappings in turn: a mapping to the action that
/// unbinds removes the key in its context, any other mapping replaces it.
pub open spec fn apply_mappings(
    m: Map<((Seq<char>, bool), ActionContext), Action>,
    ms: Seq<((Seq<char>, bool), ActionContext, Action)>,
) -> Map<((Seq<char>, bool), ActionContext), Action>
    decreases ms.len(),
{
    if ms.len() == 0 {
        m
    } else {
        let m2 = apply_mappings(m, ms.drop_last());
        let x = ms.last();
        if x.2 == Action::Unbind {
            m2.remove((x.0, x.1))
        } else {
            m2.insert((x.0, x.1), x.2)
        }
    }
}

/// The keymap after the values of `--map` in turn, or the first error.
pub open spec fn keymap_after_args(
    m: Map<((Seq<char>, bool), ActionContext), Action>,
    args: Seq<Seq<char>>,
) -> Result<Map<((Seq<char>, bool), ActionContext), Action>, Seq<char>>
    decreases args.len(),
{
    if args.len() == 0 {
        Ok(m)
    } else {
        match keymap_after_args(m, args.drop_last()) {
            Err(e) => Err(e),
            Ok(m2) => match mappings_result(split_on(args.last(), ','), args.last()) {
                Err(e) => Err(e),
                Ok(ms) => Ok(apply_mappings(m2, ms)),
            },
        }
    }
}

/// The keymap before the values of `--map`.
pub open spec fn cli_initial_keymap(a: CliArgs) -> Map<((Seq<char>, bool), ActionContext), Action> {
    if a.clear_default_keymap {
        Map::empty()
    } else {
        keymap_from_texts(default_keymap_text())
    }
}

/// The keymap from the options, or the first error in a value of `--map`.
pub open spec fn cli_keymap(a: CliArgs) -> Result<Map<((Seq<char>, bool), ActionContext), Action>, Seq<char>> {
    keymap_after_args(cli_initial_keymap(a), crate::paths::strings_view(a.map@))
}

/// Some key is mapped to exiting.
pub open spec fn has_exit(m: Map<((Seq<char>, bool), ActionContext), Action>) -> bool {
    exists|k: ((Seq<char>, bool), ActionContext)| #[trigger] m.dom().contains(k) && m[k] == Action::Exit
}

/// The message for a timeout value that is not a number.
pub open spec fn bad_timeout_message(x: Seq<char>) -> Seq<char> {
    "Invalid value for 'autocd-timeout': '"@ + x + "'\n"@
}

/// The message when no key exits.
pub open spec fn no_exit_message() -> Seq<char> {
    "No keyboard mapping found for exit!\n"@
}

/// The timeout for automatically entering the only match: the last value
/// given, `off` for none.
pub open spec fn cli_timeout(a: CliArgs) -> Result<Option<u64>, Seq<char>> {
    let x = a.autocd_timeout@.last()@;
    if x == "off"@ {
        Ok(None)
    } else {
        match u64_from_text(x) {
            Some(n) => Ok(Some(n)),
            None => Err(bad_timeout_message(x)),
        }
    }
}

/// Why the options cannot be used, if they cannot: a bad timeout, then a bad
/// mapping, then a keymap without a key that exits.
pub open spec fn cli_error(a: CliArgs) -> Option<Seq<char>> {
    match cli_timeout(a) {
        Err(e) => Some(e),
        Ok(_) => match cli_keymap(a) {
            Err(e) => Some(e),
            Ok(m) => if has_exit(m) {
                None
            } else {
                Some(no_exit_message())
            },
        },
    }
}

/// The history file: the given path (none if it is empty), or else
/// `tere/history.json` in the cache folder, if there is one.
pub open spec fn cli_history_file(a: CliArgs) -> Option<Seq<char>> {
    match a.history_file {
        Some(h) => if h@.len() == 0 {
            None
        } else {
            Some(h@)
        },
        None => match a.cache_dir {
            Some(c) => Some(join_path(join_path(c@, "tere"@), "history.json"@)),
            None => None,
        },
    }
}

/// The settings hold what the options give.
pub open spec fn settings_from_args(st: TereSettings, a: CliArgs) -> bool {
    &&& st.file_handling_mode == cli_file_mode(a)
    &&& st.filter_search == a.filter_search
    &&& st.case_sensitive == cli_case_mode(a)
    &&& st.gap_search_mode == cli_gap_mode(a)
    &&& cli_timeout(a) == Ok::<Option<u64>, Seq<char>>(st.autocd_timeout)
    &&& (match st.history_file {
        Some(h) => cli_history_file(a) == Some(h@),
        None => cli_history_file(a) is None,
    })
    &&& st.mouse_enabled == (a.mouse@ == "on"@)
    &&& st.keymap.wf()
    &&& cli_keymap(a) == Ok::<Map<((Seq<char>, bool), ActionContext), Action>, Seq<char>>(st.keymap@)
    &&& st.sort_mode == (match a.sort {
        Some(m) => m,
        None => SortMode::Name,
    })
    &&& st.skip_first_run_prompt == a.skip_first_run_prompt
}

/// The keymap that the options give: the default one unless it is cleared,
/// then the values of `--map` in turn.
fn keymap_from_args(args: &CliArgs) -> (r: Result<Keymap, TereError>)
    ensures
        match r {
            Ok(m) => m.wf() && cli_keymap(*args) == Ok::<Map<((Seq<char>, bool), ActionContext), Action>, Seq<char>>(m@),
            Err(TereError::InvalidValue(e)) => cli_keymap(*args) == Err::<Map<((Seq<char>, bool), ActionContext), Action>, Seq<char>>(e@),
            Err(_) => false,
        },
{
    let ghost a = *args;
    let mut keymap = if args.clear_default_keymap {
        Keymap::new()
    } else {
        default_keymap()
    };
    let ghost sv = crate::paths::strings_view(args.map@);
    let mut i: usize = 0;
    while i < args.map.len()
        invariant
            0 <= i <= args.map@.len(),
            sv == crate::paths::strings_view(args.map@),
            keymap.wf(),
            keymap_after_args(cli_initial_keymap(a), sv.take(i as int)) == Ok::<Map<((Seq<char>, bool), ActionContext), Action>, Seq<char>>(keymap@),
            a == *args,
        decreases args.map@.len() - i,
    {
        proof {
            assert(sv.take(i + 1).drop_last() == sv.take(i as int));
            assert(sv.take(i + 1).last() == args.map@[i as int]@);
        }
        let mappings = match parse_keymap_arg(args.map[i].as_str()) {
            Ok(ms) => ms,
            Err(e) => {
                proof {
                    lemma_keymap_error_stays(cli_initial_keymap(a), sv, i as int + 1);
                    assert(sv.take(sv.len() as int) == sv);
                }
                return Err(e);
            },
        };
        let ghost before = keymap@;
        let ghost mv = crate::keys::mappings_view(mappings@);
        let mut j: usize = 0;
        while j < mappings.len()
            invariant
                0 <= j <= mappings@.len(),
                mv == crate::keys::mappings_view(mappings@),
                keymap.wf(),
                keymap@ == apply_mappings(before, mv.take(j as int)),
            decreases mappings@.len() - j,
        {
            let (k, c, act) = &mappings[j];
            proof {
                assert(mv.take(j + 1).drop_last() == mv.take(j as int));
                assert(mv.take(j + 1).last() == (key_view(*k), *c, *act));
            }
            if *act == Action::Unbind {
                keymap.remove(k, *c);
            } else {
                let key = crate::keys::KeyId { name: k.name.clone(), has_modifiers: k.has_modifiers };
                keymap.insert(key, *c, *act);
            }
            j = j + 1;
        }
        proof {
            assert(mv.take(mappings@.len() as int) == mv);
        }
        i = i + 1;
    }
    proof {
        assert(sv.take(args.map@.len() as int) == sv);
    }
    Ok(keymap)
}

impl TereSettings {
    /// Reads the settings from the command line options. Gives the
    /// deprecation warnings for the options that were used, or the error of
    /// the first option that cannot be used (see [`cli_error`]).
    pub fn parse_cli_args(args: &CliArgs) -> (r: Result<(TereSettings, DeprecationWarnings), TereError>)
        requires
            valid_files_value(args.files@),
            args.autocd_timeout@.len() > 0,
        ensures
            match r {
                Ok((st, w)) => cli_error(*args) is None && settings_from_args(st, *args) && w@ == cli_warnings(*args),
                Err(TereError::InvalidValue(e)) => cli_error(*args) == Some(e@),
                Err(_) => false,
            },
    {
        let mut ret = TereSettings::default();
        let mut warnings: DeprecationWarnings = Vec::new();
        let ghost a = *args;
        proof {
            reveal_strlit("ignore");
            reveal_strlit("i");
            reveal_strlit("hide");
            reveal_strlit("h");
            reveal_strlit("match");
            reveal_strlit("m");
        }
        let files = args.files.as_str();
        ret.file_handling_mode = if str_eq(files, "ignore") || str_eq(files, "i") {
            FileHandlingMode::Ignore
        } else if str_eq(files, "hide") || str_eq(files, "h") {
            FileHandlingMode::Hide
        } else {
            FileHandlingMode::Match
        };
        if args.folders_only {
            ret.file_handling_mode = FileHandlingMode::Hide;
            warnings.push("The option '--folders-only' / '-d' has been deprecated, please use '--files hide' instead.");
        }
        if args.no_folders_only {
            ret.file_handling_mode = FileHandlingMode::Ignore;
            warnings.push("The option '--no-folders-only' / '-D' has been deprecated, please use '--files ignore' or '--files match' instead.");
        }
        if args.filter_search {
            ret.filter_search = true;
        }
        if args.case_sensitive {
            ret.case_sensitive = CaseSensitiveMode::CaseSensitive;
        } else if args.ignore_case {
            ret.case_sensitive = CaseSensitiveMode::IgnoreCase;
        } else if args.smart_case {
            ret.case_sensitive = CaseSensitiveMode::SmartCase;
        }
        if args.gap_search {
            ret.gap_search_mode = GapSearchMode::GapSearchFromStart;
        } else if args.gap_search_anywhere {
            ret.gap_search_mode = GapSearchMode::GapSearchAnywhere;
        } else if args.normal_search {
            ret.gap_search_mode = GapSearchMode::NormalSearch;
        } else if args.normal_search_anywhere {
            ret.gap_search_mode = GapSearchMode::NormalSearchAnywhere;
        } else if args.no_gap_search {
            warnings.push("The option '--no-gap-search' has been renamed to '--normal-search', please use that instead.");
            ret.gap_search_mode = GapSearchMode::NormalSearch;
        }
        proof {
            assert(warnings@ =~= cli_warnings(a));
        }
        let x = args.autocd_timeout[args.autocd_timeout.len() - 1].as_str();
        ret.autocd_timeout = if str_eq(x, "off") {
            None
        } else {
            match parse_u64(x) {
                Some(n) => Some(n),
                None => {
                    let mut e = String::new();
                    e.append("Invalid value for 'autocd-timeout': '");
                    e.append(x);
                    e.append("'\n");
                    return Err(TereError::InvalidValue(e));
                },
            }
        };
        ret.history_file = match &args.history_file {
            Some(h) => if h.as_str().unicode_len() == 0 {
                None
            } else {
                Some(h.clone())
            },
            None => match &args.cache_dir {
                Some(c) => {
                    let d = path_join(c.as_str(), "tere");
                    Some(path_join(d.as_str(), "history.json"))
                },
                None => None,
            },
        };
        proof {
            reveal_strlit("on");
        }
        ret.mouse_enabled = str_eq(args.mouse.as_str(), "on");
        ret.keymap = match keymap_from_args(args) {
            Ok(m) => m,
            Err(e) => return Err(e),
        };
        if !ret.keymap.contains_action(Action::Exit) {
            let mut e = String::new();
            e.append("No keyboard mapping found for exit!\n");
            return Err(TereError::InvalidValue(e));
        }
        ret.sort_mode = match args.sort {
            Some(m) => m,
            None => SortMode::Name,
        };
        if args.skip_first_run_prompt {
            ret.skip_first_run_prompt = true;
        }
        Ok((ret, warnings))
    }
}

/// Once a prefix of the values of `--map` gives an error, every longer prefix
/// gives the same error.
pub proof fn lemma_keymap_error_stays(m: Map<((Seq<char>, bool), ActionContext), Action>, args: Seq<Seq<char>>, k: int)
    requires
        0 <= k <= args.len(),
        keymap_after_args(m, args.take(k)) is Err,
    ensures
        keymap_after_args(m, args.take(args.len() as int)) == keymap_after_args(m, args.take(k)),
    decreases args.len() - k,
{
    if k < args.len() {
        assert(args.take(k + 1).drop_last() == args.take(k));
        lemma_keymap_error_stays(m, args, k + 1);
    }
}

/// Of several mappings of a key in a context, the last one wins: it maps the
/// key to its action, or removes the key if its action unbinds.
pub proof fn law_last_mapping_wins(
    m: Map<((Seq<char>, bool), ActionContext), Action>,
    ms: Seq<((Seq<char>, bool), ActionContext, Action)>,
    x: ((Seq<char>, bool), ActionContext, Action),
)
    ensures
        x.2 != Action::Unbind ==> apply_mappings(m, ms.push(x)).dom().contains((x.0, x.1))
            && apply_mappings(m, ms.push(x))[(x.0, x.1)] == x.2,
        x.2 == Action::Unbind ==> !apply_mappings(m, ms.push(x)).dom().contains((x.0, x.1)),
{
    assert(ms.push(x).drop_last() =~= ms);
}

/// A mapping leaves the other keys as they were.
pub proof fn law_mapping_leaves_other_keys(
    m: Map<((Seq<char>, bool), ActionContext), Action>,
    ms: Seq<((Seq<char>, bool), ActionContext, Action)>,
    x: ((Seq<char>, bool), ActionContext, Action),
    k: ((Seq<char>, bool), ActionContext),
)
    requires
        k != (x.0, x.1),
    ensures
        apply_mappings(m, ms.push(x)).dom().contains(k) == apply_mappings(m, ms).dom().contains(k),
        apply_mappings(m, ms).dom().contains(k) ==> apply_mappings(m, ms.push(x))[k] == apply_mappings(m, ms)[k],
{
    assert(ms.push(x).drop_last() =~= ms);
}


/// Each option for the search mode, the case sensitivity or the handling of
/// files, given alone, selects its own mode; with none of them given, the
/// defaults hold: gap search from the start, smart case, and the mode of
/// `--files`.
pub proof fn law_mode_options_select_their_mode(st: TereSettings, a: CliArgs)
    requires
        settings_from_args(st, a),
    ensures
        ({
            let gap_flags = seq![a.gap_search, a.gap_search_anywhere, a.normal_search, a.normal_search_anywhere, a.no_gap_search];
            let only = |k: int| forall|j: int| 0 <= j < 5 && j != k ==> !gap_flags[j];
            &&& (a.gap_search && only(0)) ==> st.gap_search_mode == GapSearchMode::GapSearchFromStart
            &&& (a.gap_search_anywhere && only(1)) ==> st.gap_search_mode == GapSearchMode::GapSearchAnywhere
            &&& (a.normal_search && only(2)) ==> st.gap_search_mode == GapSearchMode::NormalSearch
            &&& (a.normal_search_anywhere && only(3)) ==> st.gap_search_mode == GapSearchMode::NormalSearchAnywhere
            &&& (a.no_gap_search && only(4)) ==> st.gap_search_mode == GapSearchMode::NormalSearch
            &&& (forall|j: int| 0 <= j < 5 ==> !gap_flags[j]) ==> st.gap_search_mode == GapSearchMode::GapSearchFromStart
        }),
        (a.case_sensitive && !a.ignore_case && !a.smart_case) ==> st.case_sensitive == CaseSensitiveMode::CaseSensitive,
        (a.ignore_case && !a.case_sensitive && !a.smart_case) ==> st.case_sensitive == CaseSensitiveMode::IgnoreCase,
        (a.smart_case && !a.case_sensitive && !a.ignore_case) ==> st.case_sensitive == CaseSensitiveMode::SmartCase,
        (!a.case_sensitive && !a.ignore_case && !a.smart_case) ==> st.case_sensitive == CaseSensitiveMode::SmartCase,
        (a.folders_only && !a.no_folders_only) ==> st.file_handling_mode == FileHandlingMode::Hide,
        a.no_folders_only ==> st.file_handling_mode == FileHandlingMode::Ignore,
{
    let gap_flags = seq![a.gap_search, a.gap_search_anywhere, a.normal_search, a.normal_search_anywhere, a.no_gap_search];
    assert(gap_flags[0] == a.gap_search);
    assert(gap_flags[1] == a.gap_search_anywhere);
    assert(gap_flags[2] == a.normal_search);
    assert(gap_flags[3] == a.normal_search_anywhere);
    assert(gap_flags[4] == a.no_gap_search);
}

} // verus!
