//! The help window: the user guide of the README, with the table of
//! keyboard shortcuts written from the keys that are mapped.
use vstd::prelude::*;
use crate::paths::split_on;
use crate::text::{chars_of, split_chars, vecs_view, first_match_from, find_from, trimmed, trim_chars, str_eq, push_char, append_chars,
    replaced, replace_text, utf8_len, utf8_byte_len, without_char, remove_char, string_from_chars};
use crate::action::context_short_description;
use crate::markup::{StyledChunk, lines_view, wrap_and_stylize, wrapped_and_styled};
use crate::text::contains_text;
use crate::action::{Action, ActionContext, action_name, context_name};
use crate::keys::{KeyId, Keymap, KeyMapping, key_view, mapping_view};
use vstd::string::StringExecFns;
use crate::listing::{lex_less, text_less, lemma_lex_asym, lemma_lex_trans, lemma_lex_total};

verus! {

/// The user guide of the README, which the help window shows.
pub const README_STR: &'static str = "## User guide

### Basic navigation

You can navigate folders in `tere` by moving the cursor around and by typing to search. By default, the cursor can be moved up or down using the arrow keys, and pressing <kbd>Enter</kbd> or the right arrow <kbd>→</kbd> to enter the highlighted folder. You can move to the parent folder by pressing <kbd>Enter</kbd> on the parent folder item `..`, or with the left arrow <kbd>←</kbd>. Once you have navigated to the folder you want, exit `tere` by perssing <kbd>Esc</kbd>. If you have configured your shell correctly, your shell's current working directory should now be set to that folder.

### Keyboard shortcuts

`tere` has the following keyboard shortcuts by default:

| Description | Default shortcut(s) | Action name |
|:---:|:---:|:--:|
|Enter directory under cursor | <kbd>Enter</kbd> or <kbd>→</kbd> or <kbd>Alt</kbd>-<kbd>↓</kbd> or <kbd>Alt</kbd>-<kbd>l</kbd> or if not searching, <kbd>Space</kbd> | `ChangeDir` |
|Go to parent directory| <kbd>←</kbd> or <kbd>Alt</kbd>-<kbd>↑</kbd> or <kbd>Alt</kbd>-<kbd>h</kbd> or if not searching, <kbd>Backspace</kbd> or <kbd>-</kbd> | `ChangeDirParent` |
|Go to home directory| <kbd>~</kbd> or <kbd>Ctrl</kbd>-<kbd>Home</kbd> or <kbd>Ctrl</kbd>-<kbd>Alt</kbd>-<kbd>h</kbd>| `ChangeDirHome` |
|Go to root directory| <kbd>/</kbd> or <kbd>Alt</kbd>-<kbd>r</kbd>| `ChangeDirRoot` |
|Move cursor up  | <kbd>↑</kbd> or <kbd>Alt</kbd>-<kbd>k</kbd> | `CursorUp` |
|Move cursor down| <kbd>↓</kbd> or <kbd>Alt</kbd>-<kbd>j</kbd> | `CursorDown` |
|Move cursor up   by one screen| <kbd>Page Up</kbd>   or <kbd>Ctrl</kbd>-<kbd>u</kbd> or <kbd>Alt</kbd>-<kbd>u</kbd> | `CursorUpScreen` |
|Move cursor down by one screen| <kbd>Page Down</kbd> or <kbd>Ctrl</kbd>-<kbd>d</kbd> or <kbd>Alt</kbd>-<kbd>d</kbd> | `CursorDownScreen` |
|Move cursor to the top   | <kbd>Home</kbd> or <kbd>Alt</kbd>-<kbd>g</kbd> | `CursorTop` |
|Move cursor to the bottom| <kbd>End</kbd>  or <kbd>Alt</kbd>-<kbd>Shift</kbd>-<kbd>g</kbd> | `CursorBottom` |
|Erase a character from the search | <kbd>Backspace</kbd> if searching | `EraseSearchChar` |
|Clear the search | <kbd>Esc</kbd> if searching | `ClearSearch` |
|Toggle filter search| <kbd>Alt</kbd>-<kbd>f</kbd> | `ChangeFilterSearchMode` |
|Change case sensitivity mode| <kbd>Alt</kbd>-<kbd>c</kbd> | `ChangeCaseSensitiveMode` |
|Change gap search mode| <kbd>Ctrl</kbd>-<kbd>f</kbd> | `ChangeGapSearchMode` |
|Change sorting mode| <kbd>Alt</kbd>-<kbd>s</kbd> | `ChangeSortMode` |
|Refresh current directory| <kbd>Ctrl</kbd>-<kbd>r</kbd>| `RefreshListing` |
|Show help screen| <kbd>?</kbd> | `Help` |
|Exit `tere`| <kbd>Esc</kbd> or <kbd>Alt</kbd>-<kbd>q</kbd> | `Exit` |
|Enter directory and exit `tere`| <kbd>Alt</kbd>-<kbd>Enter</kbd> or <kbd>Ctrl</kbd>-<kbd>Space</kbd> | `ChangeDirAndExit` |
|Exit `tere` without changing directory| <kbd>Ctrl</kbd>-<kbd>c</kbd> | `ExitWithoutCd` |

Some of the shortcuts starting with <kbd>Alt</kbd> should be familiar to Vim users.

#### Customizing keyboard shortcuts

All of the keyboard shortcuts listed above can be customized using the `--map` (or `-m`) CLI option. Keyboard mappings can be either of the form `--map key-combination:action` or `--map key-combination:context:action`, where `key-combination` is a key combination, such as `ctrl-x`, `action` is a valid action name (for example `Exit` or `ChangeDir`, see the table above or `--help` for a full list of actions), and the optional `context` specifies the context in which the mappling applies (for example `Searching` and `NotSearching`, see `--help`). To remove a mapping, use `--map key-combination:None`. Multiple mappings can be made by providing `--map` multiple times, or by using a comma-separated list of mappings: `--map combination1:action1,combination2:action2`.

For further details and examples, see the output of `--help`.

### Searching

To search for an item in the current folder, just type some letters. `tere` will incrementally highlight all folders and files that match the search query.

While searching, moving the cursor up or down jumps between only the items that match the search. The search query, as well as the number of matching items is shown at the bottom of the screen.

If only one folder matches your current search, `tere` will highlight it, and change the working directory to that folder. This way you can navigate folders very quickly.

To stop searching, press <kbd>Esc</kbd> or erase all search characters by pressing <kbd>Backspace</kbd>.

By default, the searching uses \"smart case\", meaning that if the query contains only lowercase letters, case is ignored, but if there are uppercase letters, the search is case sensitive. This can be changed with the `--ignore-case` and `--case-sensitive` options, or with the keyboard shortcut <kbd>Alt</kbd>-<kbd>c</kbd> by default.

Additionally, in the default search mode, \"gap search\" (sometimes also known as fuzzy search) is enabled. This means that the search matches any folder or file name as long as it starts with the same character as the search query, and contains the rest of the query characters, even if there are other characters between them. For example, searching for `dt` would match both `DeskTop` and `DocumenTs`. With the `--gap-search-anywhere` option, the first character of the query doesn't have to match the first character of a folder/file name. The gap search can be disabled with the `--normal-search` and `--normal-search-anywhere` options, which only allow matching consecutive characters, either from the start or anywhere within the folder/file name, respsectively. The gap search behavior can also be changed with the keyboard shortcut <kbd>Ctrl</kbd>-<kbd>f</kbd> by default. See the output of the `--help` option for further details.

### Mouse navigation

Although `tere` is mainly keyboard-focused, it is also possible to navigate using the mouse. To maximize compatibility, mouse support is off by default, and has to be enabled with the option `--mouse=on`. With the mouse enabled, you can change to a folder by clicking on it, and move to the parent folder by right-clicking.

### CLI options

You can adjust the behavior of `tere` by passing the following CLI options to it:

- `--help` or `-h`: Print a short help and all CLI options. Note that the output goes to stderr, to not interfere with `cd` ing in the shell functions defined during the setup.
- `--version` or `-V`: Print the version of `tere`. This also goes to stderr.
- `--filter-search` or `-f` / `--no-filter-search` or `-F`: If `--filter-search` is set, show only items that match the current search query in the listing. Otherwise all items are shown in the listing while searching (this is the default behavior).
- `--folders-only` or `-d` / `--no-folders-only` or `-D`: With `--folders-only`, don't show files but only folders (and symlinks pointing to folders) in the listing.
- `--smart-case` or `-S` / `--ignore-case` or `-i` / `--case-sensitive` or `-s`: Set the case sensitivity mode. The default mode is smart case, which is case insensitive if the query contains only lowercase letters and case sensitive otherwise.
- `--gap-search` or `-g` / `--gap-search-anywhere` or `-G` / `--normal-search` or `-n` / `--normal-search-anywhere` or `-N`: Configure whether to allow matches with gaps in them (see above).
- `--sort name` / `created` / `modified`: Change the sorting order of the listing.
- `--autocd-timeout` - If the current search matches only one folder, automatically change to that folder after this many milliseconds. Can also be set to `off`, which disables this behaviour.
- `--history-file`: To make browsing more convenient, `tere` saves a history of folders you have visited to this file in JSON format. It should be an absolute path. Defaults to `$CACHE_DIR/tere/history.json`, where `$CACHE_DIR` is `$XDG_CACHE_HOME` or `~/.cache`. Set to the empty string `''` to disable saving the history. Note that the history reveals parts of your folder structure if it can be read by someone else.
- `--mouse=on` or `--mouse=off`: Enable or disable navigating with the mouse. If enabled, you can left-click to enter folders and right-click to go to the parent folder. Off by default.

Some options have two or more versions that override each other (for example `--folders-only` and `--no-folders-only`). For such options, whichever is passed last wins. This way, you can have one option as the default in your shell's `rc` file, but you can sometimes manually override that option when running `tere`.

## Similar projects
";

/// The table of keyboard shortcuts in a README: the text after
/// `keyboard shortcuts by default:` and a blank line, up to the next blank
/// line; empty if there is none.
pub open spec fn shortcuts_table_of(readme: Seq<char>) -> Seq<char> {
    let m = "keyboard shortcuts by default:\n\n"@;
    match first_match_from(readme, m, 0) {
        None => Seq::empty(),
        Some(i) => match first_match_from(readme, "\n\n"@, i + m.len()) {
            Some(j) => readme.subrange(i + m.len(), j),
            None => Seq::empty(),
        },
    }
}

/// The table of keyboard shortcuts of the README; see
/// [`shortcuts_table_of`].
pub fn get_keyboard_shortcuts_table() -> (r: &'static str)
    ensures
        r@ == shortcuts_table_of(README_STR@),
{
    proof {
        reveal_strlit("keyboard shortcuts by default:\n\n");
        reveal_strlit("\n\n");
        reveal_strlit("");
    }
    let text: &'static str = README_STR;
    let cs = chars_of(text);
    let marker = chars_of("keyboard shortcuts by default:\n\n");
    let blank = chars_of("\n\n");
    let total = cs.len();
    match find_from(&cs, &marker, 0) {
        None => "",
        Some(i) => {
            proof {
                crate::text::lemma_match_bound(cs@, marker@, 0, i as int);
            }
            assert(i + marker@.len() <= total);
            let start = i + marker.len();
            match find_from(&cs, &blank, start) {
                Some(j) => {
                    proof {
                        crate::text::lemma_match_bound(cs@, blank@, start as int, j as int);
                    }
                    text.substring_char(start, j)
                },
                None => "",
            }
        },
    }
}

/// The lines of a text, as `str::lines` gives them: split at line breaks,
/// without a carriage return at the end of a line, and without an empty last
/// line after a final line break.
pub open spec fn lines_of(t: Seq<char>) -> Seq<Seq<char>> {
    let parts = split_on(t, '\n');
    let parts = if t.len() == 0 {
        Seq::empty()
    } else if t.last() == '\n' {
        parts.drop_last()
    } else {
        parts
    };
    parts.map_values(|l: Seq<char>| if l.len() > 0 && l.last() == '\r' { l.drop_last() } else { l })
}

/// The lines of a text; see [`lines_of`].
pub fn text_lines(t: &str) -> (r: Vec<Vec<char>>)
    ensures
        vecs_view(r@) == lines_of(t@),
{
    let cs = chars_of(t);
    let mut parts = split_chars(&cs, '\n');
    proof {
        crate::paths::lemma_split_on_nonempty(t@, '\n');
    }
    if cs.len() == 0 {
        return Vec::new();
    }
    if cs[cs.len() - 1] == '\n' {
        parts.pop();
    }
    let ghost ps = vecs_view(parts@);
    let mut r: Vec<Vec<char>> = Vec::new();
    let mut i: usize = 0;
    while i < parts.len()
        invariant
            0 <= i <= parts@.len(),
            ps == vecs_view(parts@),
            vecs_view(r@) == ps.take(i as int).map_values(|l: Seq<char>| if l.len() > 0 && l.last() == '\r' { l.drop_last() } else { l }),
        decreases parts@.len() - i,
    {
        let mut l = parts[i].clone();
        if l.len() > 0 && l[l.len() - 1] == '\r' {
            l.pop();
        }
        let ghost before = vecs_view(r@);
        r.push(l);
        proof {
            assert(ps.take(i + 1) =~= ps.take(i as int).push(ps[i as int]));
            assert(vecs_view(r@) =~= before.push(r@.last()@));
            assert(ps.take(i + 1).map_values(|l: Seq<char>| if l.len() > 0 && l.last() == '\r' { l.drop_last() } else { l })
                =~= ps.take(i as int).map_values(|l: Seq<char>| if l.len() > 0 && l.last() == '\r' { l.drop_last() } else { l }).push(r@.last()@));
        }
        i = i + 1;
    }
    assert(ps.take(parts@.len() as int) =~= ps);
    proof {
        if t@.last() == '\n' {
            assert(ps == split_on(t@, '\n').drop_last());
        }
    }
    r
}

/// The cells of a row of a markdown table: the text between the bars,
/// trimmed.
pub open spec fn columns(line: Seq<char>) -> Seq<Seq<char>> {
    split_on(line, '|').map_values(|c: Seq<char>| trimmed(c))
}

/// A cell of a row, empty if the row has fewer cells.
pub open spec fn cell(cols: Seq<Seq<char>>, k: int) -> Seq<char> {
    if 0 <= k < cols.len() {
        cols[k]
    } else {
        Seq::empty()
    }
}

/// The trimmed cells of a row; see [`columns`].
pub fn row_columns(line: &Vec<char>) -> (r: Vec<Vec<char>>)
    ensures
        vecs_view(r@) == columns(line@),
{
    let parts = split_chars(line, '|');
    let ghost ps = vecs_view(parts@);
    let mut r: Vec<Vec<char>> = Vec::new();
    let mut i: usize = 0;
    while i < parts.len()
        invariant
            0 <= i <= parts@.len(),
            ps == vecs_view(parts@),
            vecs_view(r@) == ps.take(i as int).map_values(|c: Seq<char>| trimmed(c)),
        decreases parts@.len() - i,
    {
        let t = trim_chars(&parts[i]);
        let ghost before = vecs_view(r@);
        r.push(t);
        proof {
            assert(ps.take(i + 1) =~= ps.take(i as int).push(ps[i as int]));
            assert(vecs_view(r@) =~= before.push(t@));
            assert(ps.take(i + 1).map_values(|c: Seq<char>| trimmed(c)) =~= ps.take(i as int).map_values(|c: Seq<char>| trimmed(c)).push(t@));
        }
        i = i + 1;
    }
    assert(ps.take(parts@.len() as int) =~= ps);
    r
}

/// A key with the context in which it applies.
pub type Shortcut = (KeyId, ActionContext);

/// The plain values of a shortcut.
pub open spec fn shortcut_view(x: Shortcut) -> ((Seq<char>, bool), ActionContext) {
    (key_view(x.0), x.1)
}

/// The plain values of shortcuts.
pub open spec fn shortcuts_view(xs: Seq<Shortcut>) -> Seq<((Seq<char>, bool), ActionContext)> {
    xs.map_values(|x: Shortcut| shortcut_view(x))
}

/// The order in which the shortcuts of an action are shown: those without a
/// context first, among them keys without modifiers first, then by name;
/// those with a context by the name of the context.
pub open spec fn shortcut_before(x: ((Seq<char>, bool), ActionContext), y: ((Seq<char>, bool), ActionContext)) -> bool {
    let xn = x.1 == ActionContext::NoContext;
    let yn = y.1 == ActionContext::NoContext;
    if xn && yn {
        if x.0.1 != y.0.1 {
            !x.0.1
        } else {
            lex_less(x.0.0, y.0.0)
        }
    } else if xn != yn {
        xn
    } else {
        lex_less(context_name(x.1)@, context_name(y.1)@)
    }
}

proof fn lemma_shortcut_asym(x: ((Seq<char>, bool), ActionContext), y: ((Seq<char>, bool), ActionContext))
    ensures
        shortcut_before(x, y) ==> !shortcut_before(y, x),
{
    lemma_lex_asym(x.0.0, y.0.0);
    lemma_lex_asym(context_name(x.1)@, context_name(y.1)@);
}

/// If `x` comes before `a`, and `b` does not come before `a`, then `x` comes
/// before `b`.
proof fn lemma_shortcut_step(x: ((Seq<char>, bool), ActionContext), a: ((Seq<char>, bool), ActionContext), b: ((Seq<char>, bool), ActionContext))
    ensures
        shortcut_before(x, a) && !shortcut_before(b, a) ==> shortcut_before(x, b),
{
    lemma_lex_total(a.0.0, b.0.0);
    lemma_lex_trans(x.0.0, a.0.0, b.0.0);
    lemma_lex_total(context_name(a.1)@, context_name(b.1)@);
    lemma_lex_trans(context_name(x.1)@, context_name(a.1)@, context_name(b.1)@);
}

/// A place among shortcuts comes before another: by [`shortcut_before`],
/// and by place where neither comes before the other.
pub open spec fn shortcut_place_before(g: Seq<((Seq<char>, bool), ActionContext)>, i: int, j: int) -> bool {
    shortcut_before(g[i], g[j]) || (!shortcut_before(g[j], g[i]) && i < j)
}

/// `r` holds the shortcuts `g` in the order of a stable sort by
/// [`shortcut_before`].
pub open spec fn shortcuts_sorted(g: Seq<((Seq<char>, bool), ActionContext)>, r: Seq<((Seq<char>, bool), ActionContext)>) -> bool {
    exists|order: Seq<int>| #[trigger] shortcut_order(g, order) && r == order.map_values(|i: int| g[i])
}

/// The places of `g` in the order of a stable sort.
pub open spec fn shortcut_order(g: Seq<((Seq<char>, bool), ActionContext)>, order: Seq<int>) -> bool {
    &&& order.len() == g.len()
    &&& forall|k: int| 0 <= k < order.len() ==> 0 <= #[trigger] order[k] < g.len()
    &&& forall|k: int, l: int| 0 <= k < l < order.len() ==> shortcut_place_before(g, #[trigger] order[k], #[trigger] order[l])
}

/// Whether a shortcut comes before another.
fn shortcut_less(x: &Shortcut, y: &Shortcut) -> (r: bool)
    ensures
        r == shortcut_before(shortcut_view(*x), shortcut_view(*y)),
{
    let xn = x.1 == ActionContext::NoContext;
    let yn = y.1 == ActionContext::NoContext;
    if xn && yn {
        if x.0.has_modifiers != y.0.has_modifiers {
            !x.0.has_modifiers
        } else {
            text_less(&chars_of(x.0.name.as_str()), &chars_of(y.0.name.as_str()))
        }
    } else if xn != yn {
        xn
    } else {
        text_less(&chars_of(x.1.name()), &chars_of(y.1.name()))
    }
}

/// A copy of a shortcut.
fn copy_shortcut(x: &Shortcut) -> (r: Shortcut)
    ensures
        shortcut_view(r) == shortcut_view(*x),
{
    (KeyId { name: x.0.name.clone(), has_modifiers: x.0.has_modifiers }, x.1)
}

/// Sorts shortcuts stably; see [`shortcuts_sorted`].
pub fn sort_shortcuts(g: &Vec<Shortcut>) -> (r: Vec<Shortcut>)
    ensures
        shortcuts_sorted(shortcuts_view(g@), shortcuts_view(r@)),
{
    let ghost s = shortcuts_view(g@);
    let n = g.len();
    let mut order: Vec<usize> = Vec::new();
    let mut i: usize = 0;
    while i < n
        invariant
            0 <= i <= n,
            n == g@.len(),
            s == shortcuts_view(g@),
            order.len() == i,
            forall|k: int| 0 <= k < order.len() ==> #[trigger] order@[k] < i,
            forall|k: int, l: int| 0 <= k < l < order.len() ==> shortcut_place_before(s, #[trigger] order@[k] as int, #[trigger] order@[l] as int),
        decreases n - i,
    {
        let mut p: usize = order.len();
        while p > 0 && shortcut_less(&g[i], &g[order[p - 1]])
            invariant
                0 <= p <= order.len(),
                i < n,
                n == g@.len(),
                s == shortcuts_view(g@),
                forall|k: int| 0 <= k < order.len() ==> #[trigger] order@[k] < i,
                forall|k: int, l: int| 0 <= k < l < order.len() ==> shortcut_place_before(s, #[trigger] order@[k] as int, #[trigger] order@[l] as int),
                forall|k: int| p <= k < order.len() ==> shortcut_before(s[i as int], s[#[trigger] order@[k] as int]),
            decreases p,
        {
            p = p - 1;
        }
        proof {
            if p > 0 {
                assert forall|k: int| 0 <= k < p implies !shortcut_before(s[i as int], s[#[trigger] order@[k] as int]) by {
                    if k < p - 1 {
                        assert(shortcut_place_before(s, order@[k] as int, order@[p - 1] as int));
                        lemma_shortcut_asym(s[order@[k] as int], s[order@[p - 1] as int]);
                        lemma_shortcut_step(s[i as int], s[order@[k] as int], s[order@[p - 1] as int]);
                    }
                }
            }
        }
        let ghost old_order = order@;
        order.insert(p, i);
        proof {
            assert forall|k: int, l: int| 0 <= k < l < order.len() implies shortcut_place_before(s, #[trigger] order@[k] as int, #[trigger] order@[l] as int) by {
                if k < p && l == p {
                    assert(order@[k] == old_order[k]);
                } else if k == p {
                    assert(order@[l] == old_order[l - 1]);
                    lemma_shortcut_asym(s[i as int], s[order@[l] as int]);
                } else if l < p {
                    assert(order@[k] == old_order[k] && order@[l] == old_order[l]);
                } else if k < p {
                    assert(order@[k] == old_order[k] && order@[l] == old_order[l - 1]);
                } else {
                    assert(order@[k] == old_order[k - 1] && order@[l] == old_order[l - 1]);
                }
            }
            assert forall|k: int| 0 <= k < order.len() implies #[trigger] order@[k] < i + 1 by {
                if k < p {
                    assert(order@[k] == old_order[k]);
                } else if k > p {
                    assert(order@[k] == old_order[k - 1]);
                }
            }
        }
        i = i + 1;
    }
    let ghost ord: Seq<int> = order@.map_values(|k: usize| k as int);
    let mut r: Vec<Shortcut> = Vec::new();
    let mut k: usize = 0;
    while k < n
        invariant
            0 <= k <= n,
            n == g@.len(),
            s == shortcuts_view(g@),
            order.len() == n,
            ord == order@.map_values(|k: usize| k as int),
            forall|j: int| 0 <= j < n ==> #[trigger] order@[j] < n,
            shortcuts_view(r@) == ord.take(k as int).map_values(|i: int| s[i]),
        decreases n - k,
    {
        let x = copy_shortcut(&g[order[k]]);
        let ghost before = shortcuts_view(r@);
        r.push(x);
        proof {
            assert(ord.take(k + 1) =~= ord.take(k as int).push(ord[k as int]));
            assert(shortcuts_view(r@) =~= before.push(shortcut_view(x)));
            assert(shortcuts_view(r@) =~= ord.take(k + 1).map_values(|i: int| s[i]));
        }
        k = k + 1;
    }
    proof {
        assert(ord.take(n as int) =~= ord);
        assert(shortcut_order(s, ord)) by {
            assert forall|a: int, b: int| 0 <= a < b < ord.len() implies shortcut_place_before(s, #[trigger] ord[a], #[trigger] ord[b]) by {
                assert(shortcut_place_before(s, order@[a] as int, order@[b] as int));
            }
        }
    }
    r
}

/// The shortcuts of the mappings to the action named `name`, in the order
/// of the mappings.
pub open spec fn group_of(es: Seq<KeyMapping>, name: Seq<char>) -> Seq<((Seq<char>, bool), ActionContext)>
    decreases es.len(),
{
    if es.len() == 0 {
        Seq::empty()
    } else {
        let g = group_of(es.drop_last(), name);
        if action_name(es.last().2)@ == name {
            g.push((key_view(es.last().0), es.last().1))
        } else {
            g
        }
    }
}

/// The names of the actions of the mappings, each once, in the order in
/// which they first appear.
pub open spec fn action_names(es: Seq<KeyMapping>) -> Seq<Seq<char>>
    decreases es.len(),
{
    if es.len() == 0 {
        Seq::empty()
    } else {
        let ns = action_names(es.drop_last());
        let n = action_name(es.last().2)@;
        if ns.contains(n) {
            ns
        } else {
            ns.push(n)
        }
    }
}

/// `inv` maps the name of each mapped action (in the order of
/// [`action_names`]) to its shortcuts, sorted for display.
pub open spec fn inverted(es: Seq<KeyMapping>, inv: Seq<(Seq<char>, Seq<((Seq<char>, bool), ActionContext)>)>) -> bool {
    &&& inv.map_values(|x: (Seq<char>, Seq<((Seq<char>, bool), ActionContext)>)| x.0) == action_names(es)
    &&& forall|k: int| 0 <= k < inv.len() ==> shortcuts_sorted(group_of(es, (#[trigger] inv[k]).0), inv[k].1)
}

/// The plain values of an inverted key mapping.
pub open spec fn inverted_view(inv: Seq<(String, Vec<Shortcut>)>) -> Seq<(Seq<char>, Seq<((Seq<char>, bool), ActionContext)>)> {
    inv.map_values(|x: (String, Vec<Shortcut>)| (x.0@, shortcuts_view(x.1@)))
}

/// Whether a name is among the names.
fn contains_name(names: &Vec<String>, name: &str) -> (r: bool)
    ensures
        r == crate::paths::strings_view(names@).contains(name@),
{
    let ghost v = crate::paths::strings_view(names@);
    let mut i: usize = 0;
    while i < names.len()
        invariant
            0 <= i <= names@.len(),
            v == crate::paths::strings_view(names@),
            forall|j: int| 0 <= j < i ==> v[j] != name@,
        decreases names@.len() - i,
    {
        if str_eq(names[i].as_str(), name) {
            assert(v[i as int] == name@);
            return true;
        }
        i = i + 1;
    }
    false
}

/// The shortcuts of the mappings to the action named `name`.
fn collect_group(es: &Vec<KeyMapping>, name: &str) -> (r: Vec<Shortcut>)
    ensures
        shortcuts_view(r@) == group_of(es@, name@),
{
    let mut r: Vec<Shortcut> = Vec::new();
    let mut i: usize = 0;
    while i < es.len()
        invariant
            0 <= i <= es@.len(),
            shortcuts_view(r@) == group_of(es@.take(i as int), name@),
        decreases es@.len() - i,
    {
        proof {
            assert(es@.take(i + 1).drop_last() =~= es@.take(i as int));
            assert(es@.take(i + 1).last() == es@[i as int]);
        }
        let e = &es[i];
        if str_eq(e.2.name(), name) {
            let x = (KeyId { name: e.0.name.clone(), has_modifiers: e.0.has_modifiers }, e.1);
            let ghost before = shortcuts_view(r@);
            r.push(x);
            proof {
                assert(shortcuts_view(r@) =~= before.push(shortcut_view(x)));
            }
        }
        i = i + 1;
    }
    assert(es@.take(es@.len() as int) =~= es@);
    r
}

/// Inverts a key mapping: for each action that a key is mapped to, by name,
/// the keys (with their contexts) mapped to it, sorted for display (see
/// [`shortcut_before`]); see [`inverted`].
pub fn invert_key_mapping_sorted(key_mapping: &Keymap) -> (r: Vec<(String, Vec<Shortcut>)>)
    ensures
        inverted(key_mapping.entries_of(), inverted_view(r@)),
{
    let es = key_mapping.entries();
    let mut names: Vec<String> = Vec::new();
    let mut i: usize = 0;
    while i < es.len()
        invariant
            0 <= i <= es@.len(),
            es@ == key_mapping.entries_of(),
            crate::paths::strings_view(names@) == action_names(es@.take(i as int)),
        decreases es@.len() - i,
    {
        proof {
            assert(es@.take(i + 1).drop_last() =~= es@.take(i as int));
            assert(es@.take(i + 1).last() == es@[i as int]);
        }
        let n = es[i].2.name();
        if !contains_name(&names, n) {
            let owned = String::from_str(n);
            proof {
                crate::paths::lemma_strings_view_push(names@, owned);
            }
            names.push(owned);
        }
        i = i + 1;
    }
    assert(es@.take(es@.len() as int) =~= es@);
    let ghost ns = crate::paths::strings_view(names@);
    let mut r: Vec<(String, Vec<Shortcut>)> = Vec::new();
    let mut k: usize = 0;
    while k < names.len()
        invariant
            0 <= k <= names@.len(),
            es@ == key_mapping.entries_of(),
            ns == crate::paths::strings_view(names@),
            ns == action_names(es@),
            inverted_view(r@).map_values(|x: (Seq<char>, Seq<((Seq<char>, bool), ActionContext)>)| x.0) == ns.take(k as int),
            forall|j: int| 0 <= j < r@.len() ==> shortcuts_sorted(group_of(es@, (#[trigger] inverted_view(r@)[j]).0), inverted_view(r@)[j].1),
        decreases names@.len() - k,
    {
        let g = collect_group(es, names[k].as_str());
        let sorted = sort_shortcuts(&g);
        let ghost before = inverted_view(r@);
        r.push((names[k].clone(), sorted));
        proof {
            assert(inverted_view(r@) =~= before.push((ns[k as int], shortcuts_view(sorted@))));
            assert(ns.take(k + 1) =~= ns.take(k as int).push(ns[k as int]));
            assert(inverted_view(r@).map_values(|x: (Seq<char>, Seq<((Seq<char>, bool), ActionContext)>)| x.0)
                =~= before.map_values(|x: (Seq<char>, Seq<((Seq<char>, bool), ActionContext)>)| x.0).push(ns[k as int]));
        }
        k = k + 1;
    }
    assert(ns.take(names@.len() as int) =~= ns);
    r
}

/// The width in bytes of the first cell of a row, backticks left out; the
/// cell is not trimmed.
pub open spec fn first_cell_width(line: Seq<char>) -> int {
    utf8_len(without_char(cell(split_on(line, '|'), 1), '`'))
}

/// The widest first cell among the lines, or 10 if there are no lines.
pub open spec fn first_column_width(lines: Seq<Seq<char>>) -> int
    decreases lines.len(),
{
    if lines.len() == 0 {
        10
    } else if lines.len() == 1 {
        first_cell_width(lines[0])
    } else {
        let m = first_column_width(lines.drop_last());
        let w = first_cell_width(lines.last());
        if w > m { w } else { m }
    }
}

/// A key in backticks, with the short description of its context unless it
/// has none.
pub open spec fn shortcut_text(x: ((Seq<char>, bool), ActionContext)) -> Seq<char> {
    "`"@ + x.0.0 + "`"@ + (if x.1 == ActionContext::NoContext {
        Seq::empty()
    } else {
        " ("@ + context_short_description(x.1)@ + ")"@
    })
}

/// The shortcuts written out, separated by commas.
pub open spec fn shortcuts_text(xs: Seq<((Seq<char>, bool), ActionContext)>) -> Seq<char>
    decreases xs.len(),
{
    if xs.len() == 0 {
        Seq::empty()
    } else if xs.len() == 1 {
        shortcut_text(xs[0])
    } else {
        shortcuts_text(xs.drop_last()) + ", "@ + shortcut_text(xs.last())
    }
}

/// The shortcuts of the action named `name` in an inverted key mapping.
pub open spec fn lookup(inv: Seq<(Seq<char>, Seq<((Seq<char>, bool), ActionContext)>)>, name: Seq<char>) -> Option<Seq<((Seq<char>, bool), ActionContext)>>
    decreases inv.len(),
{
    if inv.len() == 0 {
        None
    } else if inv[0].0 == name {
        Some(inv[0].1)
    } else {
        lookup(inv.drop_first(), name)
    }
}

/// The two cells of row `i` of the justified table: the header in backticks
/// for the first row, nothing for the second (the markdown rule), and for
/// the others the description with the shortcuts of the action named in the
/// third cell.
pub open spec fn row_cells(i: int, line: Seq<char>, inv: Seq<(Seq<char>, Seq<((Seq<char>, bool), ActionContext)>)>) -> Option<(Seq<char>, Seq<char>)> {
    let cols = columns(line);
    if i == 0 {
        Some(("`"@ + cell(cols, 1) + "`"@, "`"@ + replaced(cell(cols, 2), "Default s"@, "S"@) + "`"@))
    } else if i == 1 {
        None
    } else {
        let name = trimmed(without_char(cell(cols, 3), '`'));
        Some((cell(cols, 1), match lookup(inv, name) {
            Some(xs) => shortcuts_text(xs),
            None => "No mapping found"@,
        }))
    }
}

/// `n` spaces.
pub open spec fn spaces(n: int) -> Seq<char> {
    Seq::new(if n > 0 { n as nat } else { 0 }, |i: int| ' ')
}

/// A row of the justified table: the description, padded to the width of
/// the first column plus two (backticks, which are dropped later, count as
/// nothing), then the shortcuts and a line break.
pub open spec fn row_text(desc: Seq<char>, shortcuts: Seq<char>, width: int) -> Seq<char> {
    let extra = desc.len() - without_char(desc, '`').len();
    desc + spaces(width + extra + 2 - utf8_len(desc)) + shortcuts + "\n"@
}

/// The first `n` rows of the justified table.
pub open spec fn justified_rows(lines: Seq<Seq<char>>, n: int, width: int, inv: Seq<(Seq<char>, Seq<((Seq<char>, bool), ActionContext)>)>) -> Seq<char>
    decreases n,
{
    if n <= 0 {
        Seq::empty()
    } else {
        justified_rows(lines, n - 1, width, inv) + match row_cells(n - 1, lines[n - 1], inv) {
            Some(cells) => row_text(cells.0, cells.1, width),
            None => Seq::empty(),
        }
    }
}

/// The table of keyboard shortcuts of the README with the shortcuts of the
/// key mapping, justified, without the markdown table markup.
pub open spec fn justified_table(es: Seq<KeyMapping>, inv: Seq<(Seq<char>, Seq<((Seq<char>, bool), ActionContext)>)>) -> Seq<char> {
    let lines = lines_of(shortcuts_table_of(README_STR@));
    justified_rows(lines, lines.len() as int, first_column_width(lines), inv)
}

/// Writes the shortcuts, separated by commas; see [`shortcuts_text`].
fn write_shortcuts(xs: &Vec<Shortcut>) -> (r: String)
    ensures
        r@ == shortcuts_text(shortcuts_view(xs@)),
{
    proof {
        reveal_strlit("`");
        reveal_strlit(" (");
        reveal_strlit(")");
        reveal_strlit(", ");
    }
    let ghost v = shortcuts_view(xs@);
    let mut r = String::new();
    let mut i: usize = 0;
    while i < xs.len()
        invariant
            0 <= i <= xs@.len(),
            v == shortcuts_view(xs@),
            r@ == shortcuts_text(v.take(i as int)),
        decreases xs@.len() - i,
    {
        proof {
            assert(v.take(i + 1).drop_last() =~= v.take(i as int));
            assert(v.take(i + 1).last() == v[i as int]);
        }
        if i > 0 {
            r.append(", ");
        }
        let x = &xs[i];
        r.append("`");
        r.append(x.0.name.as_str());
        r.append("`");
        if x.1 != ActionContext::NoContext {
            r.append(" (");
            r.append(x.1.short_description());
            r.append(")");
        }
        proof {
            let st = shortcut_text(v[i as int]);
            if i == 0 {
                assert(v.take(1) =~= seq![v[0]]);
            }
            assert(r@ =~= (if i == 0 { Seq::<char>::empty() } else { shortcuts_text(v.take(i as int)) + ", "@ }) + st);
        }
        i = i + 1;
    }
    assert(v.take(xs@.len() as int) =~= v);
    r
}

/// The shortcuts of the action named `name`, if it is mapped; see
/// [`lookup`].
fn find_shortcuts<'a>(inv: &'a Vec<(String, Vec<Shortcut>)>, name: &str) -> (r: Option<&'a Vec<Shortcut>>)
    ensures
        match r {
            Some(xs) => lookup(inverted_view(inv@), name@) == Some(shortcuts_view(xs@)),
            None => lookup(inverted_view(inv@), name@) is None,
        },
{
    let ghost iv = inverted_view(inv@);
    let mut i: usize = 0;
    assert(iv.skip(0) =~= iv);
    while i < inv.len()
        invariant
            0 <= i <= inv@.len(),
            iv == inverted_view(inv@),
            lookup(iv, name@) == lookup(iv.skip(i as int), name@),
        decreases inv@.len() - i,
    {
        proof {
            assert(iv.skip(i as int).drop_first() =~= iv.skip(i + 1));
            assert(iv.skip(i as int)[0] == iv[i as int]);
        }
        if str_eq(inv[i].0.as_str(), name) {
            return Some(&inv[i].1);
        }
        i = i + 1;
    }
    None
}

/// The width of the first column of the lines; see [`first_column_width`].
fn column_width(lines: &Vec<Vec<char>>) -> (r: u128)
    ensures
        r == first_column_width(vecs_view(lines@)),
        r <= 4 * usize::MAX,
{
    let ghost ls = vecs_view(lines@);
    if lines.len() == 0 {
        return 10;
    }
    let mut m: u128 = 0;
    let mut i: usize = 0;
    while i < lines.len()
        invariant
            0 <= i <= lines@.len(),
            lines@.len() > 0,
            ls == vecs_view(lines@),
            i > 0 ==> m == first_column_width(ls.take(i as int)),
            m <= 4 * usize::MAX,
        decreases lines@.len() - i,
    {
        let parts = split_chars(&lines[i], '|');
        let first: Vec<char> = if parts.len() > 1 { remove_char(&parts[1], '`') } else { Vec::new() };
        let first_len = first.len();
        let w = utf8_byte_len(&first);
        proof {
            assert(ls.take(i + 1).drop_last() =~= ls.take(i as int));
            assert(ls.take(i + 1).last() == ls[i as int]);
            assert(w == first_cell_width(ls[i as int]));
            if i == 0 {
                assert(ls.take(1).len() == 1);
            }
        }
        if i == 0 || w > m {
            m = w;
        }
        i = i + 1;
    }
    assert(ls.take(lines@.len() as int) =~= ls);
    m
}

/// The table of keyboard shortcuts of the README, written with the keys of
/// the key mapping and justified; see [`justified_table`].
pub fn get_justified_keyboard_shortcuts_table(key_mapping: &Keymap) -> (r: String)
    ensures
        exists|inv: Seq<(Seq<char>, Seq<((Seq<char>, bool), ActionContext)>)>|
            #[trigger] inverted(key_mapping.entries_of(), inv) && r@ == justified_table(key_mapping.entries_of(), inv),
{
    proof {
        reveal_strlit("`");
        reveal_strlit("Default s");
        reveal_strlit("S");
        reveal_strlit("No mapping found");
        reveal_strlit(" ");
        reveal_strlit("\n");
    }
    let table = get_keyboard_shortcuts_table();
    let lines = text_lines(table);
    let ghost ls = vecs_view(lines@);
    let width = column_width(&lines);
    let inv = invert_key_mapping_sorted(key_mapping);
    let ghost iv = inverted_view(inv@);
    let mut justified = String::new();
    let mut i: usize = 0;
    while i < lines.len()
        invariant
            0 <= i <= lines@.len(),
            ls == vecs_view(lines@),
            ls == lines_of(shortcuts_table_of(README_STR@)),
            width == first_column_width(ls),
            width <= 4 * usize::MAX,
            iv == inverted_view(inv@),
            justified@ == justified_rows(ls, i as int, width as int, iv),
        decreases lines@.len() - i,
    {
        let cols = row_columns(&lines[i]);
        let ghost cv = vecs_view(cols@);
        let c1: Vec<char> = if cols.len() > 1 { cols[1].clone() } else { Vec::new() };
        assert(c1@ == cell(cv, 1));
        if i != 1 {
            let (desc, shortcuts) = if i == 0 {
                let c2: Vec<char> = if cols.len() > 2 { cols[2].clone() } else { Vec::new() };
                assert(c2@ == cell(cv, 2));
                let mut d = String::new();
                d.append("`");
                append_chars(&mut d, c1.as_slice());
                d.append("`");
                let c2s = string_from_chars(c2.as_slice());
                let mut sc = String::new();
                sc.append("`");
                let default_s: &str = "Default s";
                proof {
                    reveal_strlit("Default s");
                }
                assert(default_s@.len() == 9);
                let rep = replace_text(c2s.as_str(), default_s, "S");
                sc.append(rep.as_str());
                sc.append("`");
                (d, sc)
            } else {
                proof {
                    reveal_strlit("No mapping found");
                }
                let c3: Vec<char> = if cols.len() > 3 { cols[3].clone() } else { Vec::new() };
                assert(c3@ == cell(cv, 3));
                let name = string_from_chars(trim_chars(&remove_char(&c3, '`')).as_slice());
                let sc = match find_shortcuts(&inv, name.as_str()) {
                    Some(xs) => write_shortcuts(xs),
                    None => String::from_str("No mapping found"),
                };
                (string_from_chars(c1.as_slice()), sc)
            };
            let dcs = chars_of(desc.as_str());
            let unticked = remove_char(&dcs, '`');
            proof {
                lemma_without_char_len(dcs@, '`');
                reveal_strlit("\n");
            }
            let extra = dcs.len() - unticked.len();
            let dlen = utf8_byte_len(&dcs);
            proof {
                assert(row_cells(i as int, ls[i as int], iv) == Some((desc@, shortcuts@)));
            }
            justified.append(desc.as_str());
            let target: u128 = width + extra as u128 + 2;
            let padding: u128 = if target > dlen { target - dlen } else { 0 };
            let mut k: u128 = 0;
            let ghost base = justified@;
            while k < padding
                invariant
                    0 <= k <= padding,
                    justified@ == base + spaces(k as int),
                decreases padding - k,
            {
                push_char(&mut justified, ' ');
                assert(spaces(k + 1) =~= spaces(k as int).push(' '));
                k = k + 1;
            }
            justified.append(shortcuts.as_str());
            justified.append("\n");
            proof {
                assert(spaces(padding as int) =~= spaces(width + extra + 2 - dlen));
                assert(justified@ =~= justified_rows(ls, i as int, width as int, iv) + row_text(desc@, shortcuts@, width as int));
            }
        } else {
            assert(row_cells(1, ls[1], iv) is None);
        }
        i = i + 1;
    }
    justified
}

proof fn lemma_without_char_len(s: Seq<char>, c: char)
    ensures
        without_char(s, c).len() <= s.len(),
    decreases s.len(),
{
    if s.len() > 0 {
        lemma_without_char_len(s.drop_last(), c);
    }
}

/// The lines joined with line breaks between them.
pub open spec fn join_lines(ls: Seq<Seq<char>>) -> Seq<char>
    decreases ls.len(),
{
    if ls.len() == 0 {
        Seq::empty()
    } else if ls.len() == 1 {
        ls[0]
    } else {
        join_lines(ls.drop_last()) + "\n"@ + ls.last()
    }
}

/// The lines that do not mention shortcuts being familiar to Vim users.
pub open spec fn without_vim_lines(ls: Seq<Seq<char>>) -> Seq<Seq<char>>
    decreases ls.len(),
{
    if ls.len() == 0 {
        Seq::empty()
    } else if contains_text(ls.last(), "should be familiar to"@) {
        without_vim_lines(ls.drop_last())
    } else {
        without_vim_lines(ls.drop_last()).push(ls.last())
    }
}

/// The text between the first `a` and the first `b` after it, or empty if
/// either is missing.
pub open spec fn section(t: Seq<char>, a: Seq<char>, b: Seq<char>) -> Seq<char> {
    match (first_match_from(t, a, 0), first_match_from(t, b, 0)) {
        (Some(i), Some(j)) => if i <= j { t.subrange(i, j) } else { Seq::empty() },
        _ => Seq::empty(),
    }
}

/// The text before the first `sep` and the text after it; the whole text
/// and nothing if there is no `sep`.
pub open spec fn split_once(t: Seq<char>, sep: Seq<char>) -> (Seq<char>, Seq<char>) {
    match first_match_from(t, sep, 0) {
        Some(i) => (t.take(i), t.skip(i + sep.len())),
        None => (t, Seq::empty()),
    }
}

/// The help text: the user guide of the README, with its table of shortcuts
/// replaced by `table`, without the line about Vim users, and with `<kbd>`
/// tags turned into backticks.
pub open spec fn help_text_of(readme: Seq<char>, table: Seq<char>) -> Seq<char> {
    let guide = section(readme, "## User guide"@, "## Similar projects"@);
    let (before, after_start) = split_once(guide, "\n\n|"@);
    let after = split_once(after_start, "\n\n"@).1;
    let head = replaced(before + "\n\n"@, "shortcuts by default"@, "shortcuts"@) + table;
    let text = head + join_lines(without_vim_lines(split_on(after, '\n')));
    replaced(replaced(text, "<kbd>"@, "`"@), "</kbd>"@, "`"@)
}

/// Splits a text once at `sep`; see [`split_once`].
fn split_once_chars(t: &Vec<char>, sep: &Vec<char>) -> (r: (Vec<char>, Vec<char>))
    requires
        sep@.len() > 0,
    ensures
        (r.0@, r.1@) == split_once(t@, sep@),
{
    match find_from(t, sep, 0) {
        Some(i) => {
            proof {
                crate::text::lemma_match_bound(t@, sep@, 0, i as int);
            }
            let mut a: Vec<char> = Vec::new();
            let mut k: usize = 0;
            while k < i
                invariant
                    0 <= k <= i,
                    i <= t@.len(),
                    a@ == t@.take(k as int),
                decreases i - k,
            {
                a.push(t[k]);
                assert(t@.take(k + 1) =~= t@.take(k as int).push(t@[k as int]));
                k = k + 1;
            }
            let mut b: Vec<char> = Vec::new();
            let tl = t.len();
            assert(i + sep@.len() <= tl);
            let mut k: usize = i + sep.len();
            let ghost st = i + sep@.len();
            while k < t.len()
                invariant
                    st <= k <= t@.len(),
                    st == i + sep@.len(),
                    b@ == t@.subrange(st, k as int),
                decreases t@.len() - k,
            {
                b.push(t[k]);
                assert(t@.subrange(st, k + 1) =~= t@.subrange(st, k as int).push(t@[k as int]));
                k = k + 1;
            }
            assert(b@ =~= t@.skip(st));
            (a, b)
        },
        None => (t.clone(), Vec::new()),
    }
}

/// The help text for the help window, wrapped to `width` and styled: the
/// user guide of the README, with the keyboard shortcuts of the key mapping;
/// see [`help_text_of`].
pub fn get_formatted_help_text(width: usize, key_mapping: &Keymap) -> (r: Vec<Vec<StyledChunk>>)
    ensures
        exists|inv: Seq<(Seq<char>, Seq<((Seq<char>, bool), ActionContext)>)>|
            #[trigger] inverted(key_mapping.entries_of(), inv) && (
                help_text_of(README_STR@, justified_table(key_mapping.entries_of(), inv)).len() < usize::MAX ==>
                lines_view(r@) == wrapped_and_styled(help_text_of(README_STR@, justified_table(key_mapping.entries_of(), inv)), width)),
{
    let cs = chars_of(README_STR);
    let guide_mark = chars_of("## User guide");
    let end_mark = chars_of("## Similar projects");
    let table_mark = chars_of("\n\n|");
    let blank = chars_of("\n\n");
    proof {
        reveal_strlit("## User guide");
        reveal_strlit("## Similar projects");
        reveal_strlit("\n\n|");
        reveal_strlit("\n\n");
    }
    let guide: Vec<char> = match (find_from(&cs, &guide_mark, 0), find_from(&cs, &end_mark, 0)) {
        (Some(i), Some(j)) => {
            proof {
                crate::text::lemma_match_bound(cs@, guide_mark@, 0, i as int);
                crate::text::lemma_match_bound(cs@, end_mark@, 0, j as int);
            }
            if i <= j {
                let mut g: Vec<char> = Vec::new();
                let mut k: usize = i;
                while k < j
                    invariant
                        i <= k <= j,
                        j <= cs@.len(),
                        g@ == cs@.subrange(i as int, k as int),
                    decreases j - k,
                {
                    g.push(cs[k]);
                    assert(cs@.subrange(i as int, k + 1) =~= cs@.subrange(i as int, k as int).push(cs@[k as int]));
                    k = k + 1;
                }
                g
            } else {
                Vec::new()
            }
        },
        _ => Vec::new(),
    };
    let (before, after_start) = split_once_chars(&guide, &table_mark);
    let (_, after) = split_once_chars(&after_start, &blank);
    let mut head = string_from_chars(before.as_slice());
    proof {
        reveal_strlit("shortcuts by default");
        reveal_strlit("shortcuts");
    }
    head.append("\n\n");
    let by_default: &str = "shortcuts by default";
    proof {
        reveal_strlit("shortcuts by default");
    }
    assert(by_default@.len() > 0);
    let mut help = replace_text(head.as_str(), by_default, "shortcuts");
    let table = get_justified_keyboard_shortcuts_table(key_mapping);
    help.append(table.as_str());
    let parts = split_chars(&after, '\n');
    let ghost ps = vecs_view(parts@);
    let familiar = chars_of("should be familiar to");
    proof {
        reveal_strlit("should be familiar to");
        reveal_strlit("\n");
    }
    let mut first = true;
    let ghost head_len = help@;
    let mut i: usize = 0;
    while i < parts.len()
        invariant
            0 <= i <= parts@.len(),
            ps == vecs_view(parts@),
            familiar@ == "should be familiar to"@,
            familiar@.len() > 0,
            first == (without_vim_lines(ps.take(i as int)).len() == 0),
            help@ == head_len + join_lines(without_vim_lines(ps.take(i as int))),
        decreases parts@.len() - i,
    {
        proof {
            assert(ps.take(i + 1).drop_last() =~= ps.take(i as int));
            assert(ps.take(i + 1).last() == ps[i as int]);
        }
        if find_from(&parts[i], &familiar, 0).is_none() {
            let ghost kept = without_vim_lines(ps.take(i as int));
            if !first {
                help.append("\n");
            }
            append_chars(&mut help, parts[i].as_slice());
            proof {
                if kept.len() == 0 {
                    assert(kept.push(ps[i as int]) =~= seq![ps[i as int]]);
                } else {
                    assert(kept.push(ps[i as int]).drop_last() =~= kept);
                }
                assert(help@ =~= head_len + join_lines(kept.push(ps[i as int])));
            }
            first = false;
        }
        i = i + 1;
    }
    assert(ps.take(parts@.len() as int) =~= ps);
    let kbd: &str = "<kbd>";
    let kbd_end: &str = "</kbd>";
    proof {
        reveal_strlit("<kbd>");
        reveal_strlit("</kbd>");
    }
    assert(kbd@.len() > 0 && kbd_end@.len() > 0);
    let help = replace_text(help.as_str(), kbd, "`");
    let help = replace_text(help.as_str(), kbd_end, "`");
    let hcs = chars_of(help.as_str());
    if hcs.len() == usize::MAX {
        return Vec::new();
    }
    wrap_and_stylize(help.as_str(), width)
}

} // verus!
