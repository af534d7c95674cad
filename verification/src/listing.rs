//! The items of a folder listing, and which of them match the search.
use vstd::prelude::*;
use crate::search::{lowercased, to_lowercase};
use vstd::string::StringExecFns;
use crate::settings::SortMode;
use crate::text::chars_of;

verus! {

/// What the listing keeps of an item of a folder.
#[derive(Debug, Clone)]
pub struct CustomDirEntry {
    /// The path of the item.
    pub path: String,
    /// The name of the item; empty where the name is not valid Unicode.
    pub file_name: String,
    /// Whether the item is a folder, or a link to a folder.
    pub is_folder: bool,
    /// When the item was created, in nanoseconds after the Unix epoch; zero
    /// where the time is not known.
    pub created_ns: u128,
    /// When the item was last modified, in nanoseconds after the Unix epoch;
    /// zero where the time is not known.
    pub modified_ns: u128,
    /// Where the item points to, if it is a symbolic link.
    pub symlink_target: Option<String>,
}

impl CustomDirEntry {
    /// An entry for a path of one's own choosing, which counts as a folder;
    /// its times are those given.
    pub fn custom(path: &str, created_ns: u128, modified_ns: u128) -> (e: CustomDirEntry)
        ensures
            e.path@ == path@,
            e.file_name@ == path@,
            e.is_folder,
            e.created_ns == created_ns,
            e.modified_ns == modified_ns,
            e.symlink_target is None,
    {
        CustomDirEntry {
            path: String::from_str(path),
            file_name: String::from_str(path),
            is_folder: true,
            created_ns,
            modified_ns,
            symlink_target: None,
        }
    }

    /// The name of the item.
    pub fn file_name_checked(&self) -> (r: String)
        ensures
            r@ == self.file_name@,
    {
        self.file_name.clone()
    }

    /// The path of the item.
    pub fn path(&self) -> (r: &String)
        ensures
            r == &self.path,
    {
        &self.path
    }

    /// Whether the item is a folder.
    pub fn is_dir(&self) -> (r: bool)
        ensures
            r == self.is_folder,
    {
        self.is_folder
    }

    /// When the item was created.
    pub fn created(&self) -> (r: u128)
        ensures
            r == self.created_ns,
    {
        self.created_ns
    }

    /// When the item was last modified.
    pub fn modified(&self) -> (r: u128)
        ensures
            r == self.modified_ns,
    {
        self.modified_ns
    }
}

#[verifier::external_type_specification]
#[verifier::external_body]
pub struct ExRegex(regex::Regex);

/// Whether `regex::Regex::new` accepts a pattern (it refuses a pattern that is
/// not valid, or whose compiled form is over its size limits).
pub uninterp spec fn regex_compiles(pattern: Seq<char>) -> bool;

/// What `regex::Regex::captures_read` finds in a text for a pattern: `None`
/// where the pattern does not match, else the span of each group in the
/// leftmost-first match (group zero is the whole match), `None` for a group
/// that took no part in it. Spans are byte offsets into the text.
pub uninterp spec fn regex_captures(pattern: Seq<char>, text: Seq<char>) -> Option<Seq<Option<(usize, usize)>>>;

/// A compiled search pattern, with the text it was compiled from.
pub struct SearchPattern {
    regex: regex::Regex,
    pattern: String,
}

impl View for SearchPattern {
    type V = Seq<char>;

    closed spec fn view(&self) -> Seq<char> {
        self.pattern@
    }
}

/// `regex::Regex::new`: compiles a pattern, or refuses it.
#[verifier::external_body]
pub(crate) fn compile_pattern(pattern: &str) -> (r: Option<SearchPattern>)
    ensures
        match r {
            Some(p) => regex_compiles(pattern@) && p@ == pattern@,
            None => !regex_compiles(pattern@),
        },
{
    match regex::Regex::new(pattern) {
        Ok(regex) => Some(SearchPattern { regex, pattern: pattern.to_string() }),
        Err(_) => None,
    }
}

/// `regex::Regex::captures_read`: the spans of the groups of the first match
/// of the pattern in the text, if there is one; see [`regex_captures`].
#[verifier::external_body]
fn captures(p: &SearchPattern, text: &str) -> (r: Option<Vec<Option<(usize, usize)>>>)
    ensures
        match r {
            Some(v) => regex_captures(p@, text@) == Some(v@),
            None => regex_captures(p@, text@) is None,
        },
{
    let mut locs = p.regex.capture_locations();
    match p.regex.captures_read(&mut locs, text) {
        Some(_) => Some((0..locs.len()).map(|i| locs.get(i)).collect()),
        None => None,
    }
}

/// The spans of the groups after group zero that took part in a match.
pub open spec fn group_spans(groups: Seq<Option<(usize, usize)>>) -> Seq<(usize, usize)>
    decreases groups.len(),
{
    if groups.len() <= 1 {
        Seq::empty()
    } else {
        let rest = group_spans(groups.drop_last());
        match groups.last() {
            Some(span) => rest.push(span),
            None => rest,
        }
    }
}

/// Keeps the spans of the groups after group zero that took part in a match;
/// see [`group_spans`].
pub fn match_locations(groups: &Vec<Option<(usize, usize)>>) -> (r: Vec<(usize, usize)>)
    ensures
        r@ == group_spans(groups@),
{
    let mut r: Vec<(usize, usize)> = Vec::new();
    if groups.len() == 0 {
        return r;
    }
    let mut i: usize = 1;
    while i < groups.len()
        invariant
            1 <= i <= groups@.len(),
            r@ == group_spans(groups@.take(i as int)),
        decreases groups@.len() - i,
    {
        proof {
            assert(groups@.take(i + 1).drop_last() =~= groups@.take(i as int));
            assert(groups@.take(i + 1).last() == groups@[i as int]);
        }
        match groups[i] {
            Some(span) => r.push(span),
            None => {},
        }
        i = i + 1;
    }
    assert(groups@.take(groups@.len() as int) =~= groups@);
    r
}

/// The text that the search is matched against for an item: its name, in
/// lower case unless the search is case sensitive.
pub open spec fn search_target(e: CustomDirEntry, case_sensitive: bool) -> Seq<char> {
    if case_sensitive {
        e.file_name@
    } else {
        lowercased(e.file_name@)
    }
}

/// Where the pattern matches an item: `None` for an item that is skipped
/// (a file, while only folders are searched) or that does not match, else
/// the spans of the groups of the match.
pub open spec fn item_match(pattern: Seq<char>, e: CustomDirEntry, case_sensitive: bool, ignore_files: bool) -> Option<Seq<(usize, usize)>> {
    if ignore_files && !e.is_folder {
        None
    } else {
        match regex_captures(pattern, search_target(e, case_sensitive)) {
            Some(groups) => Some(group_spans(groups)),
            None => None,
        }
    }
}

/// The matching items among `items`, in order: the index of each with the
/// spans of its match.
pub open spec fn matches_of(pattern: Seq<char>, items: Seq<CustomDirEntry>, case_sensitive: bool, ignore_files: bool) -> Seq<(int, Seq<(usize, usize)>)>
    decreases items.len(),
{
    if items.len() == 0 {
        Seq::empty()
    } else {
        let rest = matches_of(pattern, items.drop_last(), case_sensitive, ignore_files);
        match item_match(pattern, items.last(), case_sensitive, ignore_files) {
            Some(spans) => rest.push((items.len() - 1, spans)),
            None => rest,
        }
    }
}

/// The view of a list of matches: each index with the spans of its match.
pub open spec fn matches_view(ms: Seq<(usize, Vec<(usize, usize)>)>) -> Seq<(int, Seq<(usize, usize)>)> {
    ms.map_values(|m: (usize, Vec<(usize, usize)>)| (m.0 as int, m.1@))
}

/// The indices are increasing and point into a list of `n` items.
pub open spec fn indices_ok(ms: Seq<(int, Seq<(usize, usize)>)>, n: int) -> bool {
    &&& forall|i: int| 0 <= i < ms.len() ==> 0 <= #[trigger] ms[i].0 < n
    &&& forall|i: int, j: int| 0 <= i < j < ms.len() ==> #[trigger] ms[i].0 < #[trigger] ms[j].0
}

proof fn lemma_matches_of_indices(pattern: Seq<char>, items: Seq<CustomDirEntry>, cs: bool, ig: bool)
    ensures
        indices_ok(matches_of(pattern, items, cs, ig), items.len() as int),
    decreases items.len(),
{
    if items.len() > 0 {
        let rest = matches_of(pattern, items.drop_last(), cs, ig);
        lemma_matches_of_indices(pattern, items.drop_last(), cs, ig);
        match item_match(pattern, items.last(), cs, ig) {
            Some(spans) => {
                let r = rest.push((items.len() - 1, spans));
                assert forall|i: int, j: int| 0 <= i < j < r.len() implies #[trigger] r[i].0 < #[trigger] r[j].0 by {
                    if j == r.len() - 1 {
                        assert(r[i] == rest[i]);
                    } else {
                        assert(r[i] == rest[i] && r[j] == rest[j]);
                    }
                }
                assert forall|i: int| 0 <= i < r.len() implies 0 <= #[trigger] r[i].0 < items.len() by {
                    if i < rest.len() {
                        assert(r[i] == rest[i]);
                    }
                }
            },
            None => {},
        }
    }
}

/// The items of a folder, and those among them that match the search.
pub struct MatchesVec {
    all_items: Vec<CustomDirEntry>,
    /// The matching items: the index of each in `all_items`, in increasing
    /// order, with the byte spans of the match in its name.
    matches: Vec<(usize, Vec<(usize, usize)>)>,
}

impl MatchesVec {
    /// All the items.
    pub closed spec fn items(self) -> Seq<CustomDirEntry> {
        self.all_items@
    }

    /// The matching items, by index into [`Self::items`], with the spans of
    /// each match.
    pub closed spec fn matched(self) -> Seq<(int, Seq<(usize, usize)>)> {
        matches_view(self.matches@)
    }

    /// The matches point into the items, in increasing order.
    pub open spec fn wf(self) -> bool {
        indices_ok(self.matched(), self.items().len() as int)
    }

    /// A listing of the given items, none of them matching.
    pub fn from(items: Vec<CustomDirEntry>) -> (m: MatchesVec)
        ensures
            m.wf(),
            m.items() == items@,
            m.matched() == Seq::<(int, Seq<(usize, usize)>)>::empty(),
    {
        let m = MatchesVec { all_items: items, matches: Vec::new() };
        assert(m.matched() =~= Seq::<(int, Seq<(usize, usize)>)>::empty());
        m
    }

    /// All the items.
    pub fn all_items(&self) -> (r: &Vec<CustomDirEntry>)
        ensures
            r@ == self.items(),
    {
        &self.all_items
    }

    /// The number of matching items.
    pub fn num_matches(&self) -> (r: usize)
        ensures
            r == self.matched().len(),
    {
        self.matches.len()
    }

    /// The indices of the matching items, in increasing order.
    pub fn kept_indices(&self) -> (r: Vec<usize>)
        ensures
            r@ == self.matched().map_values(|m: (int, Seq<(usize, usize)>)| m.0 as usize),
    {
        let mut r: Vec<usize> = Vec::new();
        let mut i: usize = 0;
        while i < self.matches.len()
            invariant
                0 <= i <= self.matches@.len(),
                r@ == self.matched().take(i as int).map_values(|m: (int, Seq<(usize, usize)>)| m.0 as usize),
            decreases self.matches@.len() - i,
        {
            r.push(self.matches[i].0);
            proof {
                assert(self.matched().take(i + 1) =~= self.matched().take(i as int).push(self.matched()[i as int]));
                assert(r@ =~= self.matched().take(i + 1).map_values(|m: (int, Seq<(usize, usize)>)| m.0 as usize));
            }
            i = i + 1;
        }
        assert(self.matched().take(self.matches@.len() as int) =~= self.matched());
        r
    }

    /// The matching items, in order.
    pub fn kept_items(&self) -> (r: Vec<&CustomDirEntry>)
        requires
            self.wf(),
        ensures
            r.len() == self.matched().len(),
            forall|i: int| 0 <= i < r.len() ==> *#[trigger] r@[i] == self.items()[self.matched()[i].0 as int],
    {
        let mut r: Vec<&CustomDirEntry> = Vec::new();
        let mut i: usize = 0;
        while i < self.matches.len()
            invariant
                0 <= i <= self.matches@.len(),
                self.wf(),
                r.len() == i,
                forall|j: int| 0 <= j < i ==> *#[trigger] r@[j] == self.items()[self.matched()[j].0 as int],
            decreases self.matches@.len() - i,
        {
            let k = self.matches[i].0;
            assert(self.matched()[i as int].0 == k);
            r.push(&self.all_items[k]);
            i = i + 1;
        }
        r
    }

    /// The index among all items of the match at a position among the
    /// matches.
    pub fn kept_index_at(&self, idx: usize) -> (r: usize)
        requires
            idx < self.matched().len(),
        ensures
            r == self.matched()[idx as int].0,
    {
        self.matches[idx].0
    }

    /// The spans of the match at a position among the matches, if there is
    /// one.
    pub fn match_at(&self, idx: usize) -> (r: Option<&Vec<(usize, usize)>>)
        ensures
            match r {
                Some(v) => idx < self.matched().len() && v@ == self.matched()[idx as int].1,
                None => idx >= self.matched().len(),
            },
    {
        if idx < self.matches.len() {
            Some(&self.matches[idx].1)
        } else {
            None
        }
    }

    /// The spans of the match of the item at an index among all items, if it
    /// matches.
    pub fn match_of_item(&self, item: usize) -> (r: Option<&Vec<(usize, usize)>>)
        requires
            self.wf(),
        ensures
            match r {
                Some(v) => exists|i: int| 0 <= i < self.matched().len() && self.matched()[i].0 == item && v@ == #[trigger] self.matched()[i].1,
                None => forall|i: int| 0 <= i < self.matched().len() ==> #[trigger] self.matched()[i].0 != item,
            },
    {
        let mut i: usize = 0;
        while i < self.matches.len()
            invariant
                0 <= i <= self.matches@.len(),
                forall|j: int| 0 <= j < i ==> #[trigger] self.matched()[j].0 != item,
            decreases self.matches@.len() - i,
        {
            if self.matches[i].0 == item {
                let v = &self.matches[i].1;
                assert(self.matched()[i as int] == (self.matches@[i as int].0 as int, v@));
                assert(self.matched()[i as int].1 == v@ && self.matched()[i as int].0 == item);
                return Some(v);
            }
            i = i + 1;
        }
        None
    }

    /// Matches the pattern against every item, keeping those that match;
    /// files are skipped if `ignore_files`, and names are compared in lower
    /// case unless `case_sensitive`.
    pub fn update_matches(&mut self, search_ptn: &SearchPattern, case_sensitive: bool, ignore_files: bool)
        ensures
            final(self).wf(),
            final(self).items() == old(self).items(),
            final(self).matched() == matches_of(search_ptn@, old(self).items(), case_sensitive, ignore_files),
    {
        let mut ms: Vec<(usize, Vec<(usize, usize)>)> = Vec::new();
        let mut i: usize = 0;
        while i < self.all_items.len()
            invariant
                0 <= i <= self.all_items@.len(),
                matches_view(ms@) == matches_of(search_ptn@, self.all_items@.take(i as int), case_sensitive, ignore_files),
            decreases self.all_items@.len() - i,
        {
            let item = &self.all_items[i];
            proof {
                assert(self.all_items@.take(i + 1).drop_last() =~= self.all_items@.take(i as int));
                assert(self.all_items@.take(i + 1).last() == *item);
            }
            if !(ignore_files && !item.is_folder) {
                let found = if case_sensitive {
                    captures(search_ptn, item.file_name.as_str())
                } else {
                    let target = to_lowercase(item.file_name.as_str());
                    captures(search_ptn, target.as_str())
                };
                match found {
                    Some(groups) => {
                        let locs = match_locations(&groups);
                        let ghost before = ms@;
                        ms.push((i, locs));
                        proof {
                            assert(matches_view(ms@) =~= matches_view(before).push((i as int, locs@)));
                        }
                    },
                    None => {},
                }
            }
            i = i + 1;
        }
        assert(self.all_items@.take(self.all_items@.len() as int) =~= self.all_items@);
        self.matches = ms;
        proof {
            lemma_matches_of_indices(search_ptn@, self.all_items@, case_sensitive, ignore_files);
        }
    }

    /// Forgets every match.
    pub fn clear_matches(&mut self)
        ensures
            final(self).wf(),
            final(self).items() == old(self).items(),
            final(self).matched() == Seq::<(int, Seq<(usize, usize)>)>::empty(),
    {
        self.matches = Vec::new();
        assert(self.matched() =~= Seq::<(int, Seq<(usize, usize)>)>::empty());
    }
}


/// The order of texts by their characters, as `String` orders them (UTF-8
/// keeps the order of code points).
pub open spec fn lex_less(a: Seq<char>, b: Seq<char>) -> bool
    decreases a.len(),
{
    if a.len() == 0 {
        b.len() > 0
    } else if b.len() == 0 {
        false
    } else if a[0] != b[0] {
        a[0] < b[0]
    } else {
        lex_less(a.drop_first(), b.drop_first())
    }
}

pub(crate) proof fn lemma_lex_asym(a: Seq<char>, b: Seq<char>)
    ensures
        lex_less(a, b) ==> !lex_less(b, a),
    decreases a.len(),
{
    if a.len() > 0 && b.len() > 0 && a[0] == b[0] {
        lemma_lex_asym(a.drop_first(), b.drop_first());
    }
}

pub(crate) proof fn lemma_lex_trans(a: Seq<char>, b: Seq<char>, c: Seq<char>)
    ensures
        lex_less(a, b) && lex_less(b, c) ==> lex_less(a, c),
    decreases a.len(),
{
    if a.len() > 0 && b.len() > 0 && c.len() > 0 {
        lemma_lex_trans(a.drop_first(), b.drop_first(), c.drop_first());
    }
}

pub(crate) proof fn lemma_lex_total(a: Seq<char>, b: Seq<char>)
    ensures
        a != b ==> lex_less(a, b) || lex_less(b, a),
    decreases a.len(),
{
    if a.len() == 0 && b.len() == 0 {
        assert(a =~= b);
    } else if a.len() > 0 && b.len() > 0 && a[0] == b[0] {
        lemma_lex_total(a.drop_first(), b.drop_first());
        if a.drop_first() == b.drop_first() {
            assert(a =~= b) by {
                assert forall|i: int| 0 <= i < a.len() implies a[i] == b[i] by {
                    if i > 0 {
                        assert(a[i] == a.drop_first()[i - 1]);
                        assert(b[i] == b.drop_first()[i - 1]);
                    }
                }
            }
        }
    } else if a.len() > 0 && b.len() > 0 {
        assert(a[0] < b[0] || b[0] < a[0]);
    }
}

/// After a common prefix, the order of two texts is that of their rests.
proof fn lemma_lex_skip(a: Seq<char>, b: Seq<char>, i: int)
    requires
        0 <= i <= a.len(),
        i <= b.len(),
        a.take(i) == b.take(i),
    ensures
        lex_less(a, b) == lex_less(a.skip(i), b.skip(i)),
    decreases i,
{
    if i > 0 {
        assert(a[0] == a.take(i)[0]);
        assert(b[0] == b.take(i)[0]);
        assert(a.drop_first().take(i - 1) =~= a.take(i).drop_first());
        assert(b.drop_first().take(i - 1) =~= b.take(i).drop_first());
        lemma_lex_skip(a.drop_first(), b.drop_first(), i - 1);
        assert(a.drop_first().skip(i - 1) =~= a.skip(i));
        assert(b.drop_first().skip(i - 1) =~= b.skip(i));
    } else {
        assert(a.skip(0) =~= a);
        assert(b.skip(0) =~= b);
    }
}

/// Compares two texts by their characters; see [`lex_less`].
pub fn text_less(a: &Vec<char>, b: &Vec<char>) -> (r: bool)
    ensures
        r == lex_less(a@, b@),
{
    let mut i: usize = 0;
    while i < a.len() && i < b.len() && a[i] == b[i]
        invariant
            0 <= i <= a@.len(),
            i <= b@.len(),
            a@.take(i as int) == b@.take(i as int),
        decreases a@.len() - i,
    {
        assert(a@.take(i + 1) =~= a@.take(i as int).push(a@[i as int]));
        assert(b@.take(i + 1) =~= b@.take(i as int).push(b@[i as int]));
        i = i + 1;
    }
    proof {
        lemma_lex_skip(a@, b@, i as int);
    }
    if i == a.len() {
        i < b.len()
    } else if i == b.len() {
        false
    } else {
        assert(a@.skip(i as int)[0] == a@[i as int]);
        assert(b@.skip(i as int)[0] == b@[i as int]);
        a[i] < b[i]
    }
}

/// Whether an item comes before another in the listing: folders before
/// files, then by name in lower case, or the newest first.
pub open spec fn sorts_before(mode: SortMode, a: CustomDirEntry, b: CustomDirEntry) -> bool {
    if a.is_folder != b.is_folder {
        a.is_folder
    } else {
        match mode {
            SortMode::Name => lex_less(lowercased(a.file_name@), lowercased(b.file_name@)),
            SortMode::Created => b.created_ns < a.created_ns,
            SortMode::Modified => b.modified_ns < a.modified_ns,
        }
    }
}

proof fn lemma_sorts_before_asym(mode: SortMode, a: CustomDirEntry, b: CustomDirEntry)
    ensures
        sorts_before(mode, a, b) ==> !sorts_before(mode, b, a),
{
    lemma_lex_asym(lowercased(a.file_name@), lowercased(b.file_name@));
}

/// If `x` comes before `a`, and `b` does not come before `a`, then `x` comes
/// before `b`.
proof fn lemma_sorts_before_step(mode: SortMode, x: CustomDirEntry, a: CustomDirEntry, b: CustomDirEntry)
    ensures
        sorts_before(mode, x, a) && !sorts_before(mode, b, a) ==> sorts_before(mode, x, b),
{
    let (lx, la, lb) = (lowercased(x.file_name@), lowercased(a.file_name@), lowercased(b.file_name@));
    lemma_lex_total(la, lb);
    lemma_lex_trans(lx, la, lb);
}

/// A place in the listing comes before another: by [`sorts_before`], and
/// by place where neither item comes before the other.
pub open spec fn place_before(mode: SortMode, items: Seq<CustomDirEntry>, i: int, j: int) -> bool {
    sorts_before(mode, items[i], items[j]) || (!sorts_before(mode, items[j], items[i]) && i < j)
}

/// The places of `items` in the order that a stable sort gives them.
pub open spec fn sorted_order(mode: SortMode, items: Seq<CustomDirEntry>, order: Seq<int>) -> bool {
    &&& order.len() == items.len()
    &&& forall|k: int| 0 <= k < order.len() ==> 0 <= #[trigger] order[k] < items.len()
    &&& forall|k: int, l: int| 0 <= k < l < order.len() ==> place_before(mode, items, #[trigger] order[k], #[trigger] order[l])
}

/// `r` holds the items in the order of a stable sort: folders first, then by
/// the sort mode, and items that neither comes before keep their order.
pub open spec fn stably_sorted(mode: SortMode, items: Seq<CustomDirEntry>, r: Seq<CustomDirEntry>) -> bool {
    exists|order: Seq<int>| #[trigger] sorted_order(mode, items, order) && r == order.map_values(|i: int| items[i])
}

/// Whether an item comes before another; `ka` and `kb` are their names in
/// lower case.
fn entry_before(mode: SortMode, a: &CustomDirEntry, ka: &Vec<char>, b: &CustomDirEntry, kb: &Vec<char>) -> (r: bool)
    requires
        ka@ == lowercased(a.file_name@),
        kb@ == lowercased(b.file_name@),
    ensures
        r == sorts_before(mode, *a, *b),
{
    if a.is_folder != b.is_folder {
        a.is_folder
    } else {
        match mode {
            SortMode::Name => text_less(ka, kb),
            SortMode::Created => b.created_ns < a.created_ns,
            SortMode::Modified => b.modified_ns < a.modified_ns,
        }
    }
}

/// Sorts the items of a listing stably: folders first, then by name in lower
/// case, or the newest first; see [`stably_sorted`].
pub fn sort_listing(items: Vec<CustomDirEntry>, mode: SortMode) -> (r: Vec<CustomDirEntry>)
    ensures
        stably_sorted(mode, items@, r@),
{
    let n = items.len();
    let ghost s = items@;
    let mut keys: Vec<Vec<char>> = Vec::new();
    let mut i: usize = 0;
    while i < n
        invariant
            0 <= i <= n,
            n == s.len(),
            s == items@,
            keys.len() == i,
            forall|k: int| 0 <= k < i ==> (#[trigger] keys@[k])@ == lowercased(s[k].file_name@),
        decreases n - i,
    {
        let low = to_lowercase(items[i].file_name.as_str());
        keys.push(chars_of(low.as_str()));
        i = i + 1;
    }
    let mut order: Vec<usize> = Vec::new();
    let mut i: usize = 0;
    while i < n
        invariant
            0 <= i <= n,
            n == s.len(),
            s == items@,
            keys.len() == n,
            forall|k: int| 0 <= k < n ==> (#[trigger] keys@[k])@ == lowercased(s[k].file_name@),
            order.len() == i,
            forall|k: int| 0 <= k < order.len() ==> #[trigger] order@[k] < i,
            forall|k: int, l: int| 0 <= k < l < order.len() ==> place_before(mode, s, #[trigger] order@[k] as int, #[trigger] order@[l] as int),
        decreases n - i,
    {
        let mut lo: usize = 0;
        let mut hi: usize = order.len();
        while lo < hi
            invariant
                0 <= lo <= hi <= order.len(),
                i < n,
                n == s.len(),
                s == items@,
                keys.len() == n,
                forall|k: int| 0 <= k < n ==> (#[trigger] keys@[k])@ == lowercased(s[k].file_name@),
                forall|k: int| 0 <= k < order.len() ==> #[trigger] order@[k] < i,
                forall|k: int, l: int| 0 <= k < l < order.len() ==> place_before(mode, s, #[trigger] order@[k] as int, #[trigger] order@[l] as int),
                forall|k: int| 0 <= k < lo ==> !sorts_before(mode, s[i as int], s[#[trigger] order@[k] as int]),
                forall|k: int| hi <= k < order.len() ==> sorts_before(mode, s[i as int], s[#[trigger] order@[k] as int]),
            decreases hi - lo,
        {
            let mid = lo + (hi - lo) / 2;
            let m = order[mid];
            if entry_before(mode, &items[i], &keys[i], &items[m], &keys[m]) {
                proof {
                    assert forall|k: int| mid <= k < order.len() implies sorts_before(mode, s[i as int], s[#[trigger] order@[k] as int]) by {
                        if k > mid {
                            assert(place_before(mode, s, order@[mid as int] as int, order@[k] as int));
                            lemma_sorts_before_asym(mode, s[order@[mid as int] as int], s[order@[k] as int]);
                            lemma_sorts_before_step(mode, s[i as int], s[order@[mid as int] as int], s[order@[k] as int]);
                        }
                    }
                }
                hi = mid;
            } else {
                proof {
                    assert forall|k: int| 0 <= k < mid + 1 implies !sorts_before(mode, s[i as int], s[#[trigger] order@[k] as int]) by {
                        if k < mid {
                            assert(place_before(mode, s, order@[k] as int, order@[mid as int] as int));
                            lemma_sorts_before_asym(mode, s[order@[k] as int], s[order@[mid as int] as int]);
                            lemma_sorts_before_step(mode, s[i as int], s[order@[k] as int], s[order@[mid as int] as int]);
                        }
                    }
                }
                lo = mid + 1;
            }
        }
        let ghost old_order = order@;
        order.insert(lo, i);
        proof {
            assert(order@ == old_order.insert(lo as int, i));
            assert forall|k: int, l: int| 0 <= k < l < order.len() implies place_before(mode, s, #[trigger] order@[k] as int, #[trigger] order@[l] as int) by {
                if k < lo && l == lo {
                    assert(order@[k] == old_order[k]);
                } else if k == lo {
                    assert(order@[l] == old_order[l - 1]);
                    lemma_sorts_before_asym(mode, s[i as int], s[order@[l] as int]);
                } else if l < lo {
                    assert(order@[k] == old_order[k] && order@[l] == old_order[l]);
                } else if k < lo {
                    assert(order@[k] == old_order[k] && order@[l] == old_order[l - 1]);
                } else {
                    assert(order@[k] == old_order[k - 1] && order@[l] == old_order[l - 1]);
                }
            }
            assert forall|k: int| 0 <= k < order.len() implies #[trigger] order@[k] < i + 1 by {
                if k < lo {
                    assert(order@[k] == old_order[k]);
                } else if k > lo {
                    assert(order@[k] == old_order[k - 1]);
                }
            }
        }
        i = i + 1;
    }
    let ghost ord: Seq<int> = order@.map_values(|k: usize| k as int);
    proof {
        assert(sorted_order(mode, s, ord)) by {
            assert forall|k: int, l: int| 0 <= k < l < ord.len() implies place_before(mode, s, #[trigger] ord[k], #[trigger] ord[l]) by {
                assert(place_before(mode, s, order@[k] as int, order@[l] as int));
            }
        }
    }
    let mut slots: Vec<Option<CustomDirEntry>> = Vec::new();
    for e in it: items
        invariant
            slots@ == it.seq().take(it.index() as int).map_values(|x: CustomDirEntry| Some(x)),
    {
        slots.push(Some(e));
    }
    proof {
        assert(slots@ =~= s.map_values(|x: CustomDirEntry| Some(x)));
    }
    let mut r: Vec<CustomDirEntry> = Vec::new();
    let mut k: usize = 0;
    while k < n
        invariant
            0 <= k <= n,
            n == s.len(),
            slots.len() == n,
            sorted_order(mode, s, ord),
            ord.len() == n,
            forall|j: int| 0 <= j < n ==> #[trigger] ord[j] == order@[j] as int,
            order.len() == n,
            forall|j: int| k <= j < n ==> slots@[#[trigger] order@[j] as int] == Some(s[order@[j] as int]),
            r@ == ord.take(k as int).map_values(|i: int| s[i]),
        decreases n - k,
    {
        let idx = order[k];
        let mut taken: Option<CustomDirEntry> = None;
        slots.set_and_swap(idx, &mut taken);
        proof {
            assert(taken == Some(s[idx as int]));
            assert forall|j: int| k + 1 <= j < n implies slots@[#[trigger] order@[j] as int] == Some(s[order@[j] as int]) by {
                assert(place_before(mode, s, ord[k as int], ord[j]));
                lemma_sorts_before_asym(mode, s[ord[k as int]], s[ord[j]]);
                assert(ord[k as int] != ord[j]);
            }
        }
        match taken {
            Some(e) => {
                r.push(e);
            },
            None => {},
        }
        proof {
            assert(ord.take(k + 1) =~= ord.take(k as int).push(ord[k as int]));
            assert(r@ =~= ord.take(k + 1).map_values(|i: int| s[i]));
        }
        k = k + 1;
    }
    proof {
        assert(ord.take(n as int) =~= ord);
    }
    r
}

/// An item is among the matches exactly when the pattern matches it.
pub proof fn lemma_matches_of_members(pattern: Seq<char>, items: Seq<CustomDirEntry>, cs: bool, ig: bool, i: int)
    requires
        0 <= i < items.len(),
    ensures
        (exists|k: int| 0 <= k < matches_of(pattern, items, cs, ig).len() && #[trigger] matches_of(pattern, items, cs, ig)[k].0 == i)
            <==> item_match(pattern, items[i], cs, ig) is Some,
    decreases items.len(),
{
    let ms = matches_of(pattern, items, cs, ig);
    let rest = matches_of(pattern, items.drop_last(), cs, ig);
    lemma_matches_of_indices(pattern, items.drop_last(), cs, ig);
    if i < items.len() - 1 {
        lemma_matches_of_members(pattern, items.drop_last(), cs, ig, i);
        assert(items.drop_last()[i] == items[i]);
        if exists|k: int| 0 <= k < ms.len() && #[trigger] ms[k].0 == i {
            let k = choose|k: int| 0 <= k < ms.len() && #[trigger] ms[k].0 == i;
            if k < rest.len() {
                assert(ms[k] == rest[k]);
            }
        }
        if exists|k: int| 0 <= k < rest.len() && #[trigger] rest[k].0 == i {
            let k = choose|k: int| 0 <= k < rest.len() && #[trigger] rest[k].0 == i;
            assert(ms[k] == rest[k]);
        }
    } else {
        assert(items.last() == items[i]);
        if exists|k: int| 0 <= k < ms.len() && #[trigger] ms[k].0 == i {
            let k = choose|k: int| 0 <= k < ms.len() && #[trigger] ms[k].0 == i;
            if k < rest.len() {
                assert(ms[k] == rest[k]);
            }
        }
        match item_match(pattern, items.last(), cs, ig) {
            Some(spans) => {
                assert(ms[ms.len() - 1].0 == i);
            },
            None => {},
        }
    }
}

/// Sorting the result of a sort changes nothing.
pub proof fn law_sort_idempotent(mode: SortMode, items: Seq<CustomDirEntry>, r: Seq<CustomDirEntry>)
    requires
        stably_sorted(mode, items, r),
    ensures
        stably_sorted(mode, r, r),
{
    let order = choose|order: Seq<int>| #[trigger] sorted_order(mode, items, order) && r == order.map_values(|i: int| items[i]);
    let id = Seq::new(r.len(), |i: int| i);
    assert forall|k: int, l: int| 0 <= k < l < id.len() implies place_before(mode, r, #[trigger] id[k], #[trigger] id[l]) by {
        assert(place_before(mode, items, order[k], order[l]));
    }
    assert(sorted_order(mode, r, id));
    assert(r =~= id.map_values(|i: int| r[i]));
}

/// In a sorted listing, the folders come before the files.
pub proof fn law_folders_first(mode: SortMode, items: Seq<CustomDirEntry>, r: Seq<CustomDirEntry>, k: int, l: int)
    requires
        stably_sorted(mode, items, r),
        0 <= k < l < r.len(),
        r[l].is_folder,
    ensures
        r[k].is_folder,
{
    let order = choose|order: Seq<int>| #[trigger] sorted_order(mode, items, order) && r == order.map_values(|i: int| items[i]);
    assert(place_before(mode, items, order[k], order[l]));
}


/// In a listing sorted by name, of two items of the same kind (two folders
/// or two files), the earlier one's name in lower case never comes after the
/// later one's: names are compared ignoring case, so names that differ only
/// in case are not ordered by case. Sorted by a time, the earlier one is the
/// newer (or as new).
pub proof fn law_same_kind_order(mode: SortMode, items: Seq<CustomDirEntry>, r: Seq<CustomDirEntry>, k: int, l: int)
    requires
        stably_sorted(mode, items, r),
        0 <= k < l < r.len(),
        r[k].is_folder == r[l].is_folder,
    ensures
        mode == SortMode::Name ==> !lex_less(lowercased(r[l].file_name@), lowercased(r[k].file_name@)),
        mode == SortMode::Created ==> r[k].created_ns >= r[l].created_ns,
        mode == SortMode::Modified ==> r[k].modified_ns >= r[l].modified_ns,
{
    let order = choose|order: Seq<int>| #[trigger] sorted_order(mode, items, order) && r == order.map_values(|i: int| items[i]);
    assert(place_before(mode, items, order[k], order[l]));
    assert(r[k] == items[order[k]]);
    assert(r[l] == items[order[l]]);
    lemma_lex_asym(lowercased(r[k].file_name@), lowercased(r[l].file_name@));
}

} // verus!
