//! The search: how a query becomes a regular expression, and what the
//! regular expression gives on the names of the listing.
use vstd::prelude::*;
use crate::settings::GapSearchMode;
use crate::text::{chars_of, push_char};
use vstd::string::StringExecFns;

verus! {

/// What `str::to_lowercase` gives for a text.
pub uninterp spec fn lowercased(s: Seq<char>) -> Seq<char>;

/// `str::to_lowercase`: the text with every character in lower case, by the
/// Unicode tables of the standard library.
#[verifier::external_body]
pub(crate) fn to_lowercase(s: &str) -> (r: String)
    ensures
        r@ == lowercased(s@),
{
    s.to_lowercase()
}

/// What `char::is_uppercase` says of a character.
pub uninterp spec fn char_is_uppercase(c: char) -> bool;

/// `char::is_uppercase`: whether the character has the Unicode property
/// `Uppercase`.
#[verifier::external_body]
fn is_uppercase(c: char) -> (r: bool)
    ensures
        r == char_is_uppercase(c),
{
    c.is_uppercase()
}

/// Some character of the text is in upper case.
pub open spec fn has_uppercase(s: Seq<char>) -> bool {
    exists|i: int| 0 <= i < s.len() && #[trigger] char_is_uppercase(s[i])
}

/// Whether the text has an upper case character.
pub fn contains_uppercase(s: &str) -> (r: bool)
    ensures
        r == has_uppercase(s@),
{
    let cs = chars_of(s);
    let mut i: usize = 0;
    while i < cs.len()
        invariant
            0 <= i <= cs@.len(),
            cs@ == s@,
            forall|j: int| 0 <= j < i ==> !char_is_uppercase(#[trigger] s@[j]),
        decreases cs@.len() - i,
    {
        if is_uppercase(cs[i]) {
            return true;
        }
        i = i + 1;
    }
    false
}

/// The characters that have a meaning in a regular expression.
pub open spec fn is_regex_meta(c: char) -> bool {
    c == '\\' || c == '.' || c == '+' || c == '*' || c == '?' || c == '(' || c == ')'
        || c == '|' || c == '[' || c == ']' || c == '{' || c == '}' || c == '^' || c == '$'
        || c == '#' || c == '&' || c == '-' || c == '~'
}

/// The text with a backslash before each character that has a meaning in a
/// regular expression.
pub open spec fn escaped(s: Seq<char>) -> Seq<char>
    decreases s.len(),
{
    if s.len() == 0 {
        Seq::empty()
    } else {
        let c = s.last();
        escaped(s.drop_last()) + (if is_regex_meta(c) { seq!['\\', c] } else { seq![c] })
    }
}

/// `regex::escape`: puts a backslash before each meta character of a regular
/// expression, so that the result matches the text literally.
#[verifier::external_body]
fn escape(s: &str) -> (r: String)
    ensures
        r@ == escaped(s@),
{
    regex::escape(s)
}

/// The groups of a gap search: each character of the query, escaped, in a
/// group of its own, with `.*?` between the groups.
pub open spec fn gap_groups(s: Seq<char>) -> Seq<char>
    decreases s.len(),
{
    if s.len() == 0 {
        Seq::empty()
    } else if s.len() == 1 {
        "("@ + escaped(seq![s[0]]) + ")"@
    } else {
        gap_groups(s.drop_last()) + ".*?("@ + escaped(seq![s.last()]) + ")"@
    }
}

/// The regular expression for a query in a search mode.
pub open spec fn search_regex(query: Seq<char>, mode: GapSearchMode) -> Seq<char> {
    match mode {
        GapSearchMode::NormalSearch => "^("@ + escaped(query) + ")"@,
        GapSearchMode::NormalSearchAnywhere => "("@ + escaped(query) + ")"@,
        GapSearchMode::GapSearchFromStart => "^"@ + gap_groups(query),
        GapSearchMode::GapSearchAnywhere => gap_groups(query),
    }
}

/// Builds the regular expression for a query in a search mode; see
/// [`search_regex`].
pub fn build_search_regex(query: &str, mode: GapSearchMode) -> (r: String)
    ensures
        r@ == search_regex(query@, mode),
{
    proof {
        reveal_strlit("^(");
        reveal_strlit("(");
        reveal_strlit(")");
        reveal_strlit("^");
        reveal_strlit(".*?(");
    }
    match mode {
        GapSearchMode::NormalSearch => {
            let mut r = String::new();
            r.append("^(");
            let e = escape(query);
            r.append(e.as_str());
            r.append(")");
            r
        },
        GapSearchMode::NormalSearchAnywhere => {
            let mut r = String::new();
            r.append("(");
            let e = escape(query);
            r.append(e.as_str());
            r.append(")");
            r
        },
        GapSearchMode::GapSearchFromStart => {
            let mut r = String::new();
            r.append("^");
            let g = gap_search_groups(query);
            r.append(g.as_str());
            r
        },
        GapSearchMode::GapSearchAnywhere => gap_search_groups(query),
    }
}

/// Builds the groups of a gap search; see [`gap_groups`].
fn gap_search_groups(query: &str) -> (r: String)
    ensures
        r@ == gap_groups(query@),
{
    proof {
        reveal_strlit("(");
        reveal_strlit(")");
        reveal_strlit(".*?(");
    }
    let cs = chars_of(query);
    let mut r = String::new();
    let mut i: usize = 0;
    while i < cs.len()
        invariant
            0 <= i <= cs@.len(),
            cs@ == query@,
            r@ == gap_groups(query@.take(i as int)),
        decreases cs@.len() - i,
    {
        let mut one = String::new();
        push_char(&mut one, cs[i]);
        let e = escape(one.as_str());
        proof {
            assert(one@ =~= seq![cs@[i as int]]);
            assert(query@.take(i + 1).drop_last() =~= query@.take(i as int));
            assert(query@.take(i + 1).last() == cs@[i as int]);
            if i == 0 {
                assert(query@.take(1) =~= seq![cs@[0]]);
            }
        }
        if i == 0 {
            r.append("(");
        } else {
            r.append(".*?(");
        }
        r.append(e.as_str());
        r.append(")");
        i = i + 1;
    }
    assert(query@.take(cs@.len() as int) =~= query@);
    r
}

} // verus!
