//! Small verified helpers for working with text as sequences of characters.
use vstd::prelude::*;

verus! {

/// Appends one character to a string.
#[verifier::external_body]
pub(crate) fn push_char(s: &mut String, c: char)
    ensures
        final(s)@ == old(s)@.push(c),
{
    s.push(c);
}

/// The characters of a string slice, in order.
pub fn chars_of(s: &str) -> (v: Vec<char>)
    ensures
        v@ == s@,
{
    let mut v: Vec<char> = Vec::new();
    for c in it: s.chars()
        invariant
            v@ == it.seq().take(it.index() as int),
    {
        v.push(c);
    }
    v
}

/// Builds a string from a sequence of characters.
pub fn string_from_chars(v: &[char]) -> (s: String)
    ensures
        s@ == v@,
{
    let mut s = String::new();
    for i in 0..v.len()
        invariant
            s@ == v@.take(i as int),
    {
        push_char(&mut s, v[i]);
        assert(v@.take(i + 1) == v@.take(i as int).push(v@[i as int]));
    }
    assert(v@.take(v.len() as int) == v@);
    s
}


/// Whether two string slices hold the same characters.
pub fn str_eq(a: &str, b: &str) -> (r: bool)
    ensures
        r == (a@ == b@),
{
    let x = chars_of(a);
    let y = chars_of(b);
    if x.len() != y.len() {
        return false;
    }
    let mut i: usize = 0;
    while i < x.len()
        invariant
            0 <= i <= x@.len(),
            x@.len() == y@.len(),
            x@ == a@,
            y@ == b@,
            forall|j: int| 0 <= j < i ==> x@[j] == y@[j],
        decreases x@.len() - i,
    {
        if x[i] != y[i] {
            return false;
        }
        i = i + 1;
    }
    assert(x@ =~= y@);
    true
}


/// The views of a sequence of character vectors.
pub open spec fn vecs_view(v: Seq<Vec<char>>) -> Seq<Seq<char>> {
    v.map_values(|x: Vec<char>| x@)
}

pub proof fn lemma_vecs_view_push(v: Seq<Vec<char>>, x: Vec<char>)
    ensures
        vecs_view(v.push(x)) == vecs_view(v).push(x@),
{
    assert(vecs_view(v.push(x)) =~= vecs_view(v).push(x@));
}

/// Cuts `s` at every `sep`; see [`crate::paths::split_on`].
pub fn split_chars(s: &Vec<char>, sep: char) -> (r: Vec<Vec<char>>)
    ensures
        vecs_view(r@) == crate::paths::split_on(s@, sep),
{
    let mut out: Vec<Vec<char>> = Vec::new();
    let mut cur: Vec<char> = Vec::new();
    let mut i: usize = 0;
    while i < s.len()
        invariant
            0 <= i <= s@.len(),
            vecs_view(out@).push(cur@) == crate::paths::split_on(s@.take(i as int), sep),
        decreases s@.len() - i,
    {
        let c = s[i];
        let ghost before = crate::paths::split_on(s@.take(i as int), sep);
        proof {
            assert(s@.take(i + 1).drop_last() == s@.take(i as int));
            assert(s@.take(i + 1).last() == c);
        }
        if c == sep {
            proof {
                lemma_vecs_view_push(out@, cur);
            }
            out.push(cur);
            cur = Vec::new();
            assert(cur@ == Seq::<char>::empty());
        } else {
            let ghost old_cur = cur@;
            cur.push(c);
            proof {
                let after = crate::paths::split_on(s@.take(i + 1), sep);
                assert(before.len() >= 1);
                assert(vecs_view(out@).push(cur@) =~= before.update(before.len() - 1, before.last().push(c)));
            }
        }
        i = i + 1;
    }
    assert(s@.take(s@.len() as int) == s@);
    proof {
        lemma_vecs_view_push(out@, cur);
    }
    out.push(cur);
    out
}

/// Appends characters to a string.
pub fn append_chars(s: &mut String, v: &[char])
    ensures
        final(s)@ == old(s)@ + v@,
{
    let mut i: usize = 0;
    while i < v.len()
        invariant
            0 <= i <= v@.len(),
            s@ == old(s)@ + v@.take(i as int),
        decreases v@.len() - i,
    {
        push_char(s, v[i]);
        assert(v@.take(i + 1) == v@.take(i as int).push(v@[i as int]));
        i = i + 1;
    }
    assert(v@.take(v@.len() as int) == v@);
}



/// The first place at or after `i` where `p` occurs in `h`.
pub open spec fn first_match_from(h: Seq<char>, p: Seq<char>, i: int) -> Option<int>
    decreases h.len() + 1 - i,
{
    if i < 0 || i + p.len() > h.len() {
        None
    } else if h.subrange(i, i + p.len()) == p {
        Some(i)
    } else {
        first_match_from(h, p, i + 1)
    }
}

proof fn lemma_first_match_from(h: Seq<char>, p: Seq<char>, i: int)
    ensures
        first_match_from(h, p, i) matches Some(j) ==> 0 <= i <= j && j + p.len() <= h.len() && h.subrange(j, j + p.len()) == p,
    decreases h.len() + 1 - i,
{
    if 0 <= i && i + p.len() <= h.len() && h.subrange(i, i + p.len()) != p {
        lemma_first_match_from(h, p, i + 1);
    }
}

/// Where a match is found, it lies within the text.
pub proof fn lemma_match_bound(h: Seq<char>, p: Seq<char>, from: int, j: int)
    requires
        first_match_from(h, p, from) == Some(j),
    ensures
        0 <= from <= j,
        j + p.len() <= h.len(),
        h.subrange(j, j + p.len()) == p,
{
    lemma_first_match_from(h, p, from);
}

/// Whether `p` occurs at place `i` of `h`.
fn matches_at(h: &Vec<char>, p: &Vec<char>, i: usize) -> (r: bool)
    requires
        i + p@.len() <= h@.len(),
    ensures
        r == (h@.subrange(i as int, i + p@.len()) == p@),
{
    let hl = h.len();
    let mut j: usize = 0;
    while j < p.len()
        invariant
            0 <= j <= p@.len(),
            hl == h@.len(),
            i + p@.len() <= h@.len(),
            forall|k: int| 0 <= k < j ==> h@[i + k] == p@[k],
        decreases p@.len() - j,
    {
        assert(i + j < h@.len());
        let idx: usize = i + j;
        if h[idx] != p[j] {
            assert(h@.subrange(i as int, i + p@.len())[j as int] != p@[j as int]);
            return false;
        }
        j = j + 1;
    }
    assert(h@.subrange(i as int, i + p@.len()) =~= p@);
    true
}

/// The first place at or after `from` where `p` occurs in `h`; see
/// [`first_match_from`].
pub fn find_from(h: &Vec<char>, p: &Vec<char>, from: usize) -> (r: Option<usize>)
    requires
        p@.len() > 0,
    ensures
        match r {
            Some(i) => first_match_from(h@, p@, from as int) == Some(i as int),
            None => first_match_from(h@, p@, from as int) is None,
        },
{
    if p.len() > h.len() {
        return None;
    }
    let mut i: usize = from;
    while i < h.len() - p.len() + 1
        invariant
            from <= i,
            0 < p@.len() <= h@.len(),
            first_match_from(h@, p@, from as int) == first_match_from(h@, p@, i as int),
        decreases h@.len() - i,
    {
        if matches_at(h, p, i) {
            return Some(i);
        }
        i = i + 1;
    }
    None
}

/// Whether `p` occurs in `h`.
pub open spec fn contains_text(h: Seq<char>, p: Seq<char>) -> bool {
    first_match_from(h, p, 0) is Some
}

/// `s` with every occurrence of `pat` replaced by `rep`, from left to right
/// without overlaps, as `str::replace` does.
pub open spec fn replaced(s: Seq<char>, pat: Seq<char>, rep: Seq<char>) -> Seq<char>
    decreases s.len(),
{
    if pat.len() == 0 || s.len() == 0 {
        s
    } else if pat.len() <= s.len() && s.take(pat.len() as int) == pat {
        rep + replaced(s.skip(pat.len() as int), pat, rep)
    } else {
        seq![s[0]] + replaced(s.drop_first(), pat, rep)
    }
}

/// Replaces every occurrence of `pat` in `s` by `rep`; see [`replaced`].
pub fn replace_text(s: &str, pat: &str, rep: &str) -> (r: String)
    requires
        pat@.len() > 0,
    ensures
        r@ == replaced(s@, pat@, rep@),
{
    let cs = chars_of(s);
    let ps = chars_of(pat);
    let mut out = String::new();
    let mut i: usize = 0;
    assert(s@.skip(0) =~= s@);
    assert(out@ + s@ =~= s@);
    while i < cs.len()
        invariant
            0 <= i <= cs@.len(),
            cs@ == s@,
            ps@ == pat@,
            ps@.len() > 0,
            out@ + replaced(s@.skip(i as int), pat@, rep@) == replaced(s@, pat@, rep@),
        decreases cs@.len() - i,
    {
        let ghost rest = s@.skip(i as int);
        if ps.len() <= cs.len() - i && matches_at(&cs, &ps, i) {
            proof {
                assert(rest.take(ps@.len() as int) =~= cs@.subrange(i as int, i + ps@.len()));
                assert(rest.skip(ps@.len() as int) =~= s@.skip(i + ps@.len()));
                assert(out@ + (rep@ + replaced(s@.skip(i + ps@.len()), pat@, rep@)) =~= out@ + rep@ + replaced(s@.skip(i + ps@.len()), pat@, rep@));
            }
            out.append(rep);
            i = i + ps.len();
        } else {
            proof {
                if ps@.len() <= rest.len() {
                    assert(rest.take(ps@.len() as int) =~= cs@.subrange(i as int, i + ps@.len()));
                }
                assert(rest.drop_first() =~= s@.skip(i + 1));
                assert(rest[0] == cs@[i as int]);
                assert(out@ + (seq![rest[0]] + replaced(s@.skip(i + 1), pat@, rep@)) =~= out@.push(rest[0]) + replaced(s@.skip(i + 1), pat@, rep@));
            }
            push_char(&mut out, cs[i]);
            i = i + 1;
        }
    }
    assert(s@.skip(cs@.len() as int) =~= Seq::<char>::empty());
    assert(out@ + Seq::<char>::empty() =~= out@);
    out
}

/// The characters that `char::is_whitespace` accepts: those with the Unicode
/// property `White_Space`.
pub open spec fn is_white(c: char) -> bool {
    ('\u{9}' <= c && c <= '\u{d}') || c == ' ' || c == '\u{85}' || c == '\u{a0}' || c == '\u{1680}'
        || ('\u{2000}' <= c && c <= '\u{200a}') || c == '\u{2028}' || c == '\u{2029}' || c == '\u{202f}'
        || c == '\u{205f}' || c == '\u{3000}'
}

/// Whether a character is white space; see [`is_white`].
pub fn is_white_char(c: char) -> (r: bool)
    ensures
        r == is_white(c),
{
    ('\u{9}' <= c && c <= '\u{d}') || c == ' ' || c == '\u{85}' || c == '\u{a0}' || c == '\u{1680}'
        || ('\u{2000}' <= c && c <= '\u{200a}') || c == '\u{2028}' || c == '\u{2029}' || c == '\u{202f}'
        || c == '\u{205f}' || c == '\u{3000}'
}

/// The number of white space characters at the start of a text.
pub open spec fn lead_white(s: Seq<char>) -> int
    decreases s.len(),
{
    if s.len() > 0 && is_white(s[0]) {
        1 + lead_white(s.drop_first())
    } else {
        0
    }
}

/// The number of white space characters at the end of a text.
pub open spec fn trail_white(s: Seq<char>) -> int
    decreases s.len(),
{
    if s.len() > 0 && is_white(s.last()) {
        1 + trail_white(s.drop_last())
    } else {
        0
    }
}

/// A text without white space at its start and end, as `str::trim` gives it.
pub open spec fn trimmed(s: Seq<char>) -> Seq<char> {
    let t = s.skip(lead_white(s));
    t.take(t.len() - trail_white(t))
}

proof fn lemma_lead_white(s: Seq<char>, i: int)
    requires
        0 <= i <= s.len(),
        forall|k: int| 0 <= k < i ==> is_white(#[trigger] s[k]),
        i == s.len() || !is_white(s[i]),
    ensures
        lead_white(s) == i,
    decreases i,
{
    if i > 0 {
        assert forall|k: int| 0 <= k < i - 1 implies is_white(#[trigger] s.drop_first()[k]) by {
            assert(s.drop_first()[k] == s[k + 1]);
        }
        if i < s.len() {
            assert(s.drop_first()[i - 1] == s[i]);
        }
        lemma_lead_white(s.drop_first(), i - 1);
    }
}

proof fn lemma_trail_white(s: Seq<char>, i: int)
    requires
        0 <= i <= s.len(),
        forall|k: int| s.len() - i <= k < s.len() ==> is_white(#[trigger] s[k]),
        i == s.len() || !is_white(s[s.len() - 1 - i]),
    ensures
        trail_white(s) == i,
    decreases i,
{
    if i > 0 {
        assert forall|k: int| s.len() - 1 - (i - 1) <= k < s.len() - 1 implies is_white(#[trigger] s.drop_last()[k]) by {
            assert(s.drop_last()[k] == s[k]);
        }
        if i < s.len() {
            assert(s.drop_last()[s.len() - 1 - 1 - (i - 1)] == s[s.len() - 1 - i]);
        }
        lemma_trail_white(s.drop_last(), i - 1);
    }
}

/// Removes the white space at the start and end of a text; see
/// [`trimmed`].
pub fn trim_chars(s: &Vec<char>) -> (r: Vec<char>)
    ensures
        r@ == trimmed(s@),
{
    let mut a: usize = 0;
    while a < s.len() && is_white_char(s[a])
        invariant
            0 <= a <= s@.len(),
            forall|k: int| 0 <= k < a ==> is_white(#[trigger] s@[k]),
        decreases s@.len() - a,
    {
        a = a + 1;
    }
    proof {
        lemma_lead_white(s@, a as int);
    }
    let ghost t = s@.skip(a as int);
    let mut b: usize = s.len();
    while b > a && is_white_char(s[b - 1])
        invariant
            a <= b <= s@.len(),
            t == s@.skip(a as int),
            forall|k: int| b <= k < s@.len() ==> is_white(#[trigger] s@[k]),
        decreases b,
    {
        b = b - 1;
    }
    proof {
        assert forall|k: int| t.len() - (s@.len() - b) <= k < t.len() implies is_white(#[trigger] t[k]) by {
            assert(t[k] == s@[a + k]);
        }
        if b > a {
            assert(t[t.len() - 1 - (s@.len() - b)] == s@[b - 1]);
        }
        lemma_trail_white(t, (s@.len() - b) as int);
    }
    let mut r: Vec<char> = Vec::new();
    let mut i: usize = a;
    while i < b
        invariant
            a <= i <= b,
            b <= s@.len(),
            r@ == s@.subrange(a as int, i as int),
        decreases b - i,
    {
        r.push(s[i]);
        assert(s@.subrange(a as int, i + 1) =~= s@.subrange(a as int, i as int).push(s@[i as int]));
        i = i + 1;
    }
    assert(r@ =~= t.take(t.len() - (s@.len() - b)));
    r
}

/// The number of bytes of a character in UTF-8.
pub open spec fn utf8_width(c: char) -> int {
    if '\u{80}' > c {
        1
    } else if '\u{800}' > c {
        2
    } else if '\u{10000}' > c {
        3
    } else {
        4
    }
}

/// The number of bytes of a text in UTF-8, which is what `str::len` gives.
pub open spec fn utf8_len(s: Seq<char>) -> int
    decreases s.len(),
{
    if s.len() == 0 {
        0
    } else {
        utf8_len(s.drop_last()) + utf8_width(s.last())
    }
}

/// The number of bytes of a text in UTF-8; see [`utf8_len`].
pub fn utf8_byte_len(s: &Vec<char>) -> (r: u128)
    ensures
        r == utf8_len(s@),
        r <= 4 * s@.len(),
{
    let mut n: u128 = 0;
    let mut i: usize = 0;
    while i < s.len()
        invariant
            0 <= i <= s@.len(),
            n == utf8_len(s@.take(i as int)),
            n <= 4 * i,
        decreases s@.len() - i,
    {
        let c = s[i];
        proof {
            assert(s@.take(i + 1).drop_last() =~= s@.take(i as int));
        }
        let w: u128 = if '\u{80}' > c { 1 } else if '\u{800}' > c { 2 } else if '\u{10000}' > c { 3 } else { 4 };
        n = n + w;
        i = i + 1;
    }
    assert(s@.take(s@.len() as int) =~= s@);
    n
}

/// The text with every `c` taken out.
pub open spec fn without_char(s: Seq<char>, c: char) -> Seq<char>
    decreases s.len(),
{
    if s.len() == 0 {
        s
    } else if s.last() == c {
        without_char(s.drop_last(), c)
    } else {
        without_char(s.drop_last(), c).push(s.last())
    }
}

/// Takes every `c` out of a text; see [`without_char`].
pub fn remove_char(s: &Vec<char>, c: char) -> (r: Vec<char>)
    ensures
        r@ == without_char(s@, c),
{
    let mut r: Vec<char> = Vec::new();
    let mut i: usize = 0;
    while i < s.len()
        invariant
            0 <= i <= s@.len(),
            r@ == without_char(s@.take(i as int), c),
        decreases s@.len() - i,
    {
        proof {
            assert(s@.take(i + 1).drop_last() =~= s@.take(i as int));
        }
        if s[i] != c {
            r.push(s[i]);
        }
        i = i + 1;
    }
    assert(s@.take(s@.len() as int) =~= s@);
    r
}

} // verus!
