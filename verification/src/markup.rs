//! A very small markdown renderer for the help text: headings and text in
//! backticks become bold, and the text is wrapped to a width.
use vstd::prelude::*;
use crate::paths::split_on;
use crate::text::{chars_of, push_char, split_chars, vecs_view, string_from_chars};
use vstd::string::StrSliceExecFns;

verus! {

/// A piece of a line of text, bold or not.
#[derive(Debug, PartialEq, Eq)]
pub struct StyledChunk {
    pub text: String,
    pub bold: bool,
}

/// The view of a chunk: its text and whether it is bold.
pub open spec fn chunk_view(c: StyledChunk) -> (Seq<char>, bool) {
    (c.text@, c.bold)
}

/// The views of the chunks of each line.
pub open spec fn lines_view(ls: Seq<Vec<StyledChunk>>) -> Seq<Seq<(Seq<char>, bool)>> {
    ls.map_values(|l: Vec<StyledChunk>| l@.map_values(|c: StyledChunk| chunk_view(c)))
}

/// The state of stripping markup: the text kept so far, the places where
/// bold toggles, whether a heading is being read, and the previous
/// character.
pub open spec fn strip_step(st: (Seq<char>, Seq<int>, bool, Option<char>), c: char) -> (Seq<char>, Seq<int>, bool, Option<char>) {
    let (out, locs, heading, prev) = st;
    if c == '#' {
        if !heading {
            (out, locs.push(out.len() as int), true, Some(c))
        } else {
            (out, locs, heading, Some(c))
        }
    } else if c == ' ' && heading && prev == Some('#') {
        (out, locs, heading, Some(c))
    } else if c == '\n' && heading {
        (out.push(c), locs.push(out.len() as int), false, Some(c))
    } else if c == '`' {
        (out, locs.push(out.len() as int), heading, Some(c))
    } else {
        (out.push(c), locs, heading, Some(c))
    }
}

/// Stripping the markup of a text, character by character.
pub open spec fn strip_fold(s: Seq<char>) -> (Seq<char>, Seq<int>, bool, Option<char>)
    decreases s.len(),
{
    if s.len() == 0 {
        (Seq::empty(), Seq::empty(), false, None)
    } else {
        strip_step(strip_fold(s.drop_last()), s.last())
    }
}

/// The places as integers.
pub open spec fn locs_view(v: Seq<usize>) -> Seq<int> {
    v.map_values(|x: usize| x as int)
}

proof fn lemma_strip_fold_len(s: Seq<char>)
    ensures
        strip_fold(s).0.len() <= s.len(),
        forall|i: int| 0 <= i < strip_fold(s).1.len() ==> 0 <= #[trigger] strip_fold(s).1[i] <= strip_fold(s).0.len(),
        forall|i: int, j: int| 0 <= i <= j < strip_fold(s).1.len() ==> #[trigger] strip_fold(s).1[i] <= #[trigger] strip_fold(s).1[j],
    decreases s.len(),
{
    if s.len() > 0 {
        lemma_strip_fold_len(s.drop_last());
    }
}

/// Strips the markup from a text: `#` that starts a heading, the space after
/// it, and backticks. Returns the text that is left and the places in it
/// where bold turns on or off: at a heading's start and end, and at each
/// backtick.
pub fn strip_markup_and_extract_bold_positions(text: &str) -> (r: (String, Vec<usize>))
    ensures
        r.0@ == strip_fold(text@).0,
        locs_view(r.1@) == strip_fold(text@).1,
{
    let cs = chars_of(text);
    let mut out = String::new();
    let mut locs: Vec<usize> = Vec::new();
    let mut heading = false;
    let mut prev: Option<char> = None;
    let mut counter: usize = 0;
    let mut i: usize = 0;
    while i < cs.len()
        invariant
            0 <= i <= cs@.len(),
            cs@ == text@,
            (out@, locs_view(locs@), heading, prev) == strip_fold(text@.take(i as int)),
            counter == out@.len(),
            out@.len() <= i,
        decreases cs@.len() - i,
    {
        let c = cs[i];
        proof {
            assert(text@.take(i + 1).drop_last() =~= text@.take(i as int));
            assert(text@.take(i + 1).last() == c);
            lemma_strip_fold_len(text@.take(i as int));
        }
        let ghost old_locs = locs@;
        if c == '#' {
            if !heading {
                heading = true;
                locs.push(counter);
            }
        } else if c == ' ' && heading && prev == Some('#') {
        } else if c == '\n' && heading {
            locs.push(counter);
            heading = false;
            counter = counter + 1;
            push_char(&mut out, c);
        } else if c == '`' {
            locs.push(counter);
        } else {
            counter = counter + 1;
            push_char(&mut out, c);
        }
        prev = Some(c);
        proof {
            assert(locs_view(locs@) =~= (if locs@.len() > old_locs.len() { locs_view(old_locs).push(locs@.last() as int) } else { locs_view(old_locs) }));
        }
        i = i + 1;
    }
    assert(text@.take(cs@.len() as int) =~= text@);
    (out, locs)
}

/// The places where bold toggles come in order, and none lies beyond the
/// text that is left.
pub proof fn law_strip_toggles_in_order(text: Seq<char>)
    ensures
        forall|i: int, j: int| 0 <= i <= j < strip_fold(text).1.len() ==> #[trigger] strip_fold(text).1[i] <= #[trigger] strip_fold(text).1[j],
        forall|i: int| 0 <= i < strip_fold(text).1.len() ==> 0 <= #[trigger] strip_fold(text).1[i] <= strip_fold(text).0.len(),
        strip_fold(text).0.len() <= text.len(),
{
    lemma_strip_fold_len(text);
}

/// Going through the characters of a line: the count of characters so far
/// (a line break counts as one), the next toggle to look for, whether the text
/// is bold, the finished chunks and the chunk being built.
pub open spec fn style_chars(line: Seq<char>, locs: Seq<int>, start: (int, int, bool)) -> (int, int, bool, Seq<(Seq<char>, bool)>, Seq<char>)
    decreases line.len(),
{
    if line.len() == 0 {
        (start.0, start.1, start.2, Seq::empty(), Seq::empty())
    } else {
        let (counter, k, bold, chunks, cur) = style_chars(line.drop_last(), locs, start);
        let c = line.last();
        if 0 <= k < locs.len() && counter == locs[k] {
            (counter + 1, k + 1, !bold, chunks.push((cur, bold)), seq![c])
        } else {
            (counter + 1, k, bold, chunks, cur.push(c))
        }
    }
}

/// One line styled: its chunks (the last one only if it is not empty), and
/// the state after it: bold always ends with the line, which uses up the
/// next toggle.
pub open spec fn style_line(line: Seq<char>, locs: Seq<int>, start: (int, int, bool)) -> ((int, int, bool), Seq<(Seq<char>, bool)>) {
    let (counter, k, bold, chunks, cur) = style_chars(line, locs, start);
    let all = if cur.len() > 0 { chunks.push((cur, bold)) } else { chunks };
    let next = if bold { (counter + 1, k + 1, false) } else { (counter + 1, k, bold) };
    (next, all)
}

/// The lines styled in turn, from the start of the text.
pub open spec fn style_lines(lines: Seq<Seq<char>>, locs: Seq<int>) -> ((int, int, bool), Seq<Seq<(Seq<char>, bool)>>)
    decreases lines.len(),
{
    if lines.len() == 0 {
        ((0, 0, false), Seq::empty())
    } else {
        let (st, done) = style_lines(lines.drop_last(), locs);
        let (next, chunks) = style_line(lines.last(), locs, st);
        (next, done.push(chunks))
    }
}

/// The texts of chunks, one after the other.
pub open spec fn chunks_text(cs: Seq<(Seq<char>, bool)>) -> Seq<char>
    decreases cs.len(),
{
    if cs.len() == 0 {
        Seq::empty()
    } else {
        chunks_text(cs.drop_last()) + cs.last().0
    }
}

proof fn lemma_chunks_text_push(cs: Seq<(Seq<char>, bool)>, x: (Seq<char>, bool))
    ensures
        chunks_text(cs.push(x)) == chunks_text(cs) + x.0,
{
    assert(cs.push(x).drop_last() =~= cs);
}

proof fn lemma_style_chars_text(line: Seq<char>, locs: Seq<int>, start: (int, int, bool))
    ensures
        ({
            let (counter, k, bold, chunks, cur) = style_chars(line, locs, start);
            chunks_text(chunks) + cur == line && counter == start.0 + line.len()
        }),
    decreases line.len(),
{
    if line.len() > 0 {
        lemma_style_chars_text(line.drop_last(), locs, start);
        let (counter, k, bold, chunks, cur) = style_chars(line.drop_last(), locs, start);
        lemma_chunks_text_push(chunks, (cur, bold));
        assert(line =~= line.drop_last().push(line.last()));
        assert(chunks_text(chunks) + cur + seq![line.last()] =~= chunks_text(chunks) + cur.push(line.last()));
    } else {
        assert(chunks_text(Seq::<(Seq<char>, bool)>::empty()) + Seq::<char>::empty() =~= line);
    }
}

/// Styling keeps the text: the chunks of a line, one after the other, are
/// the line.
pub proof fn law_style_keeps_text(line: Seq<char>, locs: Seq<int>, start: (int, int, bool))
    ensures
        chunks_text(style_line(line, locs, start).1) == line,
{
    lemma_style_chars_text(line, locs, start);
    let (counter, k, bold, chunks, cur) = style_chars(line, locs, start);
    if cur.len() > 0 {
        lemma_chunks_text_push(chunks, (cur, bold));
    } else {
        assert(chunks_text(chunks) + cur =~= chunks_text(chunks));
    }
}

/// Styles lines of text: bold toggles at the given places, counted over
/// all lines with one for each line break; see [`style_lines`].
pub fn stylize_wrapped_lines(lines: Vec<Vec<char>>, bold_toggle_locs: Vec<usize>) -> (r: Vec<Vec<StyledChunk>>)
    requires
        lines@.len() + total_len(vecs_view(lines@)) <= usize::MAX,
    ensures
        lines_view(r@) == style_lines(vecs_view(lines@), locs_view(bold_toggle_locs@)).1,
{
    let ghost ls = vecs_view(lines@);
    let ghost locs = locs_view(bold_toggle_locs@);
    let mut counter: usize = 0;
    let mut k: usize = 0;
    let mut bold = false;
    let mut res: Vec<Vec<StyledChunk>> = Vec::new();
    let mut li: usize = 0;
    while li < lines.len()
        invariant
            0 <= li <= lines@.len(),
            ls == vecs_view(lines@),
            locs == locs_view(bold_toggle_locs@),
            lines@.len() + total_len(ls) <= usize::MAX,
            style_lines(ls.take(li as int), locs) == ((counter as int, k as int, bold), lines_view(res@)),
            counter == li + total_len(ls.take(li as int)),
            k <= counter,
        decreases lines@.len() - li,
    {
        let line = &lines[li];
        let ghost start = (counter as int, k as int, bold);
        proof {
            assert(ls.take(li + 1).drop_last() =~= ls.take(li as int));
            assert(ls.take(li + 1).last() == line@);
            lemma_total_len_take(ls, li as int);
        }
        let mut chunks: Vec<StyledChunk> = Vec::new();
        let mut cur: Vec<char> = Vec::new();
        let mut j: usize = 0;
        while j < line.len()
            invariant
                0 <= j <= line@.len(),
                locs == locs_view(bold_toggle_locs@),
                style_chars(line@.take(j as int), locs, start) == (counter as int, k as int, bold,
                    chunks@.map_values(|c: StyledChunk| chunk_view(c)), cur@),
                counter == start.0 + j,
                start.0 + line@.len() + 1 <= usize::MAX,
                k <= counter,
            decreases line@.len() - j,
        {
            let c = line[j];
            proof {
                assert(line@.take(j + 1).drop_last() =~= line@.take(j as int));
                assert(line@.take(j + 1).last() == c);
            }
            if k < bold_toggle_locs.len() && counter == bold_toggle_locs[k] {
                let ghost before = chunks@.map_values(|c: StyledChunk| chunk_view(c));
                let text = string_from_chars(cur.as_slice());
                chunks.push(StyledChunk { text, bold });
                proof {
                    assert(chunks@.map_values(|c: StyledChunk| chunk_view(c)) =~= before.push((cur@, bold)));
                }
                bold = !bold;
                k = k + 1;
                cur = Vec::new();
                cur.push(c);
                assert(cur@ =~= seq![c]);
            } else {
                cur.push(c);
            }
            counter = counter + 1;
            j = j + 1;
        }
        assert(line@.take(line@.len() as int) =~= line@);
        if cur.len() > 0 {
            let ghost before = chunks@.map_values(|c: StyledChunk| chunk_view(c));
            let text = string_from_chars(cur.as_slice());
            chunks.push(StyledChunk { text, bold });
            proof {
                assert(chunks@.map_values(|c: StyledChunk| chunk_view(c)) =~= before.push((cur@, bold)));
            }
        }
        if bold {
            bold = false;
            k = k + 1;
        }
        let ghost before_res = lines_view(res@);
        res.push(chunks);
        proof {
            assert(lines_view(res@) =~= before_res.push(res@.last()@.map_values(|c: StyledChunk| chunk_view(c))));
        }
        counter = counter + 1;
        li = li + 1;
    }
    assert(ls.take(lines@.len() as int) =~= ls);
    res
}

/// The number of characters of all lines together.
pub open spec fn total_len(ls: Seq<Seq<char>>) -> int
    decreases ls.len(),
{
    if ls.len() == 0 {
        0
    } else {
        total_len(ls.drop_last()) + ls.last().len()
    }
}

proof fn lemma_total_len_take(ls: Seq<Seq<char>>, i: int)
    requires
        0 <= i < ls.len(),
    ensures
        total_len(ls.take(i + 1)) == total_len(ls.take(i)) + ls[i].len(),
        total_len(ls.take(i + 1)) <= total_len(ls),
{
    assert(ls.take(i + 1).drop_last() =~= ls.take(i));
    lemma_total_len_mono(ls, i + 1);
}

proof fn lemma_total_len_mono(ls: Seq<Seq<char>>, i: int)
    requires
        0 <= i <= ls.len(),
    ensures
        total_len(ls.take(i)) <= total_len(ls),
    decreases ls.len() - i,
{
    if i < ls.len() {
        lemma_total_len_mono(ls, i + 1);
        assert(ls.take(i + 1).drop_last() =~= ls.take(i));
    } else {
        assert(ls.take(i) =~= ls);
    }
}

/// What `textwrap::fill_inplace` makes of a text for a width.
pub uninterp spec fn filled(text: Seq<char>, width: usize) -> Seq<char>;

/// `textwrap::fill_inplace`: wraps a text to a width in place, by turning
/// some spaces into line breaks (the last space before each break); nothing
/// else changes.
#[verifier::external_body]
fn fill_text(text: &mut String, width: usize)
    ensures
        final(text)@ == filled(old(text)@, width),
        final(text)@.len() == old(text)@.len(),
        forall|i: int| 0 <= i < old(text)@.len() ==> #[trigger] final(text)@[i] == old(text)@[i]
            || (old(text)@[i] == ' ' && final(text)@[i] == '\n'),
{
    textwrap::fill_inplace(text, width);
}

/// The lines without their empty chunks.
pub open spec fn without_empty(ls: Seq<Seq<(Seq<char>, bool)>>) -> Seq<Seq<(Seq<char>, bool)>> {
    ls.map_values(|l: Seq<(Seq<char>, bool)>| l.filter(|c: (Seq<char>, bool)| c.0.len() > 0))
}

/// The styled lines of a text in markdown wrapped to a width: the markup is
/// stripped, the text wrapped, the lines styled, and empty chunks dropped.
pub open spec fn wrapped_and_styled(text: Seq<char>, width: usize) -> Seq<Seq<(Seq<char>, bool)>> {
    let (plain, locs, _, _) = strip_fold(text);
    without_empty(style_lines(split_on(filled(plain, width), '\n'), locs).1)
}

proof fn lemma_split_on_total(s: Seq<char>, sep: char)
    ensures
        split_on(s, sep).len() + total_len(split_on(s, sep)) == s.len() + 1,
    decreases s.len(),
{
    if s.len() > 0 {
        lemma_split_on_total(s.drop_last(), sep);
        let rest = split_on(s.drop_last(), sep);
        crate::paths::lemma_split_on_nonempty(s.drop_last(), sep);
        assert(total_len(rest) == total_len(rest.drop_last()) + rest.last().len());
        if s.last() == sep {
            let u = rest.push(Seq::<char>::empty());
            assert(split_on(s, sep) == u);
            assert(u.drop_last() =~= rest);
            assert(total_len(u) == total_len(u.drop_last()) + u.last().len());
        } else {
            let u = rest.update(rest.len() - 1, rest.last().push(s.last()));
            assert(split_on(s, sep) == u);
            assert(u.drop_last() =~= rest.drop_last());
            assert(total_len(u) == total_len(u.drop_last()) + u.last().len());
            assert(u.last().len() == rest.last().len() + 1);
        }
    } else {
        let e = seq![Seq::<char>::empty()];
        assert(split_on(s, sep) == e);
        assert(e.drop_last() =~= Seq::<Seq<char>>::empty());
        assert(total_len(e) == total_len(e.drop_last()) + e.last().len());
    }
}

/// Keeps the chunks that are not empty.
fn drop_empty_chunks(line: Vec<StyledChunk>) -> (r: Vec<StyledChunk>)
    ensures
        r@.map_values(|c: StyledChunk| chunk_view(c)) == line@.map_values(|c: StyledChunk| chunk_view(c)).filter(|c: (Seq<char>, bool)| c.0.len() > 0),
{
    let ghost v = line@.map_values(|c: StyledChunk| chunk_view(c));
    let mut r: Vec<StyledChunk> = Vec::new();
    let ghost s = line@;
    for c in it: line
        invariant
            it.seq() == s,
            v == s.map_values(|c: StyledChunk| chunk_view(c)),
            r@.map_values(|c: StyledChunk| chunk_view(c)) == v.take(it.index() as int).filter(|c: (Seq<char>, bool)| c.0.len() > 0),
    {
        proof {
            assert(v.take(it.index() + 1).drop_last() =~= v.take(it.index() as int));
            assert(v.take(it.index() + 1).last() == chunk_view(c));
            reveal(Seq::filter);
        }
        let ghost before = r@.map_values(|c: StyledChunk| chunk_view(c));
        if c.text.as_str().unicode_len() > 0 {
            let ghost cv = chunk_view(c);
            r.push(c);
            proof {
                assert(r@.map_values(|c: StyledChunk| chunk_view(c)) =~= before.push(cv));
            }
        } else {
            proof {
                assert(r@.map_values(|c: StyledChunk| chunk_view(c)) =~= before);
            }
        }
    }
    assert(v.take(s.len() as int) =~= v);
    r
}

/// Strips the markup from a text, wraps it to a width and styles it; see
/// [`wrapped_and_styled`].
pub fn wrap_and_stylize(text: &str, width: usize) -> (r: Vec<Vec<StyledChunk>>)
    requires
        text@.len() < usize::MAX,
    ensures
        lines_view(r@) == wrapped_and_styled(text@, width),
{
    let (mut plain, locs) = strip_markup_and_extract_bold_positions(text);
    proof {
        lemma_strip_fold_len(text@);
    }
    let ghost stripped = plain@;
    fill_text(&mut plain, width);
    let cs = chars_of(plain.as_str());
    let lines = split_chars(&cs, '\n');
    proof {
        lemma_split_on_total(cs@, '\n');
    }
    let styled = stylize_wrapped_lines(lines, locs);
    let ghost sv = lines_view(styled@);
    let mut r: Vec<Vec<StyledChunk>> = Vec::new();
    let ghost ls = styled@;
    for line in it: styled
        invariant
            it.seq() == ls,
            sv == lines_view(ls),
            lines_view(r@) == without_empty(sv.take(it.index() as int)),
    {
        let ghost before = lines_view(r@);
        let ghost lv = line@.map_values(|c: StyledChunk| chunk_view(c));
        proof {
            assert(sv[it.index() as int] == lv);
        }
        let kept = drop_empty_chunks(line);
        r.push(kept);
        proof {
            assert(sv.take(it.index() + 1) =~= sv.take(it.index() as int).push(lv));
            assert(lines_view(r@) =~= before.push(lv.filter(|c: (Seq<char>, bool)| c.0.len() > 0)));
            assert(without_empty(sv.take(it.index() + 1)) =~= without_empty(sv.take(it.index() as int)).push(lv.filter(|c: (Seq<char>, bool)| c.0.len() > 0)));
        }
    }
    assert(sv.take(ls.len() as int) =~= sv);
    r
}

} // verus!
