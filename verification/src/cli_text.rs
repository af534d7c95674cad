//! Text for the command line help.
use vstd::prelude::*;
use crate::help::{join_lines, spaces};
use crate::paths::strings_view;
use crate::text::{chars_of, push_char, utf8_len, utf8_byte_len};
use vstd::string::StringExecFns;

verus! {

/// The longest length in bytes among the texts.
pub open spec fn max_utf8_len(vs: Seq<Seq<char>>) -> int
    decreases vs.len(),
{
    if vs.len() == 0 {
        0
    } else {
        let m = max_utf8_len(vs.drop_last());
        let w = utf8_len(vs.last());
        if w > m { w } else { m }
    }
}

/// A name and its description, indented by four spaces, the description
/// starting two columns after the longest name `m` (in bytes).
pub open spec fn justified_line(v: Seq<char>, d: Seq<char>, m: int) -> Seq<char> {
    "    "@ + v + spaces(m - utf8_len(v) + 2) + d
}

/// The names with their descriptions, one pair per line, as many as there
/// are of both.
pub open spec fn justified_list(vs: Seq<Seq<char>>, ds: Seq<Seq<char>>) -> Seq<char> {
    let n = if vs.len() < ds.len() { vs.len() } else { ds.len() };
    join_lines(Seq::new(n, |k: int| justified_line(vs[k], ds[k], max_utf8_len(vs))))
}

proof fn lemma_max_utf8_len(vs: Seq<Seq<char>>, k: int)
    requires
        0 <= k < vs.len(),
    ensures
        utf8_len(vs[k]) <= max_utf8_len(vs),
    decreases vs.len(),
{
    if k < vs.len() - 1 {
        lemma_max_utf8_len(vs.drop_last(), k);
    }
}

/// Writes the names with their descriptions, justified and indented; see
/// [`justified_list`].
pub fn justify_and_indent(variants: &[String], descriptions: &[String]) -> (r: String)
    requires
        variants@.len() > 0,
    ensures
        r@ == justified_list(strings_view(variants@), strings_view(descriptions@)),
{
    let ghost vs = strings_view(variants@);
    let ghost ds = strings_view(descriptions@);
    let mut max_len: u128 = 0;
    let mut i: usize = 0;
    while i < variants.len()
        invariant
            0 <= i <= variants@.len(),
            vs == strings_view(variants@),
            max_len == max_utf8_len(vs.take(i as int)),
            max_len <= 4 * usize::MAX,
        decreases variants@.len() - i,
    {
        let cs = chars_of(variants[i].as_str());
        let cl = cs.len();
        let w = utf8_byte_len(&cs);
        proof {
            assert(vs.take(i + 1).drop_last() =~= vs.take(i as int));
            assert(vs.take(i + 1).last() == vs[i as int]);
        }
        if w > max_len {
            max_len = w;
        }
        i = i + 1;
    }
    assert(vs.take(variants@.len() as int) =~= vs);
    let n = if variants.len() < descriptions.len() { variants.len() } else { descriptions.len() };
    let ghost lines = Seq::new(n as nat, |k: int| justified_line(vs[k], ds[k], max_utf8_len(vs)));
    let mut r = String::new();
    let mut k: usize = 0;
    proof {
        reveal_strlit("    ");
        reveal_strlit("\n");
    }
    while k < n
        invariant
            0 <= k <= n,
            n <= variants@.len(),
            n <= descriptions@.len(),
            vs == strings_view(variants@),
            ds == strings_view(descriptions@),
            max_len == max_utf8_len(vs),
            max_len <= 4 * usize::MAX,
            lines == Seq::new(n as nat, |k: int| justified_line(vs[k], ds[k], max_utf8_len(vs))),
            r@ == join_lines(lines.take(k as int)),
        decreases n - k,
    {
        let ghost before = r@;
        if k > 0 {
            r.append("\n");
        }
        r.append("    ");
        r.append(variants[k].as_str());
        let cs = chars_of(variants[k].as_str());
        let w = utf8_byte_len(&cs);
        proof {
            lemma_max_utf8_len(vs, k as int);
        }
        let pad: u128 = max_len - w + 2;
        let ghost mid = r@;
        let mut j: u128 = 0;
        while j < pad
            invariant
                0 <= j <= pad,
                r@ == mid + spaces(j as int),
            decreases pad - j,
        {
            push_char(&mut r, ' ');
            assert(spaces(j + 1) =~= spaces(j as int).push(' '));
            j = j + 1;
        }
        r.append(descriptions[k].as_str());
        proof {
            assert(lines.take(k + 1).drop_last() =~= lines.take(k as int));
            assert(lines.take(k + 1).last() == lines[k as int]);
            if k == 0 {
                assert(lines.take(1) =~= seq![lines[0]]);
            }
            assert(r@ =~= (if k == 0 { Seq::<char>::empty() } else { before + "\n"@ }) + lines[k as int]);
        }
        k = k + 1;
    }
    assert(lines.take(n as int) =~= lines);
    r
}

} // verus!
