//! Paths as text: splitting a path into its components (with the rules of
//! Unix paths), joining, taking the parent, and lexical normalization.
use vstd::prelude::*;
use crate::text::{chars_of, str_eq, string_from_chars};
use vstd::string::StringExecFns;

verus! {

/// `s` cut at every occurrence of `sep`; `k` separators give `k + 1` parts.
pub open spec fn split_on(s: Seq<char>, sep: char) -> Seq<Seq<char>>
    decreases s.len(),
{
    if s.len() == 0 {
        seq![Seq::<char>::empty()]
    } else {
        let rest = split_on(s.drop_last(), sep);
        if s.last() == sep {
            rest.push(Seq::<char>::empty())
        } else {
            rest.update(rest.len() - 1, rest.last().push(s.last()))
        }
    }
}

pub proof fn lemma_split_on_nonempty(s: Seq<char>, sep: char)
    ensures
        split_on(s, sep).len() >= 1,
    decreases s.len(),
{
    if s.len() > 0 {
        lemma_split_on_nonempty(s.drop_last(), sep);
    }
}

/// The text of the current-directory component.
pub open spec fn cur_dir() -> Seq<char> {
    seq!['.']
}

/// The text of the parent-directory component.
pub open spec fn parent_dir() -> Seq<char> {
    seq!['.', '.']
}

/// The text of the root component.
pub open spec fn root_dir() -> Seq<char> {
    seq!['/']
}

/// A part between two separators that names something: not empty and not `.`.
pub open spec fn is_normal_part(p: Seq<char>) -> bool {
    p.len() > 0 && p != cur_dir()
}

/// The parts that name something, in order.
pub open spec fn normal_parts(parts: Seq<Seq<char>>) -> Seq<Seq<char>>
    decreases parts.len(),
{
    if parts.len() == 0 {
        Seq::empty()
    } else {
        let r = normal_parts(parts.drop_last());
        if is_normal_part(parts.last()) {
            r.push(parts.last())
        } else {
            r
        }
    }
}

/// The component that a path starts with, if it is not a normal one: the root
/// for an absolute path, `.` for a relative path that starts with `.`.
pub open spec fn leading_components(p: Seq<char>) -> Seq<Seq<char>> {
    if p.len() > 0 && p[0] == '/' {
        seq![root_dir()]
    } else if p.len() > 0 && p[0] == '.' && (p.len() == 1 || p[1] == '/') {
        seq![cur_dir()]
    } else {
        Seq::empty()
    }
}

/// The components of a path: repeated separators and `.` parts are ignored,
/// except a leading `.`; an absolute path starts with the root component.
pub open spec fn components(p: Seq<char>) -> Seq<Seq<char>> {
    leading_components(p) + normal_parts(split_on(p, '/'))
}

/// A path is absolute when it starts with the root.
pub open spec fn is_absolute(p: Seq<char>) -> bool {
    p.len() > 0 && p[0] == '/'
}

/// The parts joined with `/` between them.
pub open spec fn join_parts(parts: Seq<Seq<char>>) -> Seq<char>
    decreases parts.len(),
{
    if parts.len() == 0 {
        Seq::empty()
    } else if parts.len() == 1 {
        parts[0]
    } else {
        join_parts(parts.drop_last()) + seq!['/'] + parts.last()
    }
}

/// A path written from its components.
pub open spec fn render_components(cs: Seq<Seq<char>>) -> Seq<char> {
    if cs.len() > 0 && cs[0] == root_dir() {
        root_dir() + join_parts(cs.drop_first())
    } else {
        join_parts(cs)
    }
}

/// The parent of a path: the path without its last component; a path that is
/// only a root, or is empty, has none.
pub open spec fn parent_of(p: Seq<char>) -> Option<Seq<char>> {
    let cs = components(p);
    if cs.len() == 0 || (cs.len() == 1 && cs[0] == root_dir()) {
        None
    } else {
        Some(render_components(cs.drop_last()))
    }
}

/// `base` joined with `p`: an absolute `p` replaces `base`; otherwise `p` is
/// added after a separator, which is left out where `base` is empty or already
/// ends with one.
pub open spec fn join_path(base: Seq<char>, p: Seq<char>) -> Seq<char> {
    if is_absolute(p) {
        p
    } else if base.len() == 0 || base.last() == '/' {
        base + p
    } else {
        base + seq!['/'] + p
    }
}

/// The state of a lexical normalization: whether the result is absolute, and
/// the names kept so far.
pub open spec fn normalize_step(state: (bool, Seq<Seq<char>>), c: Seq<char>) -> (bool, Seq<Seq<char>>) {
    if c == root_dir() {
        (true, Seq::empty())
    } else if c == cur_dir() {
        state
    } else if c == parent_dir() {
        if state.1.len() > 0 {
            (state.0, state.1.drop_last())
        } else {
            state
        }
    } else {
        (state.0, state.1.push(c))
    }
}

pub open spec fn normalize_fold(cs: Seq<Seq<char>>) -> (bool, Seq<Seq<char>>)
    decreases cs.len(),
{
    if cs.len() == 0 {
        (false, Seq::empty())
    } else {
        normalize_step(normalize_fold(cs.drop_last()), cs.last())
    }
}

/// A path with `.` removed and each `..` taking away the name before it (or
/// dropped where there is none), written back as text.
pub open spec fn normalized(p: Seq<char>) -> Seq<char> {
    let st = normalize_fold(components(p));
    if st.0 {
        root_dir() + join_parts(st.1)
    } else {
        join_parts(st.1)
    }
}

/// The views of a vector of strings.
pub open spec fn strings_view(v: Seq<String>) -> Seq<Seq<char>> {
    v.map_values(|s: String| s@)
}

/// Splits a path into its components; see [`components`].
pub fn path_components(path: &str) -> (res: Vec<String>)
    ensures
        strings_view(res@) == components(path@),
{
    let cs = chars_of(path);
    let n = cs.len();
    let mut out: Vec<String> = Vec::new();
    let mut cur: Vec<char> = Vec::new();
    let mut i: usize = 0;
    while i < n
        invariant
            n == cs@.len(),
            cs@ == path@,
            0 <= i <= n,
            split_on(cs@.take(i as int), '/').len() >= 1,
            cur@ == split_on(cs@.take(i as int), '/').last(),
            strings_view(out@) == normal_parts(split_on(cs@.take(i as int), '/').drop_last()),
        decreases n - i,
    {
        let c = cs[i];
        let ghost before = split_on(cs@.take(i as int), '/');
        assert(cs@.take(i + 1).drop_last() == cs@.take(i as int));
        assert(cs@.take(i + 1).last() == c);
        proof {
            lemma_split_on_nonempty(cs@.take(i + 1), '/');
        }
        if c == '/' {
            if cur.len() > 0 && !(cur.len() == 1 && cur[0] == '.') {
                let s = string_from_chars(cur.as_slice());
                proof {
                    lemma_strings_view_push(out@, s);
                }
                out.push(s);
            }
            proof {
                lemma_normal_part_test(cur@);
                let after = split_on(cs@.take(i + 1), '/');
                assert(after == before.push(Seq::<char>::empty()));
                assert(after.drop_last() == before);
            }
            cur = Vec::new();
        } else {
            cur.push(c);
            proof {
                let after = split_on(cs@.take(i + 1), '/');
                assert(after == before.update(before.len() - 1, before.last().push(c)));
                assert(after.drop_last() == before.drop_last());
            }
        }
        i = i + 1;
    }
    assert(cs@.take(n as int) == cs@);
    let ghost parts = split_on(cs@, '/');
    // the last part
    if cur.len() > 0 && !(cur.len() == 1 && cur[0] == '.') {
        let s = string_from_chars(cur.as_slice());
        proof {
            lemma_strings_view_push(out@, s);
        }
        out.push(s);
    }
    proof {
        lemma_normal_part_test(cur@);
    }
    // the leading component
    let absolute = n > 0 && cs[0] == '/';
    let first_is_dot = !absolute && n > 0 && cs[0] == '.' && (n == 1 || cs[1] == '/');
    if absolute || first_is_dot {
        let lead = if absolute {
            let a = ['/'];
            assert(a@ == root_dir());
            string_from_chars(&a)
        } else {
            let a = ['.'];
            assert(a@ == cur_dir());
            string_from_chars(&a)
        };
        assert(seq![lead@] == leading_components(path@));
        let mut res: Vec<String> = Vec::new();
        res.push(lead);
        let mut j: usize = 0;
        while j < out.len()
            invariant
                0 <= j <= out@.len(),
                res@.len() == j + 1,
                strings_view(res@) == seq![lead@] + strings_view(out@.take(j as int)),
            decreases out@.len() - j,
        {
            let item = out[j].clone();
            proof {
                lemma_strings_view_push(res@, item);
                assert(out@.take(j + 1) == out@.take(j as int).push(out@[j as int]));
                lemma_strings_view_push(out@.take(j as int), out@[j as int]);
            }
            res.push(item);
            j = j + 1;
        }
        assert(out@.take(out@.len() as int) == out@);
        res
    } else {
        out
    }
}

pub proof fn lemma_strings_view_push(v: Seq<String>, s: String)
    ensures
        strings_view(v.push(s)) == strings_view(v).push(s@),
{
    assert(strings_view(v.push(s)) =~= strings_view(v).push(s@));
}

/// The test that the exec code makes for a normal part.
pub proof fn lemma_normal_part_test(p: Seq<char>)
    ensures
        is_normal_part(p) <==> (p.len() > 0 && !(p.len() == 1 && p[0] == '.')),
{
    if p.len() == 1 && p[0] == '.' {
        assert(p == cur_dir());
    }
}


/// The parts joined with `/` between them, as a string.
pub fn join_strings(parts: &Vec<String>) -> (res: String)
    ensures
        res@ == join_parts(strings_view(parts@)),
{
    let mut res = String::new();
    let mut i: usize = 0;
    while i < parts.len()
        invariant
            0 <= i <= parts@.len(),
            res@ == join_parts(strings_view(parts@.take(i as int))),
        decreases parts@.len() - i,
    {
        let ghost before = strings_view(parts@.take(i as int));
        proof {
            assert(parts@.take(i + 1) == parts@.take(i as int).push(parts@[i as int]));
            lemma_strings_view_push(parts@.take(i as int), parts@[i as int]);
        }
        if i > 0 {
            res.append("/");
            proof {
                reveal_strlit("/");
            }
        }
        res.append(parts[i].as_str());
        proof {
            let after = strings_view(parts@.take(i + 1));
            assert(after.drop_last() == before);
            if i > 0 {
                assert(res@ == join_parts(before) + seq!['/'] + parts@[i as int]@);
            } else {
                assert(before.len() == 0);
                assert(res@ == parts@[i as int]@);
            }
        }
        i = i + 1;
    }
    assert(parts@.take(parts@.len() as int) == parts@);
    res
}

/// Normalizes a path lexically; see [`normalized`]. The file system is not
/// consulted, so `..` after a symbolic link is resolved by name.
pub fn normalize_path(path: &str) -> (res: String)
    ensures
        res@ == normalized(path@),
{
    let comps = path_components(path);
    let mut absolute = false;
    let mut stack: Vec<String> = Vec::new();
    let mut i: usize = 0;
    proof {
        reveal_strlit("/");
        reveal_strlit(".");
        reveal_strlit("..");
    }
    while i < comps.len()
        invariant
            0 <= i <= comps@.len(),
            strings_view(comps@) == components(path@),
            (absolute, strings_view(stack@)) == normalize_fold(strings_view(comps@).take(i as int)),
            "/"@ == root_dir(),
            "."@ == cur_dir(),
            ".."@ == parent_dir(),
        decreases comps@.len() - i,
    {
        let ghost cs = strings_view(comps@);
        let ghost prev = (absolute, strings_view(stack@));
        let c = &comps[i];
        proof {
            assert(cs.take(i + 1).drop_last() == cs.take(i as int));
            assert(cs.take(i + 1).last() == c@);
        }
        if str_eq(c.as_str(), "/") {
            absolute = true;
            stack = Vec::new();
            assert(strings_view(stack@) =~= Seq::<Seq<char>>::empty());
        } else if str_eq(c.as_str(), ".") {
        } else if str_eq(c.as_str(), "..") {
            if stack.len() > 0 {
                stack.pop();
                assert(strings_view(stack@) =~= prev.1.drop_last());
            }
        } else {
            proof {
                lemma_strings_view_push(stack@, *c);
            }
            stack.push(c.clone());
        }
        i = i + 1;
    }
    assert(strings_view(comps@).take(comps@.len() as int) == strings_view(comps@));
    let joined = join_strings(&stack);
    if absolute {
        let mut res = String::new();
        res.append("/");
        res.append(joined.as_str());
        res
    } else {
        joined
    }
}

/// Whether a path is absolute; see [`is_absolute`].
pub fn path_is_absolute(p: &str) -> (r: bool)
    ensures
        r == is_absolute(p@),
{
    let cs = chars_of(p);
    cs.len() > 0 && cs[0] == '/'
}

/// `base` joined with `p`; see [`join_path`].
pub fn path_join(base: &str, p: &str) -> (res: String)
    ensures
        res@ == join_path(base@, p@),
{
    let bs = chars_of(base);
    let mut res = String::new();
    if path_is_absolute(p) {
        res.append(p);
    } else if bs.len() == 0 || bs[bs.len() - 1] == '/' {
        res.append(base);
        res.append(p);
    } else {
        res.append(base);
        res.append("/");
        proof {
            reveal_strlit("/");
        }
        res.append(p);
    }
    res
}

/// The parent of a path, if it has one; see [`parent_of`].
pub fn path_parent(p: &str) -> (r: Option<String>)
    ensures
        match r {
            Some(x) => parent_of(p@) == Some(x@),
            None => parent_of(p@) is None,
        },
{
    proof {
        reveal_strlit("/");
    }
    let comps = path_components(p);
    let ghost cs = components(p@);
    let n = comps.len();
    if n == 0 {
        return None;
    }
    assert(cs[0] == comps@[0]@);
    assert("/"@ == root_dir());
    if n == 1 && str_eq(comps[0].as_str(), "/") {
        return None;
    }
    let rooted = str_eq(comps[0].as_str(), "/");
    let start: usize = if rooted { 1 } else { 0 };
    let mut rest: Vec<String> = Vec::new();
    let mut i: usize = start;
    while i < n - 1
        invariant
            start <= i <= n - 1,
            n == comps@.len(),
            n >= 1,
            strings_view(comps@) == cs,
            strings_view(rest@) == cs.subrange(start as int, i as int),
        decreases n - 1 - i,
    {
        proof {
            lemma_strings_view_push(rest@, comps@[i as int]);
            assert(cs.subrange(start as int, i + 1) == cs.subrange(start as int, i as int).push(cs[i as int]));
        }
        rest.push(comps[i].clone());
        i = i + 1;
    }
    let joined = join_strings(&rest);
    proof {
        let init = cs.drop_last();
        if rooted {
            assert(init.len() > 0 && init[0] == root_dir());
            assert(init.drop_first() == cs.subrange(1, n - 1));
            assert(render_components(init) == root_dir() + join_parts(cs.subrange(1, n - 1)));
        } else {
            assert(init == cs.subrange(0, n - 1));
            assert(init.len() > 0 ==> init[0] != root_dir());
            assert(render_components(init) == join_parts(cs.subrange(0, n - 1)));
        }
    }
    if rooted {
        let mut r = String::new();
        r.append("/");
        r.append(joined.as_str());
        Some(r)
    } else {
        Some(joined)
    }
}

proof fn lemma_fold_keeps_root(cs: Seq<Seq<char>>)
    requires
        cs.len() > 0,
        cs[0] == root_dir(),
    ensures
        normalize_fold(cs).0,
    decreases cs.len(),
{
    if cs.len() > 1 {
        assert(cs.drop_last()[0] == cs[0]);
        lemma_fold_keeps_root(cs.drop_last());
    } else {
        assert(cs.drop_last().len() == 0);
    }
}

/// Normalizing an absolute path gives an absolute path.
pub proof fn law_normalized_absolute(p: Seq<char>)
    requires
        is_absolute(p),
    ensures
        is_absolute(normalized(p)),
{
    let cs = components(p);
    assert(leading_components(p) == seq![root_dir()]);
    assert(cs[0] == root_dir());
    lemma_fold_keeps_root(cs);
    let st = normalize_fold(cs);
    assert(normalized(p) == root_dir() + join_parts(st.1));
    assert(normalized(p)[0] == '/');
}


/// No part of a split holds the separator.
proof fn lemma_split_parts_clean(s: Seq<char>, sep: char)
    ensures
        forall|i: int| 0 <= i < split_on(s, sep).len() ==> !(#[trigger] split_on(s, sep)[i]).contains(sep),
    decreases s.len(),
{
    lemma_split_on_nonempty(s, sep);
    if s.len() > 0 {
        lemma_split_parts_clean(s.drop_last(), sep);
        lemma_split_on_nonempty(s.drop_last(), sep);
        let rest = split_on(s.drop_last(), sep);
        if s.last() != sep {
            let l = rest.last().push(s.last());
            assert forall|k: int| 0 <= k < l.len() implies l[k] != sep by {
                if k < rest.last().len() {
                    assert(l[k] == rest.last()[k]);
                    assert(!rest[rest.len() - 1].contains(sep));
                }
            }
        }
    }
}

/// Adding text without the separator extends the last part of a split.
proof fn lemma_split_append(a: Seq<char>, b: Seq<char>, sep: char)
    requires
        !b.contains(sep),
    ensures
        split_on(a + b, sep) == split_on(a, sep).update(split_on(a, sep).len() - 1, split_on(a, sep).last() + b),
    decreases b.len(),
{
    lemma_split_on_nonempty(a, sep);
    if b.len() == 0 {
        assert(a + b == a);
        assert(split_on(a, sep).last() + b == split_on(a, sep).last());
        assert(split_on(a, sep).update(split_on(a, sep).len() - 1, split_on(a, sep).last()) == split_on(a, sep));
    } else {
        let b0 = b.drop_last();
        assert(!b0.contains(sep)) by {
            assert forall|k: int| 0 <= k < b0.len() implies b0[k] != sep by {
                assert(b0[k] == b[k]);
            }
        }
        lemma_split_append(a, b0, sep);
        assert((a + b).drop_last() == a + b0);
        assert((a + b).last() == b.last());
        assert(b.last() != sep) by {
            assert(b[b.len() - 1] == b.last());
        }
        assert(split_on(a, sep).last() + b0 + seq![b.last()] == split_on(a, sep).last() + b);
        assert((split_on(a, sep).last() + b0).push(b.last()) == split_on(a, sep).last() + b);
    }
}

/// Parts without the separator, joined by it, split back into the same parts.
proof fn lemma_split_join(parts: Seq<Seq<char>>)
    requires
        parts.len() >= 1,
        forall|i: int| 0 <= i < parts.len() ==> !(#[trigger] parts[i]).contains('/'),
    ensures
        split_on(join_parts(parts), '/') == parts,
    decreases parts.len(),
{
    if parts.len() == 1 {
        lemma_split_append(Seq::<char>::empty(), parts[0], '/');
        assert(Seq::<char>::empty() + parts[0] == parts[0]);
        assert(split_on(Seq::<char>::empty(), '/') == seq![Seq::<char>::empty()]);
        assert(Seq::<char>::empty() + parts[0] == parts[0]);
        assert(seq![Seq::<char>::empty()].update(0, Seq::<char>::empty() + parts[0]) == parts);
    } else {
        let front = parts.drop_last();
        lemma_split_join(front);
        let j = join_parts(front) + seq!['/'];
        assert(j.drop_last() == join_parts(front));
        assert(j.last() == '/');
        assert(split_on(j, '/') == parts.drop_last().push(Seq::<char>::empty()));
        lemma_split_append(j, parts.last(), '/');
        assert(join_parts(parts) == j + parts.last());
        assert(Seq::<char>::empty() + parts.last() == parts.last());
        assert(parts.drop_last().push(Seq::<char>::empty()).update(parts.len() - 1, Seq::<char>::empty() + parts.last()) == parts);
    }
}

/// Keeping the parts that name something distributes over concatenation.
proof fn lemma_normal_parts_concat(a: Seq<Seq<char>>, b: Seq<Seq<char>>)
    ensures
        normal_parts(a + b) == normal_parts(a) + normal_parts(b),
    decreases b.len(),
{
    if b.len() == 0 {
        assert(a + b == a);
        assert(normal_parts(a) + normal_parts(b) == normal_parts(a));
    } else {
        lemma_normal_parts_concat(a, b.drop_last());
        assert((a + b).drop_last() == a + b.drop_last());
        assert((a + b).last() == b.last());
    }
}

/// Parts that all name something are kept as they are.
proof fn lemma_normal_parts_all(parts: Seq<Seq<char>>)
    requires
        forall|i: int| 0 <= i < parts.len() ==> is_normal_part(#[trigger] parts[i]),
    ensures
        normal_parts(parts) == parts,
    decreases parts.len(),
{
    if parts.len() > 0 {
        lemma_normal_parts_all(parts.drop_last());
        assert(is_normal_part(parts[parts.len() - 1]));
        assert(parts.drop_last().push(parts.last()) == parts);
    }
}

/// A name that a normalized path keeps: it names something, is not `..`, and
/// holds no separator.
pub open spec fn plain_name(c: Seq<char>) -> bool {
    &&& is_normal_part(c)
    &&& c != parent_dir()
    &&& !c.contains('/')
}

/// The names kept by normalizing are plain.
proof fn lemma_fold_plain(cs: Seq<Seq<char>>)
    requires
        forall|i: int| 0 <= i < cs.len() ==> (#[trigger] cs[i]) == root_dir() || cs[i] == cur_dir() || cs[i] == parent_dir() || plain_name(cs[i]),
    ensures
        forall|i: int| 0 <= i < normalize_fold(cs).1.len() ==> plain_name(#[trigger] normalize_fold(cs).1[i]),
    decreases cs.len(),
{
    if cs.len() > 0 {
        lemma_fold_plain(cs.drop_last());
        assert(cs[cs.len() - 1] == cs.last());
        let st = normalize_fold(cs.drop_last());
        let c = cs.last();
        if c != root_dir() && c != cur_dir() && c != parent_dir() {
            assert forall|i: int| 0 <= i < st.1.push(c).len() implies plain_name(#[trigger] st.1.push(c)[i]) by {
                if i < st.1.len() {
                    assert(st.1.push(c)[i] == st.1[i]);
                }
            }
        } else if c == parent_dir() && st.1.len() > 0 {
            assert forall|i: int| 0 <= i < st.1.drop_last().len() implies plain_name(#[trigger] st.1.drop_last()[i]) by {
                assert(st.1.drop_last()[i] == st.1[i]);
            }
        }
    }
}

/// Normalizing plain names after some components keeps them all.
proof fn lemma_fold_plain_suffix(pre: Seq<Seq<char>>, names: Seq<Seq<char>>)
    requires
        forall|i: int| 0 <= i < names.len() ==> plain_name(#[trigger] names[i]),
    ensures
        normalize_fold(pre + names) == (normalize_fold(pre).0, normalize_fold(pre).1 + names),
    decreases names.len(),
{
    if names.len() == 0 {
        assert(pre + names == pre);
        assert(normalize_fold(pre).1 + names == normalize_fold(pre).1);
    } else {
        lemma_fold_plain_suffix(pre, names.drop_last());
        assert((pre + names).drop_last() == pre + names.drop_last());
        assert((pre + names).last() == names.last());
        assert(plain_name(names[names.len() - 1]));
        assert(root_dir().contains('/')) by {
            assert(root_dir()[0] == '/');
        }
        assert((normalize_fold(pre).1 + names.drop_last()).push(names.last()) == normalize_fold(pre).1 + names);
    }
}

/// The components of a path hold the root, `.`, `..`, or plain names.
proof fn lemma_components_kinds(p: Seq<char>)
    ensures
        forall|i: int| 0 <= i < components(p).len() ==> (#[trigger] components(p)[i]) == root_dir() || components(p)[i] == cur_dir() || components(p)[i] == parent_dir() || plain_name(components(p)[i]),
{
    let parts = split_on(p, '/');
    lemma_split_parts_clean(p, '/');
    let np = normal_parts(parts);
    assert(forall|i: int| 0 <= i < np.len() ==> is_normal_part(#[trigger] np[i]) && !np[i].contains('/')) by {
        lemma_normal_parts_sub(parts);
    }
    let lead = leading_components(p);
    assert forall|i: int| 0 <= i < components(p).len() implies (#[trigger] components(p)[i]) == root_dir() || components(p)[i] == cur_dir() || components(p)[i] == parent_dir() || plain_name(components(p)[i]) by {
        if i >= lead.len() {
            assert(components(p)[i] == np[i - lead.len()]);
        }
    }
}

/// The parts kept as naming something are parts of the split.
proof fn lemma_normal_parts_sub(parts: Seq<Seq<char>>)
    requires
        forall|i: int| 0 <= i < parts.len() ==> !(#[trigger] parts[i]).contains('/'),
    ensures
        forall|i: int| 0 <= i < normal_parts(parts).len() ==> is_normal_part(#[trigger] normal_parts(parts)[i]) && !normal_parts(parts)[i].contains('/'),
    decreases parts.len(),
{
    if parts.len() > 0 {
        lemma_normal_parts_sub(parts.drop_last());
        assert(!parts[parts.len() - 1].contains('/'));
        let r = normal_parts(parts.drop_last());
        if is_normal_part(parts.last()) {
            assert forall|i: int| 0 <= i < r.push(parts.last()).len() implies is_normal_part(#[trigger] r.push(parts.last())[i]) && !r.push(parts.last())[i].contains('/') by {
                if i < r.len() {
                    assert(r.push(parts.last())[i] == r[i]);
                }
            }
        }
    }
}

/// `parts` joined starts with its first part.
proof fn lemma_join_starts(parts: Seq<Seq<char>>)
    requires
        parts.len() >= 1,
    ensures
        join_parts(parts).len() >= parts[0].len(),
        join_parts(parts).take(parts[0].len() as int) == parts[0],
    decreases parts.len(),
{
    if parts.len() > 1 {
        lemma_join_starts(parts.drop_last());
        let j = join_parts(parts.drop_last());
        assert(join_parts(parts) == j + seq!['/'] + parts.last());
        assert((j + seq!['/'] + parts.last()).take(parts[0].len() as int) == j.take(parts[0].len() as int));
    } else {
        assert(parts[0].take(parts[0].len() as int) == parts[0]);
    }
}

/// The components of a path written from plain names, after the root or not.
proof fn lemma_components_of_render(abs: bool, names: Seq<Seq<char>>)
    requires
        forall|i: int| 0 <= i < names.len() ==> plain_name(#[trigger] names[i]),
    ensures
        components(if abs { root_dir() + join_parts(names) } else { join_parts(names) })
            == (if abs { seq![root_dir()] } else { Seq::<Seq<char>>::empty() }) + names,
{
    let p = if abs { root_dir() + join_parts(names) } else { join_parts(names) };
    if names.len() == 0 {
        assert(join_parts(names) == Seq::<char>::empty());
        if abs {
            assert(p == seq!['/']);
            assert(p.drop_last() == Seq::<char>::empty());
            assert(p.last() == '/');
            assert(split_on(p.drop_last(), '/') == seq![Seq::<char>::empty()]);
            assert(split_on(p, '/') =~= seq![Seq::<char>::empty(), Seq::<char>::empty()]);
            assert(normal_parts(seq![Seq::<char>::empty(), Seq::<char>::empty()]).len() == 0) by {
                let two = seq![Seq::<char>::empty(), Seq::<char>::empty()];
                assert(two.drop_last() =~= seq![Seq::<char>::empty()]);
                assert(two.last() == Seq::<char>::empty());
                lemma_normal_parts_of_empty();
                assert(normal_parts(two) == normal_parts(two.drop_last()));
            }
            assert(leading_components(p) == seq![root_dir()]);
        } else {
            assert(p.len() == 0);
            assert(normal_parts(seq![Seq::<char>::empty()]) == Seq::<Seq<char>>::empty()) by {
                lemma_normal_parts_of_empty();
            }
        }
        assert(components(p) =~= (if abs { seq![root_dir()] } else { Seq::<Seq<char>>::empty() }) + names);
    } else {
        let parts = if abs { seq![Seq::<char>::empty()] + names } else { names };
        assert forall|i: int| 0 <= i < parts.len() implies !(#[trigger] parts[i]).contains('/') by {
            if abs && i == 0 {
                assert(parts[0] == Seq::<char>::empty());
            } else if abs {
                assert(parts[i] == names[i - 1]);
            }
        }
        lemma_join_cons(names);
        if abs {
            assert(join_parts(parts) == p);
        }
        lemma_split_join(parts);
        lemma_normal_parts_all(names);
        if abs {
            lemma_normal_parts_concat(seq![Seq::<char>::empty()], names);
            assert(normal_parts(seq![Seq::<char>::empty()]) == Seq::<Seq<char>>::empty()) by {
                lemma_normal_parts_of_empty();
            }
            assert(normal_parts(seq![Seq::<char>::empty()]) + names == names);
            assert(p[0] == '/');
            assert(leading_components(p) == seq![root_dir()]);
        } else {
            lemma_join_starts(names);
            assert(plain_name(names[0]));
            let n0 = names[0];
            assert(p.take(n0.len() as int) == n0);
            if p.len() > 0 && p[0] == '.' {
                assert(n0[0] == p[0]);
                if n0.len() == 1 {
                    assert(n0 == cur_dir());
                } else {
                    assert(n0[1] == p[1]);
                    if p[1] == '.' && n0.len() == 2 {
                        assert(n0 == parent_dir());
                    }
                }
            }
            assert(p.len() > 0 && p[0] == '.' && (p.len() == 1 || p[1] == '/') ==> false) by {
                if p.len() > 0 && p[0] == '.' {
                    assert(n0[0] == '.');
                    if p.len() == 1 {
                        assert(n0.len() == 1);
                        assert(n0 =~= cur_dir());
                    } else if n0.len() == 1 {
                        assert(n0 =~= cur_dir());
                    } else {
                        assert(n0[1] == p[1]);
                        assert(!n0.contains('/')) ;
                        assert(n0[1] != '/');
                    }
                }
            }
            assert(p.len() > 0 && p[0] == '/' ==> false) by {
                if p.len() > 0 && p[0] == '/' {
                    assert(n0[0] == '/');
                }
            }
            assert(leading_components(p) == Seq::<Seq<char>>::empty());
        }
        assert(components(p) =~= (if abs { seq![root_dir()] } else { Seq::<Seq<char>>::empty() }) + names);
    }
}

/// A single empty part names nothing.
proof fn lemma_normal_parts_of_empty()
    ensures
        normal_parts(seq![Seq::<char>::empty()]) == Seq::<Seq<char>>::empty(),
{
    let e = seq![Seq::<char>::empty()];
    assert(e.drop_last() =~= Seq::<Seq<char>>::empty());
    assert(e.last() == Seq::<char>::empty());
    assert(!is_normal_part(e.last()));
    assert(normal_parts(e.drop_last()) == Seq::<Seq<char>>::empty());
    assert(normal_parts(e) == normal_parts(e.drop_last()));
}

/// Joining a first part before more parts puts a separator between them.
proof fn lemma_join_cons(names: Seq<Seq<char>>)
    requires
        names.len() >= 1,
    ensures
        join_parts(seq![Seq::<char>::empty()] + names) == root_dir() + join_parts(names),
    decreases names.len(),
{
    let all = seq![Seq::<char>::empty()] + names;
    if names.len() == 1 {
        assert(all.drop_last() == seq![Seq::<char>::empty()]);
        assert(all.last() == names[0]);
        assert(join_parts(all.drop_last()) == Seq::<char>::empty());
        assert(Seq::<char>::empty() + seq!['/'] + names[0] == root_dir() + names[0]);
    } else {
        lemma_join_cons(names.drop_last());
        assert(all.drop_last() == seq![Seq::<char>::empty()] + names.drop_last());
        assert(all.last() == names.last());
        assert(root_dir() + join_parts(names.drop_last()) + seq!['/'] + names.last()
            == root_dir() + (join_parts(names.drop_last()) + seq!['/'] + names.last()));
    }
}

/// The components of a normalized path: the root if the normalization is
/// absolute, then the names it kept.
proof fn lemma_components_normalized(p: Seq<char>)
    ensures
        components(normalized(p)) == (if normalize_fold(components(p)).0 { seq![root_dir()] } else { Seq::<Seq<char>>::empty() })
            + normalize_fold(components(p)).1,
        forall|i: int| 0 <= i < normalize_fold(components(p)).1.len() ==> plain_name(#[trigger] normalize_fold(components(p)).1[i]),
{
    lemma_components_kinds(p);
    lemma_fold_plain(components(p));
    let st = normalize_fold(components(p));
    lemma_components_of_render(st.0, st.1);
}

/// A normalized path has no `.` and no `..` components.
pub proof fn law_normalized_has_no_dots(p: Seq<char>)
    ensures
        forall|i: int| 0 <= i < components(normalized(p)).len() ==>
            (#[trigger] components(normalized(p))[i]) != cur_dir() && components(normalized(p))[i] != parent_dir(),
{
    lemma_components_normalized(p);
    let st = normalize_fold(components(p));
    let cs = components(normalized(p));
    assert forall|i: int| 0 <= i < cs.len() implies (#[trigger] cs[i]) != cur_dir() && cs[i] != parent_dir() by {
        if st.0 && i == 0 {
            assert(cs[0] == root_dir());
            assert(root_dir()[0] != cur_dir()[0]);
            assert(root_dir().len() != parent_dir().len());
        } else {
            let k = if st.0 { i - 1 } else { i };
            assert(cs[i] == st.1[k]);
            assert(plain_name(st.1[k]));
        }
    }
}

/// Normalizing twice gives what normalizing once gives.
pub proof fn law_normalize_idempotent(p: Seq<char>)
    ensures
        normalized(normalized(p)) == normalized(p),
{
    lemma_components_normalized(p);
    let st = normalize_fold(components(p));
    let pre = if st.0 { seq![root_dir()] } else { Seq::<Seq<char>>::empty() };
    lemma_fold_plain_suffix(pre, st.1);
    if st.0 {
        assert(pre.drop_last() == Seq::<Seq<char>>::empty());
        assert(normalize_fold(pre) == (true, Seq::<Seq<char>>::empty()));
    } else {
        assert(normalize_fold(pre) == (false, Seq::<Seq<char>>::empty()));
    }
    assert(Seq::<Seq<char>>::empty() + st.1 == st.1);
    assert(normalize_fold(components(normalized(p))) == st);
}

/// Normalizing never becomes absolute without a root component.
proof fn lemma_fold_stays_relative(cs: Seq<Seq<char>>)
    requires
        forall|i: int| 0 <= i < cs.len() ==> #[trigger] cs[i] != root_dir(),
    ensures
        !normalize_fold(cs).0,
    decreases cs.len(),
{
    if cs.len() > 0 {
        lemma_fold_stays_relative(cs.drop_last());
        assert(cs[cs.len() - 1] == cs.last());
    }
}

/// Normalizing a relative path gives a relative path.
pub proof fn law_normalized_relative(p: Seq<char>)
    requires
        !is_absolute(p),
    ensures
        !is_absolute(normalized(p)),
{
    let cs = components(p);
    lemma_components_kinds(p);
    assert forall|i: int| 0 <= i < cs.len() implies #[trigger] cs[i] != root_dir() by {
        if i < leading_components(p).len() {
            assert(leading_components(p) == seq![cur_dir()]);
            assert(cs[i] == cur_dir());
            assert(cur_dir()[0] != root_dir()[0]);
        } else {
            let np = normal_parts(split_on(p, '/'));
            lemma_split_parts_clean(p, '/');
            lemma_normal_parts_sub(split_on(p, '/'));
            assert(cs[i] == np[i - leading_components(p).len()]);
            assert(root_dir().contains('/')) by {
                assert(root_dir()[0] == '/');
            }
        }
    }
    lemma_fold_stays_relative(cs);
    lemma_components_normalized(p);
    let st = normalize_fold(cs);
    assert(normalized(p) == join_parts(st.1));
    if st.1.len() > 0 {
        lemma_join_starts(st.1);
        let n0 = st.1[0];
        assert(plain_name(n0));
        assert(normalized(p).take(n0.len() as int) == n0);
        assert(normalized(p)[0] == n0[0]);
        assert(n0[0] != '/');
    } else {
        assert(normalized(p).len() == 0);
    }
}

} // verus!
