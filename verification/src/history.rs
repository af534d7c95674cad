//! The history of visited folders: a tree of folder names in which every
//! folder remembers the child that was visited last, and a cursor that points
//! at the folder where the user currently is.
use vstd::prelude::*;
use crate::paths::{components, path_components, strings_view};
use crate::text::str_eq;

verus! {

/// One folder in the history tree: its name, its children, and which child was
/// visited last (an index into the children).
#[derive(Debug)]
pub struct HistoryTreeEntry {
    label: String,
    last_visited_child: Option<usize>,
    children: Vec<HistoryTreeEntry>,
}

impl HistoryTreeEntry {
    /// The folder name.
    pub closed spec fn label_of(self) -> Seq<char> {
        self.label@
    }

    /// The children, in the order in which they were first visited.
    pub closed spec fn children_of(self) -> Seq<HistoryTreeEntry> {
        self.children@
    }

    /// The index of the last visited child.
    pub closed spec fn last_visited_of(self) -> Option<usize> {
        self.last_visited_child
    }

    /// The name of the last visited child, if there is one.
    pub open spec fn last_visited_label_of(self) -> Option<Seq<char>> {
        match self.last_visited_of() {
            Some(i) => if i < self.children_of().len() {
                Some(self.children_of()[i as int].label_of())
            } else {
                None
            },
            None => None,
        }
    }

    /// Every `last_visited_child` in this subtree points at a child.
    pub closed spec fn wf(self) -> bool {
        forall|path: Seq<usize>|
            #![trigger entry_at(self, path)]
            valid_path(self, path) ==> last_visited_ok(entry_at(self, path))
    }

    /// A folder with the given name, no children and no last visited child.
    pub fn new(label: &str) -> (e: Self)
        ensures
            e.label_of() == label@,
            e.children_of().len() == 0,
            e.last_visited_of() is None,
            e.wf(),
    {
        HistoryTreeEntry { label: label.to_owned(), last_visited_child: None, children: Vec::new() }
    }

    /// The name of the last visited child, if it exists.
    pub fn last_visited_child_label(&self) -> (r: Option<String>)
        ensures
            r matches Some(s) ==> self.last_visited_label_of() == Some(s@),
            r is None ==> self.last_visited_label_of() is None,
    {
        match self.last_visited_child {
            Some(i) => if i < self.children.len() {
                Some(self.children[i].label.clone())
            } else {
                None
            },
            None => None,
        }
    }

    /// The folder name.
    pub fn label(&self) -> (r: &String)
        ensures
            r@ == self.label_of(),
    {
        &self.label
    }

    /// The children, in the order in which they were first visited.
    pub fn children(&self) -> (r: &Vec<HistoryTreeEntry>)
        ensures
            r@ == self.children_of(),
    {
        &self.children
    }

    /// A folder made of its parts, as they are stored: the last visited child
    /// is given by name, and is the first child with that name; a name that no
    /// child has gives no last visited child.
    pub fn from_parts(label: String, last_visited_child: Option<String>, children: Vec<HistoryTreeEntry>) -> (e: Self)
        requires
            forall|i: int| 0 <= i < children@.len() ==> #[trigger] children@[i].wf(),
        ensures
            e.label_of() == label@,
            e.children_of() == children@,
            e.wf(),
            last_visited_child is None ==> e.last_visited_of() is None,
            last_visited_child matches Some(l) ==> match e.last_visited_of() {
                Some(i) => i < children@.len() && children@[i as int].label_of() == l@
                    && forall|j: int| 0 <= j < i ==> #[trigger] children@[j].label_of() != l@,
                None => forall|j: int| 0 <= j < children@.len() ==> #[trigger] children@[j].label_of() != l@,
            },
    {
        let lvc = match &last_visited_child {
            Some(l) => {
                let mut found: Option<usize> = None;
                let mut i: usize = 0;
                while i < children.len()
                    invariant_except_break
                        found is None,
                    invariant
                        0 <= i <= children@.len(),
                        forall|j: int| 0 <= j < i ==> #[trigger] children@[j].label_of() != l@,
                    ensures
                        found matches Some(k) ==> k < children@.len() && children@[k as int].label_of() == l@
                            && forall|j: int| 0 <= j < k ==> #[trigger] children@[j].label_of() != l@,
                        found is None ==> forall|j: int| 0 <= j < children@.len() ==> #[trigger] children@[j].label_of() != l@,
                    decreases children@.len() - i,
                {
                    if str_eq(children[i].label.as_str(), l.as_str()) {
                        found = Some(i);
                        break;
                    }
                    i = i + 1;
                }
                found
            },
            None => None,
        };
        let e = HistoryTreeEntry { label, last_visited_child: lvc, children };
        proof {
            lemma_wf_from_children(e);
        }
        e
    }
}

/// The last visited child, if any, is one of the children.
pub open spec fn last_visited_ok(e: HistoryTreeEntry) -> bool {
    e.last_visited_of() matches Some(i) ==> i < e.children_of().len()
}

/// The children of a well-formed entry are well formed.
pub proof fn lemma_wf_child(e: HistoryTreeEntry, i: usize)
    requires
        e.wf(),
        i < e.children_of().len(),
    ensures
        e.children_of()[i as int].wf(),
        last_visited_ok(e),
{
    let child = e.children_of()[i as int];
    assert(valid_path(e, Seq::<usize>::empty()));
    assert(entry_at(e, Seq::<usize>::empty()) == e);
    assert forall|p: Seq<usize>| valid_path(child, p) implies #[trigger] last_visited_ok(
        entry_at(child, p),
    ) by {
        let q = seq![i] + p;
        assert(q.drop_first() == p);
        assert(valid_path(e, q));
        assert(entry_at(e, q) == entry_at(child, p));
    }
}

/// An entry whose own last visited child is fine and whose children are well
/// formed is well formed.
pub proof fn lemma_wf_from_children(e: HistoryTreeEntry)
    requires
        last_visited_ok(e),
        forall|i: int| 0 <= i < e.children_of().len() ==> #[trigger] e.children_of()[i].wf(),
    ensures
        e.wf(),
{
    assert forall|p: Seq<usize>| valid_path(e, p) implies #[trigger] last_visited_ok(
        entry_at(e, p),
    ) by {
        if p.len() > 0 {
            let child = e.children_of()[p[0] as int];
            assert(child.wf());
            assert(valid_path(child, p.drop_first()));
            assert(last_visited_ok(entry_at(child, p.drop_first())));
        }
    }
}

/// The entry reached from `e` by following the child indices in `path`; the
/// walk stops at an index that has no child.
pub open spec fn entry_at(e: HistoryTreeEntry, path: Seq<usize>) -> HistoryTreeEntry
    decreases path.len(),
{
    if path.len() == 0 {
        e
    } else if path[0] < e.children_of().len() {
        entry_at(e.children_of()[path[0] as int], path.drop_first())
    } else {
        e
    }
}

/// Every index in `path` names a child.
pub open spec fn valid_path(e: HistoryTreeEntry, path: Seq<usize>) -> bool
    decreases path.len(),
{
    path.len() == 0 || (path[0] < e.children_of().len() && valid_path(
        e.children_of()[path[0] as int],
        path.drop_first(),
    ))
}

/// The names met on the way from `e` along `path`, starting with the name of `e`.
pub open spec fn labels_along(e: HistoryTreeEntry, path: Seq<usize>) -> Seq<Seq<char>>
    decreases path.len(),
{
    if path.len() == 0 {
        seq![e.label_of()]
    } else if path[0] < e.children_of().len() {
        seq![e.label_of()] + labels_along(e.children_of()[path[0] as int], path.drop_first())
    } else {
        seq![e.label_of()]
    }
}

/// `new` is `old` with only the entry at `path` changed, and that entry
/// changed by visiting its child named `f` (see [`visit_step`]).
pub open spec fn visited_along(old: HistoryTreeEntry, new: HistoryTreeEntry, path: Seq<usize>, f: Seq<char>) -> bool
    decreases path.len(),
{
    if path.len() == 0 {
        visit_step(old, new, f)
    } else {
        &&& new.label_of() == old.label_of()
        &&& new.last_visited_of() == old.last_visited_of()
        &&& new.children_of().len() == old.children_of().len()
        &&& path[0] < old.children_of().len()
        &&& forall|i: int|
            0 <= i < old.children_of().len() && i != path[0] ==> new.children_of()[i]
                == old.children_of()[i]
        &&& visited_along(
            old.children_of()[path[0] as int],
            new.children_of()[path[0] as int],
            path.drop_first(),
            f,
        )
    }
}

/// What visiting the child named `f` does to a folder: the first child with
/// that name (or a new child with that name, added last, if there was none)
/// becomes the last visited child.
pub open spec fn visit_step(old: HistoryTreeEntry, new: HistoryTreeEntry, f: Seq<char>) -> bool {
    &&& new.label_of() == old.label_of()
    &&& new.last_visited_of() matches Some(idx) && {
        &&& forall|j: int| 0 <= j < idx ==> #[trigger] old.children_of()[j].label_of() != f
        &&& if idx < old.children_of().len() {
            &&& old.children_of()[idx as int].label_of() == f
            &&& new.children_of() == old.children_of()
        } else {
            &&& idx == old.children_of().len()
            &&& new.children_of().drop_last() == old.children_of()
            &&& new.children_of().len() == old.children_of().len() + 1
            &&& new.children_of()[idx as int].label_of() == f
            &&& new.children_of()[idx as int].children_of().len() == 0
            &&& new.children_of()[idx as int].last_visited_of() is None
        }
    }
}

/// The history: the tree of visited folders, and the position of the current
/// folder as a path of child indices from the root.
#[derive(Debug)]
pub struct HistoryTree {
    root: HistoryTreeEntry,
    current: Vec<usize>,
}

impl HistoryTree {
    /// The root folder.
    pub closed spec fn root_of(self) -> HistoryTreeEntry {
        self.root
    }

    /// The child indices that lead from the root to the current folder.
    pub closed spec fn current_path_of(self) -> Seq<usize> {
        self.current@
    }

    /// The current folder.
    pub open spec fn current_of(self) -> HistoryTreeEntry {
        entry_at(self.root_of(), self.current_path_of())
    }

    /// The names from the root to the current folder.
    pub open spec fn current_labels_of(self) -> Seq<Seq<char>> {
        labels_along(self.root_of(), self.current_path_of())
    }

    /// The tree is well formed and the current folder is in it.
    pub open spec fn wf(self) -> bool {
        self.root_of().wf() && valid_path(self.root_of(), self.current_path_of())
    }
}


/// Following the last visited children from `e` gives `path`.
pub open spec fn follows_last_visited(e: HistoryTreeEntry, path: Seq<usize>) -> bool {
    forall|k: int|
        #![trigger path[k]]
        0 <= k < path.len() ==> entry_at(e, path.take(k)).last_visited_of() == Some(path[k])
}

/// Walking one more step along a path.
pub proof fn lemma_path_push(e: HistoryTreeEntry, path: Seq<usize>, k: usize)
    requires
        valid_path(e, path),
        k < entry_at(e, path).children_of().len(),
    ensures
        valid_path(e, path.push(k)),
        entry_at(e, path.push(k)) == entry_at(e, path).children_of()[k as int],
        labels_along(e, path.push(k)) == labels_along(e, path).push(
            entry_at(e, path).children_of()[k as int].label_of(),
        ),
    decreases path.len(),
{
    if path.len() > 0 {
        let c = e.children_of()[path[0] as int];
        assert(path.push(k).drop_first() == path.drop_first().push(k));
        assert(path.push(k)[0] == path[0]);
        lemma_path_push(c, path.drop_first(), k);
        assert(labels_along(e, path.push(k)) == seq![e.label_of()] + labels_along(c, path.drop_first().push(k)));
        let tail = path.drop_first();
        let lbl = entry_at(c, tail).children_of()[k as int].label_of();
        assert(seq![e.label_of()] + labels_along(c, tail).push(lbl) == (seq![e.label_of()]
            + labels_along(c, tail)).push(lbl));
    } else {
        let q = path.push(k);
        assert(q.drop_first() =~= Seq::<usize>::empty());
        assert(q[0] == k);
        let c = e.children_of()[k as int];
        assert(valid_path(c, q.drop_first()));
        assert(entry_at(c, q.drop_first()) == c);
        assert(labels_along(c, q.drop_first()) == seq![c.label_of()]);
    }
}

/// A prefix of a valid path is valid.
pub proof fn lemma_path_prefix(e: HistoryTreeEntry, path: Seq<usize>, k: int)
    requires
        valid_path(e, path),
        0 <= k <= path.len(),
    ensures
        valid_path(e, path.take(k)),
    decreases path.len(),
{
    if k > 0 {
        let c = e.children_of()[path[0] as int];
        assert(path.take(k).drop_first() == path.drop_first().take(k - 1));
        lemma_path_prefix(c, path.drop_first(), k - 1);
    }
}

/// Visiting at the end of `path` leaves the entries above it with their names
/// and last visited children, and leaves the path valid.
pub proof fn lemma_visited_prefix(old: HistoryTreeEntry, new: HistoryTreeEntry, path: Seq<usize>, f: Seq<char>, k: int)
    requires
        visited_along(old, new, path, f),
        0 <= k < path.len(),
    ensures
        entry_at(new, path.take(k)).last_visited_of() == entry_at(old, path.take(k)).last_visited_of(),
    decreases path.len(),
{
    if k > 0 {
        let c = old.children_of()[path[0] as int];
        let nc = new.children_of()[path[0] as int];
        assert(path.take(k).drop_first() == path.drop_first().take(k - 1));
        lemma_visited_prefix(c, nc, path.drop_first(), f, k - 1);
    } else {
        assert(path.take(0).len() == 0);
    }
}

/// At the end of `path`, the entry was changed by the visit; the names along
/// `path` are unchanged.
pub proof fn lemma_visited_target(old: HistoryTreeEntry, new: HistoryTreeEntry, path: Seq<usize>, f: Seq<char>)
    requires
        visited_along(old, new, path, f),
    ensures
        visit_step(entry_at(old, path), entry_at(new, path), f),
        valid_path(old, path),
        valid_path(new, path),
        labels_along(new, path) == labels_along(old, path),
        new.label_of() == old.label_of(),
    decreases path.len(),
{
    if path.len() > 0 {
        let c = old.children_of()[path[0] as int];
        let nc = new.children_of()[path[0] as int];
        lemma_visited_target(c, nc, path.drop_first(), f);
    }
}


/// Visits the child named `fname` of the entry at the end of
/// `path[start..]`, and returns the index of that child.
fn visit_at(node: &mut HistoryTreeEntry, path: &Vec<usize>, start: usize, fname: &str) -> (idx: usize)
    requires
        old(node).wf(),
        start <= path@.len(),
        valid_path(*old(node), path@.subrange(start as int, path@.len() as int)),
    ensures
        final(node).wf(),
        visited_along(*old(node), *final(node), path@.subrange(start as int, path@.len() as int), fname@),
        entry_at(*final(node), path@.subrange(start as int, path@.len() as int)).last_visited_of() == Some(idx),
    decreases path@.len() - start,
{
    let ghost sub = path@.subrange(start as int, path@.len() as int);
    let ghost old_node = *node;
    if start == path.len() {
        assert(sub.len() == 0);
        let mut found: Option<usize> = None;
        let mut i: usize = 0;
        while i < node.children.len()
            invariant_except_break
                found is None,
            invariant
                0 <= i <= node.children@.len(),
                forall|j: int| 0 <= j < i ==> #[trigger] node.children@[j].label@ != fname@,
            ensures
                found matches Some(k) ==> k < node.children@.len() && node.children@[k as int].label@ == fname@
                    && forall|j: int| 0 <= j < k ==> #[trigger] node.children@[j].label@ != fname@,
                found is None ==> forall|j: int| 0 <= j < node.children@.len() ==> #[trigger] node.children@[j].label@ != fname@,
            decreases node.children@.len() - i,
        {
            if str_eq(node.children[i].label.as_str(), fname) {
                found = Some(i);
                break;
            }
            i = i + 1;
        }
        proof {
            assert(node.children@.len() == node.children.len());
            assert forall|j: int| 0 <= j < node.children@.len() implies #[trigger] node.children@[j].wf() by {
                lemma_wf_child(*node, j as usize);
            }
        }
        let idx = match found {
            Some(k) => k,
            None => {
                let leaf = HistoryTreeEntry::new(fname);
                node.children.push(leaf);
                node.children.len() - 1
            },
        };
        node.last_visited_child = Some(idx);
        proof {
            assert(forall|j: int| 0 <= j < node.children@.len() ==> #[trigger] node.children@[j].wf());
            lemma_wf_from_children(*node);
            if found is None {
                assert(node.children@.drop_last() == old_node.children@);
            }
        }
        idx
    } else {
        let c = path[start];
        proof {
            assert(sub[0] == c);
            assert(sub.drop_first() == path@.subrange(start + 1, path@.len() as int));
            lemma_wf_child(*node, c);
        }
        let idx = visit_at(&mut node.children[c], path, start + 1, fname);
        proof {
            assert(node.children@.len() == node.children.len());
            assert forall|j: int| 0 <= j < node.children@.len() implies #[trigger] node.children@[j].wf() by {
                if j != c {
                    lemma_wf_child(old_node, j as usize);
                }
            }
            lemma_wf_from_children(*node);
        }
        idx
    }
}

/// The names of the components that [`HistoryTree::change_dir`] visits: all
/// components but the first (the root, for an absolute path).
pub open spec fn visited_names(p: Seq<char>) -> Seq<Seq<char>> {
    if components(p).len() == 0 {
        Seq::empty()
    } else {
        components(p).drop_first()
    }
}

/// `after` is `before` after visiting the child named `f` of the current
/// folder: only the current folder changed (see [`visit_step`]), and the
/// visited child is the new current folder.
pub open spec fn visited(before: HistoryTree, after: HistoryTree, f: Seq<char>) -> bool {
    &&& visited_along(before.root_of(), after.root_of(), before.current_path_of(), f)
    &&& after.current_path_of().len() == before.current_path_of().len() + 1
    &&& after.current_path_of().drop_last() == before.current_path_of()
    &&& after.current_path_of().last() == before.current_of_in(after).last_visited_of().unwrap()
}

/// `after` is `before` after going up one folder: the tree is unchanged and the
/// current folder is the parent, or stays the root.
pub open spec fn went_up(before: HistoryTree, after: HistoryTree) -> bool {
    &&& after.root_of() == before.root_of()
    &&& if before.current_path_of().len() > 0 {
        after.current_path_of() == before.current_path_of().drop_last()
    } else {
        after.current_path_of() == before.current_path_of()
    }
}

/// `after` is `before` after going to the root and then visiting each of
/// `names` in turn: with no names, the tree is unchanged and the root is the
/// current folder; else `after` is the visit of the last name from the tree
/// reached with the others.
pub open spec fn visited_chain(before: HistoryTree, after: HistoryTree, names: Seq<Seq<char>>) -> bool
    decreases names.len(),
{
    if names.len() == 0 {
        &&& after.root_of() == before.root_of()
        &&& after.current_path_of().len() == 0
    } else {
        exists|mid: HistoryTree|
            #![trigger visited(mid, after, names.last())]
            visited_chain(before, mid, names.drop_last()) && visited(mid, after, names.last())
    }
}

/// Visiting one more name extends a chain of visits.
pub proof fn lemma_chain_push(before: HistoryTree, mid: HistoryTree, after: HistoryTree, names: Seq<Seq<char>>, f: Seq<char>)
    requires
        visited_chain(before, mid, names),
        visited(mid, after, f),
    ensures
        visited_chain(before, after, names.push(f)),
{
    let all = names.push(f);
    assert(all.drop_last() == names);
    assert(all.last() == f);
    assert(all.len() > 0);
    assert(visited_chain(before, mid, all.drop_last()) && visited(mid, after, all.last()));
}

/// A tree with only a root named `/`, which is the current folder.
pub open spec fn lone_root(t: HistoryTree) -> bool {
    &&& t.root_of().label_of() == seq!['/']
    &&& t.root_of().children_of().len() == 0
    &&& t.root_of().last_visited_of() is None
    &&& t.current_path_of().len() == 0
}

impl HistoryTree {
    /// The entry of `later`'s tree at the place of `self`'s current folder.
    pub open spec fn current_of_in(self, later: HistoryTree) -> HistoryTreeEntry {
        entry_at(later.root_of(), self.current_path_of())
    }
}

impl HistoryTree {
    /// The current folder.
    pub fn current_entry(&self) -> (e: &HistoryTreeEntry)
        ensures
            *e == self.current_of(),
    {
        let mut node = &self.root;
        let mut i: usize = 0;
        assert(self.current@.subrange(0, self.current@.len() as int) == self.current@);
        while i < self.current.len()
            invariant
                0 <= i <= self.current@.len(),
                entry_at(self.root, self.current@) == entry_at(*node, self.current@.subrange(i as int, self.current@.len() as int)),
            decreases self.current@.len() - i,
        {
            let ghost sub = self.current@.subrange(i as int, self.current@.len() as int);
            assert(sub[0] == self.current@[i as int]);
            assert(sub.drop_first() == self.current@.subrange(i + 1, self.current@.len() as int));
            let c = self.current[i];
            if c < node.children.len() {
                node = &node.children[c];
            } else {
                return node;
            }
            i = i + 1;
        }
        assert(self.current@.subrange(i as int, self.current@.len() as int).len() == 0);
        node
    }

    /// Visits the child named `fname` of the current folder (creating it if
    /// it is not in the tree yet), which becomes the current folder and the last
    /// visited child of its parent.
    pub fn visit(&mut self, fname: &str)
        requires
            old(self).wf(),
        ensures
            final(self).wf(),
            visited(*old(self), *final(self), fname@),
            final(self).current_labels_of() == old(self).current_labels_of().push(fname@),
            final(self).current_of().label_of() == fname@,
            follows_last_visited(old(self).root_of(), old(self).current_path_of())
                ==> follows_last_visited(final(self).root_of(), final(self).current_path_of()),
    {
        let ghost old_root = self.root;
        let ghost path = self.current@;
        assert(path.subrange(0, path.len() as int) == path);
        let idx = visit_at(&mut self.root, &self.current, 0, fname);
        proof {
            lemma_visited_target(old_root, self.root, path, fname@);
            lemma_path_push(self.root, path, idx);
        }
        self.current.push(idx);
        proof {
            assert(self.current@ == path.push(idx));
            assert(self.current@.drop_last() == path);
            if follows_last_visited(old_root, path) {
                assert forall|k: int| 0 <= k < self.current@.len() implies #[trigger] entry_at(self.root, self.current@.take(k)).last_visited_of() == Some(self.current@[k]) by {
                    if k < path.len() {
                        assert(self.current@.take(k) == path.take(k));
                        assert(path[k] == self.current@[k]);
                        lemma_visited_prefix(old_root, self.root, path, fname@, k);
                    } else {
                        assert(self.current@.take(k) == path);
                    }
                }
            }
        }
    }

    /// Makes the parent of the current folder the current folder; at the root
    /// nothing changes.
    pub fn go_up(&mut self)
        requires
            old(self).wf(),
        ensures
            final(self).wf(),
            went_up(*old(self), *final(self)),
            follows_last_visited(old(self).root_of(), old(self).current_path_of())
                ==> follows_last_visited(final(self).root_of(), final(self).current_path_of()),
    {
        let ghost path = self.current@;
        if self.current.len() > 0 {
            self.current.pop();
            proof {
                assert(self.current@ == path.take(path.len() - 1));
                lemma_path_prefix(self.root, path, path.len() - 1);
                assert forall|k: int| 0 <= k < self.current@.len() implies #[trigger] self.current@.take(k) == path.take(k) by {}
            }
        }
    }

    /// Makes the root the current folder.
    pub fn go_to_root(&mut self)
        requires
            old(self).wf(),
        ensures
            final(self).wf(),
            final(self).root_of() == old(self).root_of(),
            final(self).current_path_of().len() == 0,
            follows_last_visited(final(self).root_of(), final(self).current_path_of()),
    {
        self.current = Vec::new();
    }

    /// Visits, from the root, every component of `abs_path` but the first (the
    /// root, for an absolute path).
    pub fn change_dir(&mut self, abs_path: &str)
        requires
            old(self).wf(),
        ensures
            final(self).wf(),
            final(self).current_labels_of() == seq![old(self).root_of().label_of()] + visited_names(abs_path@),
            final(self).root_of().label_of() == old(self).root_of().label_of(),
            follows_last_visited(final(self).root_of(), final(self).current_path_of()),
            visited_chain(*old(self), *final(self), visited_names(abs_path@)),
    {
        let ghost start = *self;
        self.go_to_root();
        let comps = path_components(abs_path);
        let ghost names = visited_names(abs_path@);
        let ghost root_label = self.root.label@;
        let mut i: usize = 1;
        assert(self.current@.len() == 0);
        while i < comps.len()
            invariant
                1 <= i,
                comps@.len() == 0 || i <= comps@.len(),
                strings_view(comps@) == components(abs_path@),
                names == visited_names(abs_path@),
                self.wf(),
                self.root.label@ == root_label,
                comps@.len() > 0 ==> self.current_labels_of() == seq![root_label] + names.take(i - 1),
                comps@.len() == 0 ==> self.current_labels_of() == seq![root_label],
                follows_last_visited(self.root, self.current@),
                comps@.len() > 0 ==> visited_chain(start, *self, names.take(i - 1)),
                comps@.len() == 0 ==> visited_chain(start, *self, names),
            decreases comps@.len() - i,
        {
            let ghost mid = *self;
            self.visit(comps[i].as_str());
            proof {
                let done = names.take(i as int);
                assert(done == names.take(i - 1).push(comps@[i as int]@));
                assert(done.len() == i);
                lemma_chain_push(start, mid, *self, names.take(i - 1), comps@[i as int]@);
            }
            i = i + 1;
        }
        proof {
            if comps@.len() > 0 {
                assert(names.take(comps@.len() - 1) == names);
            } else {
                assert(names.len() == 0);
                assert(seq![root_label] + names == seq![root_label]);
            }
        }
    }
}


impl HistoryTree {
    /// A tree with only a root, named `/`, which is the current folder; then
    /// every component of `path` after the root is visited in turn.
    pub fn from_abs_path(path: &str) -> (t: Self)
        ensures
            t.wf(),
            t.root_of().label_of() == seq!['/'],
            t.current_labels_of() == seq![seq!['/']] + visited_names(path@),
            follows_last_visited(t.root_of(), t.current_path_of()),
            exists|start: HistoryTree| #[trigger] lone_root(start) && visited_chain(start, t, visited_names(path@)),
    {
        let root = HistoryTreeEntry::new("/");
        proof {
            reveal_strlit("/");
        }
        let mut t = HistoryTree { root, current: Vec::new() };
        proof {
            lemma_wf_from_children(t.root);
        }
        let ghost start = t;
        assert(start.root_of().label_of() =~= seq!['/']);
        assert(lone_root(start));
        t.change_dir(path);
        t
    }

    /// A tree read back from its root; the root is the current folder.
    pub fn from_root(root: HistoryTreeEntry) -> (t: Self)
        requires
            root.wf(),
        ensures
            t.wf(),
            t.root_of() == root,
            t.current_path_of().len() == 0,
    {
        HistoryTree { root, current: Vec::new() }
    }

    /// The root folder.
    pub fn root(&self) -> (r: &HistoryTreeEntry)
        ensures
            *r == self.root_of(),
    {
        &self.root
    }

    /// The entry reached after the first `n` steps towards the current folder.
    fn walk(&self, n: usize) -> (e: &HistoryTreeEntry)
        requires
            n <= self.current_path_of().len(),
        ensures
            *e == entry_at(self.root_of(), self.current_path_of().take(n as int)),
    {
        let ghost target = self.current@.take(n as int);
        let mut node = &self.root;
        let mut i: usize = 0;
        assert(target.subrange(0, target.len() as int) == target);
        while i < n
            invariant
                0 <= i <= n,
                n <= self.current@.len(),
                target == self.current@.take(n as int),
                entry_at(self.root, target) == entry_at(*node, target.subrange(i as int, target.len() as int)),
            decreases n - i,
        {
            let ghost sub = target.subrange(i as int, target.len() as int);
            assert(sub[0] == self.current@[i as int]);
            assert(sub.drop_first() == target.subrange(i + 1, target.len() as int));
            let c = self.current[i];
            if c < node.children.len() {
                node = &node.children[c];
            } else {
                return node;
            }
            i = i + 1;
        }
        assert(target.subrange(i as int, target.len() as int).len() == 0);
        node
    }

    /// The parent of the current folder; none at the root.
    pub fn parent_entry(&self) -> (e: Option<&HistoryTreeEntry>)
        ensures
            self.current_path_of().len() == 0 ==> e is None,
            self.current_path_of().len() > 0 ==> (e matches Some(p) && *p == entry_at(
                self.root_of(),
                self.current_path_of().drop_last(),
            )),
    {
        if self.current.len() == 0 {
            None
        } else {
            let n = self.current.len() - 1;
            assert(self.current@.take(n as int) == self.current@.drop_last());
            Some(self.walk(n))
        }
    }

    /// The names from the root to the current folder.
    pub fn current_path_labels(&self) -> (r: Vec<String>)
        requires
            self.wf(),
        ensures
            strings_view(r@) == self.current_labels_of(),
    {
        let mut out: Vec<String> = Vec::new();
        let mut node = &self.root;
        let mut i: usize = 0;
        let ghost path = self.current@;
        assert(path.subrange(0, path.len() as int) == path);
        out.push(node.label.clone());
        assert(strings_view(out@) =~= seq![self.root.label@]);
        while i < self.current.len()
            invariant
                0 <= i <= path.len(),
                path == self.current@,
                valid_path(*node, path.subrange(i as int, path.len() as int)),
                labels_along(self.root, path) == strings_view(out@).drop_last() + labels_along(*node, path.subrange(i as int, path.len() as int)),
                strings_view(out@).len() > 0,
                strings_view(out@).last() == node.label@,
            decreases path.len() - i,
        {
            let ghost sub = path.subrange(i as int, path.len() as int);
            let ghost prev_out = strings_view(out@);
            assert(sub[0] == path[i as int]);
            assert(sub.drop_first() == path.subrange(i + 1, path.len() as int));
            let c = self.current[i];
            node = &node.children[c];
            proof {
                crate::paths::lemma_strings_view_push(out@, node.label);
            }
            out.push(node.label.clone());
            proof {
                let rest = labels_along(*node, path.subrange(i + 1, path.len() as int));
                assert(labels_along(self.root, path) == prev_out.drop_last() + (seq![prev_out.last()] + rest));
                assert(strings_view(out@).drop_last() == prev_out);
                assert(prev_out.drop_last() + (seq![prev_out.last()] + rest) == prev_out + rest) by {
                    assert(prev_out == prev_out.drop_last().push(prev_out.last()));
                }
                assert(rest[0] == node.label@);
                assert(rest == seq![rest[0]] + rest.drop_first());
            }
            i = i + 1;
        }
        proof {
            let rest = labels_along(*node, path.subrange(i as int, path.len() as int));
            assert(path.subrange(i as int, path.len() as int).len() == 0);
            assert(rest == seq![node.label@]);
            assert(strings_view(out@) == strings_view(out@).drop_last().push(node.label@));
        }
        out
    }
}

/// Visiting a child and then going up returns to the folder where the visit
/// started, with the same names from the root, and that folder now remembers
/// the visited child as its last visited one.
pub proof fn law_visit_then_go_up(before: HistoryTree, mid: HistoryTree, after: HistoryTree, f: Seq<char>)
    requires
        before.wf(),
        visited(before, mid, f),
        went_up(mid, after),
    ensures
        after.current_path_of() == before.current_path_of(),
        after.current_labels_of() == before.current_labels_of(),
        after.current_of().last_visited_label_of() == Some(f),
{
    let path = before.current_path_of();
    lemma_visited_target(before.root_of(), mid.root_of(), path, f);
}

/// Going up from the root changes nothing.
pub proof fn law_go_up_at_root(before: HistoryTree, after: HistoryTree)
    requires
        went_up(before, after),
        before.current_path_of().len() == 0,
    ensures
        after.root_of() == before.root_of(),
        after.current_path_of() == before.current_path_of(),
{
}

/// Visiting the same child again from the same folder reuses the entry made by
/// the first visit: the folder keeps the same children, and the same child
/// becomes current again.
pub proof fn law_revisit_reuses_entry(t0: HistoryTree, t1: HistoryTree, t2: HistoryTree, t3: HistoryTree, f: Seq<char>)
    requires
        t0.wf(),
        visited(t0, t1, f),
        went_up(t1, t2),
        visited(t2, t3, f),
    ensures
        t3.current_path_of() == t1.current_path_of(),
        entry_at(t3.root_of(), t0.current_path_of()).children_of() == entry_at(t1.root_of(), t0.current_path_of()).children_of(),
{
    let path = t0.current_path_of();
    lemma_visited_target(t0.root_of(), t1.root_of(), path, f);
    assert(t2.current_path_of() == path);
    lemma_visited_target(t2.root_of(), t3.root_of(), path, f);
    let e0 = entry_at(t0.root_of(), path);
    let e1 = entry_at(t1.root_of(), path);
    let e3 = entry_at(t3.root_of(), path);
    let idx1 = e1.last_visited_of().unwrap();
    let idx3 = e3.last_visited_of().unwrap();
    assert(e1.children_of()[idx1 as int].label_of() == f);
    assert forall|j: int| 0 <= j < idx1 implies #[trigger] e1.children_of()[j].label_of() != f by {
        assert(e0.children_of()[j].label_of() != f);
        if idx1 < e0.children_of().len() {
        } else {
            assert(e1.children_of().drop_last()[j] == e1.children_of()[j]);
        }
    }
    if idx3 < idx1 {
        assert(e1.children_of()[idx3 as int].label_of() != f);
    }
    if idx1 < idx3 {
        assert(e1.children_of()[idx1 as int].label_of() != f);
    }
    assert(idx3 == idx1);
    assert(t3.current_path_of() == path.push(idx3));
    assert(t1.current_path_of() == path.push(idx1));
}

} // verus!
