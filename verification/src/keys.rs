//! Key combinations and the mapping from keys (in a context) to actions.
use vstd::prelude::*;
use crate::action::{Action, ActionContext, action_named, context_named};
use crate::error::TereError;
use crate::paths::split_on;
use crate::text::{append_chars, chars_of, split_chars, string_from_chars, vecs_view};
use vstd::string::StringExecFns;

verus! {

/// A key combination, identified by how crokey writes it (for example
/// `Ctrl-x`), and whether it has modifier keys.
#[derive(Debug, Clone, PartialEq, Eq)]
pub struct KeyId {
    pub name: String,
    pub has_modifiers: bool,
}

/// The plain values that identify a key combination.
pub open spec fn key_view(k: KeyId) -> (Seq<char>, bool) {
    (k.name@, k.has_modifiers)
}

/// What `crokey::parse` gives for a text: the combination as crokey's default
/// format writes it and whether it has modifiers, or the text of the error.
pub uninterp spec fn crokey_parse_result(raw: Seq<char>) -> Result<(Seq<char>, bool), Seq<char>>;

/// Reads a key combination such as `ctrl-x` with `crokey::parse`. On success
/// the combination is taken as the key event of its first key (as a keymap
/// of key events holds it), and that event is written back with crokey's
/// default format, together with whether it has modifiers; on failure the
/// error is written out. Nothing is claimed of either text beyond that it is
/// what crokey gives for `raw`. Keys that the format writes alike get the
/// same name: the character `\r` and Enter are both written `Enter`.
#[verifier::external_body]
pub(crate) fn parse_key(raw: &str) -> (r: Result<KeyId, String>)
    ensures
        crokey_parse_result(raw@) == match r {
            Ok(k) => Ok::<(Seq<char>, bool), Seq<char>>(key_view(k)),
            Err(e) => Err::<(Seq<char>, bool), Seq<char>>(e@),
        },
{
    match crokey::parse(raw) {
        Ok(k) => {
            let first: crokey::crossterm::event::KeyEvent = k.into();
            let k = crokey::KeyCombination::from(first);
            Ok(KeyId {
                name: crokey::KeyCombinationFormat::default().to_string(k),
                has_modifiers: !k.modifiers.is_empty(),
            })
        },
        Err(e) => Err(e.to_string()),
    }
}

/// Whether two keys are the same combination.
pub fn same_key(a: &KeyId, b: &KeyId) -> (r: bool)
    ensures
        r == (key_view(*a) == key_view(*b)),
{
    a.has_modifiers == b.has_modifiers && crate::text::str_eq(a.name.as_str(), b.name.as_str())
}

/// One key mapping: a key, the context in which it applies, and its action.
pub type KeyMapping = (KeyId, ActionContext, Action);

/// The plain values of a key mapping.
pub open spec fn mapping_view(m: KeyMapping) -> ((Seq<char>, bool), ActionContext, Action) {
    (key_view(m.0), m.1, m.2)
}

/// The plain values of a list of key mappings.
pub open spec fn mappings_view(ms: Seq<KeyMapping>) -> Seq<((Seq<char>, bool), ActionContext, Action)> {
    ms.map_values(|m: KeyMapping| mapping_view(m))
}

/// The message for an empty mapping in `arg`.
pub open spec fn empty_mapping_message(arg: Seq<char>) -> Seq<char> {
    "Invalid mapping: '"@ + arg + "'\n"@
}

/// The message for a key combination that crokey cannot read.
pub open spec fn bad_key_message(mapping: Seq<char>, err: Seq<char>) -> Seq<char> {
    "Error parsing key combination '"@ + mapping + "': "@ + err + "\n"@
}

/// The message for an unknown action or context name.
pub open spec fn bad_name_message(mapping: Seq<char>, what: Seq<char>, name: Seq<char>) -> Seq<char> {
    "Error parsing key mapping '"@ + mapping + "': invalid "@ + what + " '"@ + name + "'\n"@
}

/// The message for a mapping with the wrong number of parts.
pub open spec fn bad_form_message(mapping: Seq<char>) -> Seq<char> {
    "Keyboard mapping is not of the form 'key-combination:action' or 'key-combination:context:action': '"@
        + mapping + "'\n"@
}

/// What one mapping of the form `keys:action` or `keys:context:action`
/// gives; `arg` is the whole argument that the mapping came from.
pub open spec fn mapping_result(m: Seq<char>, arg: Seq<char>) -> Result<((Seq<char>, bool), ActionContext, Action), Seq<char>> {
    let parts = split_on(m, ':');
    if m.len() == 0 {
        Err(empty_mapping_message(arg))
    } else if parts.len() == 2 {
        match crokey_parse_result(parts[0]) {
            Err(e) => Err(bad_key_message(m, e)),
            Ok(k) => match action_named(parts[1]) {
                None => Err(bad_name_message(m, "action"@, parts[1])),
                Some(a) => Ok((k, ActionContext::NoContext, a)),
            },
        }
    } else if parts.len() == 3 {
        match crokey_parse_result(parts[0]) {
            Err(e) => Err(bad_key_message(m, e)),
            Ok(k) => match context_named(parts[1]) {
                None => Err(bad_name_message(m, "context"@, parts[1])),
                Some(c) => match action_named(parts[2]) {
                    None => Err(bad_name_message(m, "action"@, parts[2])),
                    Some(a) => Ok((k, c, a)),
                },
            },
        }
    } else {
        Err(bad_form_message(m))
    }
}

/// What a list of mappings gives: the first error, or all the mappings.
pub open spec fn mappings_result(ms: Seq<Seq<char>>, arg: Seq<char>) -> Result<Seq<((Seq<char>, bool), ActionContext, Action)>, Seq<char>>
    decreases ms.len(),
{
    if ms.len() == 0 {
        Ok(Seq::empty())
    } else {
        match mappings_result(ms.drop_last(), arg) {
            Err(e) => Err(e),
            Ok(v) => match mapping_result(ms.last(), arg) {
                Err(e) => Err(e),
                Ok(x) => Ok(v.push(x)),
            },
        }
    }
}

/// Reads one mapping.
fn parse_one_mapping(m: &Vec<char>, arg: &str) -> (r: Result<KeyMapping, TereError>)
    ensures
        match r {
            Ok(x) => mapping_result(m@, arg@) == Ok::<((Seq<char>, bool), ActionContext, Action), Seq<char>>(mapping_view(x)),
            Err(TereError::InvalidValue(e)) => mapping_result(m@, arg@) == Err::<((Seq<char>, bool), ActionContext, Action), Seq<char>>(e@),
            Err(_) => false,
        },
{
    let ms = string_from_chars(m.as_slice());
    if m.len() == 0 {
        let e = {
                let mut e = String::new();
                e.append("Invalid mapping: '");
                e.append(arg);
                e.append("'\n");
                e
            };
        return Err(TereError::InvalidValue(e));
    }
    let parts = split_chars(m, ':');
    if parts.len() == 2 || parts.len() == 3 {
        let keys = string_from_chars(parts[0].as_slice());
        let k = match parse_key(keys.as_str()) {
            Ok(k) => k,
            Err(err) => {
                let e = {
                let mut e = String::new();
                e.append("Error parsing key combination '");
                e.append(ms.as_str());
                e.append("': ");
                e.append(err.as_str());
                e.append("\n");
                e
            };
                return Err(TereError::InvalidValue(e));
            },
        };
        let (ctx, action_part) = if parts.len() == 2 {
            (ActionContext::NoContext, string_from_chars(parts[1].as_slice()))
        } else {
            let ctx_part = string_from_chars(parts[1].as_slice());
            match ActionContext::from_name(ctx_part.as_str()) {
                Some(c) => (c, string_from_chars(parts[2].as_slice())),
                None => {
                    let e = {
                let mut e = String::new();
                e.append("Error parsing key mapping '");
                e.append(ms.as_str());
                e.append("': invalid ");
                e.append("context");
                e.append(" '");
                e.append(ctx_part.as_str());
                e.append("'\n");
                e
            };
                    return Err(TereError::InvalidValue(e));
                },
            }
        };
        match Action::from_name(action_part.as_str()) {
            Some(a) => Ok((k, ctx, a)),
            None => {
                let e = {
                let mut e = String::new();
                e.append("Error parsing key mapping '");
                e.append(ms.as_str());
                e.append("': invalid ");
                e.append("action");
                e.append(" '");
                e.append(action_part.as_str());
                e.append("'\n");
                e
            };
                Err(TereError::InvalidValue(e))
            },
        }
    } else {
        let e = {
                let mut e = String::new();
                e.append("Keyboard mapping is not of the form 'key-combination:action' or 'key-combination:context:action': '");
                e.append(ms.as_str());
                e.append("'\n");
                e
            };
        Err(TereError::InvalidValue(e))
    }
}


/// Reads a comma-separated list of key mappings, each of the form
/// `keys:action` or `keys:context:action` (the context defaults to none).
/// The first mapping that cannot be read gives the error.
pub fn parse_keymap_arg(arg: &str) -> (r: Result<Vec<KeyMapping>, TereError>)
    ensures
        match r {
            Ok(v) => mappings_result(split_on(arg@, ','), arg@) == Ok::<Seq<((Seq<char>, bool), ActionContext, Action)>, Seq<char>>(mappings_view(v@)),
            Err(TereError::InvalidValue(e)) => mappings_result(split_on(arg@, ','), arg@) == Err::<Seq<((Seq<char>, bool), ActionContext, Action)>, Seq<char>>(e@),
            Err(_) => false,
        },
{
    let cs = chars_of(arg);
    let parts = split_chars(&cs, ',');
    let ghost ms = vecs_view(parts@);
    let mut ret: Vec<KeyMapping> = Vec::new();
    let mut i: usize = 0;
    assert(mappings_view(ret@) =~= Seq::<((Seq<char>, bool), ActionContext, Action)>::empty());
    assert(ms.take(0).len() == 0);
    while i < parts.len()
        invariant
            0 <= i <= parts@.len(),
            ms == vecs_view(parts@),
            ms == split_on(arg@, ','),
            mappings_result(ms.take(i as int), arg@) == Ok::<Seq<((Seq<char>, bool), ActionContext, Action)>, Seq<char>>(mappings_view(ret@)),
        decreases parts@.len() - i,
    {
        proof {
            assert(ms.take(i + 1).drop_last() == ms.take(i as int));
            assert(ms.take(i + 1).last() == parts@[i as int]@);
        }
        match parse_one_mapping(&parts[i], arg) {
            Ok(x) => {
                proof {
                    assert(mappings_view(ret@.push(x)) == mappings_view(ret@).push(mapping_view(x)));
                }
                ret.push(x);
            },
            Err(e) => {
                proof {
                    lemma_mappings_error_stays(ms, i as int + 1, arg@);
                    assert(ms.take(ms.len() as int) == ms);
                }
                return Err(e);
            },
        }
        i = i + 1;
    }
    assert(ms.take(parts@.len() as int) == ms);
    Ok(ret)
}


/// Once a prefix of the mappings gives an error, every longer prefix gives the
/// same error.
pub proof fn lemma_mappings_error_stays(ms: Seq<Seq<char>>, k: int, arg: Seq<char>)
    requires
        0 <= k <= ms.len(),
        mappings_result(ms.take(k), arg) is Err,
    ensures
        mappings_result(ms.take(ms.len() as int), arg) == mappings_result(ms.take(k), arg),
    decreases ms.len() - k,
{
    if k < ms.len() {
        assert(ms.take(k + 1).drop_last() == ms.take(k));
        lemma_mappings_error_stays(ms, k + 1, arg);
    }
}


/// The key and context of a mapping, which identify it in a keymap.
pub open spec fn entry_key(m: KeyMapping) -> ((Seq<char>, bool), ActionContext) {
    (key_view(m.0), m.1)
}

/// The map from keys (in a context) to actions that a list of mappings gives;
/// a later mapping for the same key and context replaces an earlier one.
pub open spec fn entries_map(es: Seq<KeyMapping>) -> Map<((Seq<char>, bool), ActionContext), Action>
    decreases es.len(),
{
    if es.len() == 0 {
        Map::empty()
    } else {
        entries_map(es.drop_last()).insert(entry_key(es.last()), es.last().2)
    }
}

/// No two mappings have the same key and context.
pub open spec fn distinct_keys(es: Seq<KeyMapping>) -> bool {
    forall|i: int, j: int|
        0 <= i < j < es.len() ==> entry_key(#[trigger] es[i]) != entry_key(#[trigger] es[j])
}

/// A key that no mapping has is not in the map.
pub proof fn lemma_entries_map_absent(es: Seq<KeyMapping>, k: ((Seq<char>, bool), ActionContext))
    requires
        forall|i: int| 0 <= i < es.len() ==> entry_key(#[trigger] es[i]) != k,
    ensures
        !entries_map(es).dom().contains(k),
    decreases es.len(),
{
    if es.len() > 0 {
        assert forall|i: int| 0 <= i < es.drop_last().len() implies entry_key(#[trigger] es.drop_last()[i]) != k by {
            assert(es.drop_last()[i] == es[i]);
        }
        lemma_entries_map_absent(es.drop_last(), k);
    }
}

/// In a list with distinct keys, each mapping is in the map.
pub proof fn lemma_entries_map_present(es: Seq<KeyMapping>, i: int)
    requires
        distinct_keys(es),
        0 <= i < es.len(),
    ensures
        entries_map(es).dom().contains(entry_key(es[i])),
        entries_map(es)[entry_key(es[i])] == es[i].2,
    decreases es.len(),
{
    if i < es.len() - 1 {
        let d = es.drop_last();
        assert(d[i] == es[i]);
        assert(distinct_keys(d)) by {
            assert forall|a: int, b: int| 0 <= a < b < d.len() implies entry_key(#[trigger] d[a]) != entry_key(#[trigger] d[b]) by {
                assert(d[a] == es[a] && d[b] == es[b]);
            }
        }
        lemma_entries_map_present(d, i);
        assert(entry_key(es[i]) != entry_key(es.last()));
    }
}

/// The size of the map is the number of mappings.
pub proof fn lemma_entries_map_len(es: Seq<KeyMapping>)
    requires
        distinct_keys(es),
    ensures
        entries_map(es).dom().finite(),
        entries_map(es).dom().len() == es.len(),
    decreases es.len(),
{
    if es.len() > 0 {
        let d = es.drop_last();
        assert(distinct_keys(d)) by {
            assert forall|a: int, b: int| 0 <= a < b < d.len() implies entry_key(#[trigger] d[a]) != entry_key(#[trigger] d[b]) by {
                assert(d[a] == es[a] && d[b] == es[b]);
            }
        }
        lemma_entries_map_len(d);
        assert forall|i: int| 0 <= i < d.len() implies entry_key(#[trigger] d[i]) != entry_key(es.last()) by {
            assert(d[i] == es[i]);
        }
        lemma_entries_map_absent(d, entry_key(es.last()));
    }
}

/// Replacing a mapping by one with the same key and context updates the map.
pub proof fn lemma_entries_map_update(es: Seq<KeyMapping>, i: int, x: KeyMapping)
    requires
        distinct_keys(es),
        0 <= i < es.len(),
        entry_key(x) == entry_key(es[i]),
    ensures
        entries_map(es.update(i, x)) == entries_map(es).insert(entry_key(x), x.2),
    decreases es.len(),
{
    let d = es.drop_last();
    if i == es.len() - 1 {
        assert(es.update(i, x).drop_last() == d);
        assert(entries_map(es.update(i, x)) =~= entries_map(es).insert(entry_key(x), x.2));
    } else {
        assert(distinct_keys(d)) by {
            assert forall|a: int, b: int| 0 <= a < b < d.len() implies entry_key(#[trigger] d[a]) != entry_key(#[trigger] d[b]) by {
                assert(d[a] == es[a] && d[b] == es[b]);
            }
        }
        assert(d[i] == es[i]);
        lemma_entries_map_update(d, i, x);
        assert(es.update(i, x).drop_last() == d.update(i, x));
        assert(es.update(i, x).last() == es.last());
        assert(entry_key(es[i]) != entry_key(es.last()));
        assert(entries_map(es.update(i, x)) =~= entries_map(es).insert(entry_key(x), x.2));
    }
}

/// Removing a mapping removes its key from the map.
pub proof fn lemma_entries_map_remove(es: Seq<KeyMapping>, i: int)
    requires
        distinct_keys(es),
        0 <= i < es.len(),
    ensures
        entries_map(es.remove(i)) == entries_map(es).remove(entry_key(es[i])),
    decreases es.len(),
{
    let d = es.drop_last();
    assert(distinct_keys(d)) by {
        assert forall|a: int, b: int| 0 <= a < b < d.len() implies entry_key(#[trigger] d[a]) != entry_key(#[trigger] d[b]) by {
            assert(d[a] == es[a] && d[b] == es[b]);
        }
    }
    if i == es.len() - 1 {
        assert(es.remove(i) == d);
        assert forall|j: int| 0 <= j < d.len() implies entry_key(#[trigger] d[j]) != entry_key(es[i]) by {
            assert(d[j] == es[j]);
        }
        lemma_entries_map_absent(d, entry_key(es[i]));
        assert(entries_map(es.remove(i)) =~= entries_map(es).remove(entry_key(es[i])));
    } else {
        assert(d[i] == es[i]);
        lemma_entries_map_remove(d, i);
        assert(es.remove(i) == d.remove(i).push(es.last()));
        assert(es.remove(i).drop_last() == d.remove(i));
        assert(entry_key(es[i]) != entry_key(es.last()));
        assert(entries_map(es.remove(i)) =~= entries_map(es).remove(entry_key(es[i])));
    }
}

/// The action of a key while searching or not: the mapping for that context
/// if there is one, else the mapping without a context.
pub open spec fn action_in(m: Map<((Seq<char>, bool), ActionContext), Action>, key: (Seq<char>, bool), searching: bool) -> Option<Action> {
    let ctx = if searching { ActionContext::Searching } else { ActionContext::NotSearching };
    if m.dom().contains((key, ctx)) {
        Some(m[(key, ctx)])
    } else if m.dom().contains((key, ActionContext::NoContext)) {
        Some(m[(key, ActionContext::NoContext)])
    } else {
        None
    }
}

/// The key mappings: at most one action for each key in each context.
#[derive(Debug)]
pub struct Keymap {
    entries: Vec<KeyMapping>,
}

impl View for Keymap {
    type V = Map<((Seq<char>, bool), ActionContext), Action>;

    closed spec fn view(&self) -> Self::V {
        entries_map(self.entries@)
    }
}

impl Keymap {
    /// No two mappings share a key and context.
    pub closed spec fn wf(self) -> bool {
        distinct_keys(self.entries@)
    }

    /// The mappings, in the order in which they were added.
    pub closed spec fn entries_of(self) -> Seq<KeyMapping> {
        self.entries@
    }

    /// A keymap without mappings.
    pub fn new() -> (m: Keymap)
        ensures
            m.wf(),
            m@ == Map::<((Seq<char>, bool), ActionContext), Action>::empty(),
    {
        Keymap { entries: Vec::new() }
    }

    /// The index of the mapping for a key and context.
    fn position(&self, key: &KeyId, ctx: ActionContext) -> (r: Option<usize>)
        ensures
            r matches Some(i) ==> i < self.entries@.len() && entry_key(self.entries@[i as int]) == (key_view(*key), ctx),
            r is None ==> forall|i: int| 0 <= i < self.entries@.len() ==> entry_key(#[trigger] self.entries@[i]) != (key_view(*key), ctx),
    {
        let mut i: usize = 0;
        while i < self.entries.len()
            invariant
                0 <= i <= self.entries@.len(),
                forall|j: int| 0 <= j < i ==> entry_key(#[trigger] self.entries@[j]) != (key_view(*key), ctx),
            decreases self.entries@.len() - i,
        {
            if same_key(&self.entries[i].0, key) && self.entries[i].1 == ctx {
                return Some(i);
            }
            i = i + 1;
        }
        None
    }

    /// The action mapped to a key in a context.
    pub fn get(&self, key: &KeyId, ctx: ActionContext) -> (r: Option<Action>)
        requires
            self.wf(),
        ensures
            r == (if self@.dom().contains((key_view(*key), ctx)) {
                Some(self@[(key_view(*key), ctx)])
            } else {
                None
            }),
    {
        match self.position(key, ctx) {
            Some(i) => {
                proof {
                    lemma_entries_map_present(self.entries@, i as int);
                }
                Some(self.entries[i].2)
            },
            None => {
                proof {
                    lemma_entries_map_absent(self.entries@, (key_view(*key), ctx));
                }
                None
            },
        }
    }

    /// The action of a key while searching or not: the mapping for that
    /// context if there is one, else the mapping without a context.
    pub fn action_for(&self, key: &KeyId, searching: bool) -> (r: Option<Action>)
        requires
            self.wf(),
        ensures
            r == action_in(self@, key_view(*key), searching),
    {
        let ctx = if searching { ActionContext::Searching } else { ActionContext::NotSearching };
        match self.get(key, ctx) {
            Some(a) => Some(a),
            None => self.get(key, ActionContext::NoContext),
        }
    }

    /// Maps a key in a context to an action, replacing any earlier action.
    pub fn insert(&mut self, key: KeyId, ctx: ActionContext, action: Action)
        requires
            old(self).wf(),
        ensures
            final(self).wf(),
            final(self)@ == old(self)@.insert((key_view(key), ctx), action),
    {
        match self.position(&key, ctx) {
            Some(i) => {
                proof {
                    lemma_entries_map_update(self.entries@, i as int, (key, ctx, action));
                }
                self.entries.set(i, (key, ctx, action));
                proof {
                    assert forall|a: int, b: int| 0 <= a < b < self.entries@.len() implies entry_key(#[trigger] self.entries@[a]) != entry_key(#[trigger] self.entries@[b]) by {
                        assert(entry_key(self.entries@[a]) == entry_key(old(self).entries@[a]));
                        assert(entry_key(self.entries@[b]) == entry_key(old(self).entries@[b]));
                    }
                }
            },
            None => {
                let ghost k = (key_view(key), ctx);
                self.entries.push((key, ctx, action));
                proof {
                    assert(self.entries@.drop_last() == old(self).entries@);
                    assert forall|a: int, b: int| 0 <= a < b < self.entries@.len() implies entry_key(#[trigger] self.entries@[a]) != entry_key(#[trigger] self.entries@[b]) by {
                        if b == self.entries@.len() - 1 {
                            assert(self.entries@[a] == old(self).entries@[a]);
                        } else {
                            assert(self.entries@[a] == old(self).entries@[a]);
                            assert(self.entries@[b] == old(self).entries@[b]);
                        }
                    }
                }
            },
        }
    }

    /// Removes the mapping of a key in a context, if there is one.
    pub fn remove(&mut self, key: &KeyId, ctx: ActionContext)
        requires
            old(self).wf(),
        ensures
            final(self).wf(),
            final(self)@ == old(self)@.remove((key_view(*key), ctx)),
    {
        match self.position(key, ctx) {
            Some(i) => {
                proof {
                    lemma_entries_map_remove(self.entries@, i as int);
                }
                self.entries.remove(i);
                proof {
                    assert forall|a: int, b: int| 0 <= a < b < self.entries@.len() implies entry_key(#[trigger] self.entries@[a]) != entry_key(#[trigger] self.entries@[b]) by {
                        let oa = if a < i { a } else { a + 1 };
                        let ob = if b < i { b } else { b + 1 };
                        assert(self.entries@[a] == old(self).entries@[oa]);
                        assert(self.entries@[b] == old(self).entries@[ob]);
                    }
                }
            },
            None => {
                proof {
                    lemma_entries_map_absent(self.entries@, (key_view(*key), ctx));
                    assert(self@ =~= old(self)@.remove((key_view(*key), ctx)));
                }
            },
        }
    }

    /// The number of mappings.
    pub fn len(&self) -> (r: usize)
        requires
            self.wf(),
        ensures
            r == self@.dom().len(),
    {
        proof {
            lemma_entries_map_len(self.entries@);
        }
        self.entries.len()
    }

    /// Whether some key is mapped to the given action.
    pub fn contains_action(&self, action: Action) -> (r: bool)
        requires
            self.wf(),
        ensures
            r == exists|k: ((Seq<char>, bool), ActionContext)| #[trigger] self@.dom().contains(k) && self@[k] == action,
    {
        let mut i: usize = 0;
        while i < self.entries.len()
            invariant
                self.wf(),
                0 <= i <= self.entries@.len(),
                forall|j: int| 0 <= j < i ==> (#[trigger] self.entries@[j]).2 != action,
            decreases self.entries@.len() - i,
        {
            if self.entries[i].2 == action {
                proof {
                    lemma_entries_map_present(self.entries@, i as int);
                }
                return true;
            }
            i = i + 1;
        }
        proof {
            assert forall|k: ((Seq<char>, bool), ActionContext)| #[trigger] self@.dom().contains(k) implies self@[k] != action by {
                lemma_entries_map_member(self.entries@, k);
            }
        }
        false
    }

    /// The mappings, in the order in which they were added.
    pub fn entries(&self) -> (r: &Vec<KeyMapping>)
        ensures
            r@ == self.entries_of(),
            self.wf() ==> distinct_keys(r@),
            entries_map(r@) == self@,
    {
        &self.entries
    }
}

/// A key in the map comes from some mapping, whose action it has.
pub proof fn lemma_entries_map_member(es: Seq<KeyMapping>, k: ((Seq<char>, bool), ActionContext))
    requires
        distinct_keys(es),
        entries_map(es).dom().contains(k),
    ensures
        exists|i: int| 0 <= i < es.len() && entry_key(#[trigger] es[i]) == k && entries_map(es)[k] == es[i].2,
{
    if forall|i: int| 0 <= i < es.len() ==> entry_key(#[trigger] es[i]) != k {
        lemma_entries_map_absent(es, k);
    }
    let i = choose|i: int| 0 <= i < es.len() && entry_key(#[trigger] es[i]) == k;
    lemma_entries_map_present(es, i);
}


/// The default key mappings, with each key combination as it is written for
/// crokey.
pub open spec fn default_keymap_text() -> Seq<(&'static str, ActionContext, Action)> {
    seq![
        ("enter", ActionContext::NoContext, Action::ChangeDir),
        ("right", ActionContext::NoContext, Action::ChangeDir),
        ("alt-down", ActionContext::NoContext, Action::ChangeDir),
        ("alt-l", ActionContext::NoContext, Action::ChangeDir),
        ("space", ActionContext::NotSearching, Action::ChangeDir),
        ("left", ActionContext::NoContext, Action::ChangeDirParent),
        ("alt-up", ActionContext::NoContext, Action::ChangeDirParent),
        ("alt-h", ActionContext::NoContext, Action::ChangeDirParent),
        ("-", ActionContext::NotSearching, Action::ChangeDirParent),
        ("backspace", ActionContext::NotSearching, Action::ChangeDirParent),
        ("~", ActionContext::NoContext, Action::ChangeDirHome),
        ("ctrl-home", ActionContext::NoContext, Action::ChangeDirHome),
        ("ctrl-alt-h", ActionContext::NoContext, Action::ChangeDirHome),
        ("/", ActionContext::NoContext, Action::ChangeDirRoot),
        ("alt-r", ActionContext::NoContext, Action::ChangeDirRoot),
        ("alt-enter", ActionContext::NoContext, Action::ChangeDirAndExit),
        ("ctrl-space", ActionContext::NoContext, Action::ChangeDirAndExit),
        ("up", ActionContext::NoContext, Action::CursorUp),
        ("alt-k", ActionContext::NoContext, Action::CursorUp),
        ("down", ActionContext::NoContext, Action::CursorDown),
        ("alt-j", ActionContext::NoContext, Action::CursorDown),
        ("pageup", ActionContext::NoContext, Action::CursorUpScreen),
        ("alt-u", ActionContext::NoContext, Action::CursorUpScreen),
        ("ctrl-u", ActionContext::NoContext, Action::CursorUpScreen),
        ("pagedown", ActionContext::NoContext, Action::CursorDownScreen),
        ("alt-d", ActionContext::NoContext, Action::CursorDownScreen),
        ("ctrl-d", ActionContext::NoContext, Action::CursorDownScreen),
        ("home", ActionContext::NoContext, Action::CursorTop),
        ("alt-g", ActionContext::NoContext, Action::CursorTop),
        ("end", ActionContext::NoContext, Action::CursorBottom),
        ("alt-shift-g", ActionContext::NoContext, Action::CursorBottom),
        ("backspace", ActionContext::Searching, Action::EraseSearchChar),
        ("esc", ActionContext::Searching, Action::ClearSearch),
        ("alt-f", ActionContext::NoContext, Action::ChangeFilterSearchMode),
        ("alt-c", ActionContext::NoContext, Action::ChangeCaseSensitiveMode),
        ("ctrl-f", ActionContext::NoContext, Action::ChangeGapSearchMode),
        ("alt-s", ActionContext::NoContext, Action::ChangeSortMode),
        ("ctrl-r", ActionContext::NoContext, Action::RefreshListing),
        ("?", ActionContext::NoContext, Action::Help),
        ("shift-?", ActionContext::NoContext, Action::Help),
        ("esc", ActionContext::NotSearching, Action::Exit),
        ("alt-q", ActionContext::NoContext, Action::Exit),
        ("ctrl-c", ActionContext::NoContext, Action::ExitWithoutCd),
    ]
}

/// The default key mappings, with each key combination as it is written for
/// crokey.
pub fn default_keymap_entries() -> (r: Vec<(&'static str, ActionContext, Action)>)
    ensures
        r@ == default_keymap_text(),
{
    let r = vec![
            ("enter", ActionContext::NoContext, Action::ChangeDir),
            ("right", ActionContext::NoContext, Action::ChangeDir),
            ("alt-down", ActionContext::NoContext, Action::ChangeDir),
            ("alt-l", ActionContext::NoContext, Action::ChangeDir),
            ("space", ActionContext::NotSearching, Action::ChangeDir),
            ("left", ActionContext::NoContext, Action::ChangeDirParent),
            ("alt-up", ActionContext::NoContext, Action::ChangeDirParent),
            ("alt-h", ActionContext::NoContext, Action::ChangeDirParent),
            ("-", ActionContext::NotSearching, Action::ChangeDirParent),
            ("backspace", ActionContext::NotSearching, Action::ChangeDirParent),
            ("~", ActionContext::NoContext, Action::ChangeDirHome),
            ("ctrl-home", ActionContext::NoContext, Action::ChangeDirHome),
            ("ctrl-alt-h", ActionContext::NoContext, Action::ChangeDirHome),
            ("/", ActionContext::NoContext, Action::ChangeDirRoot),
            ("alt-r", ActionContext::NoContext, Action::ChangeDirRoot),
            ("alt-enter", ActionContext::NoContext, Action::ChangeDirAndExit),
            ("ctrl-space", ActionContext::NoContext, Action::ChangeDirAndExit),
            ("up", ActionContext::NoContext, Action::CursorUp),
            ("alt-k", ActionContext::NoContext, Action::CursorUp),
            ("down", ActionContext::NoContext, Action::CursorDown),
            ("alt-j", ActionContext::NoContext, Action::CursorDown),
            ("pageup", ActionContext::NoContext, Action::CursorUpScreen),
            ("alt-u", ActionContext::NoContext, Action::CursorUpScreen),
            ("ctrl-u", ActionContext::NoContext, Action::CursorUpScreen),
            ("pagedown", ActionContext::NoContext, Action::CursorDownScreen),
            ("alt-d", ActionContext::NoContext, Action::CursorDownScreen),
            ("ctrl-d", ActionContext::NoContext, Action::CursorDownScreen),
            ("home", ActionContext::NoContext, Action::CursorTop),
            ("alt-g", ActionContext::NoContext, Action::CursorTop),
            ("end", ActionContext::NoContext, Action::CursorBottom),
            ("alt-shift-g", ActionContext::NoContext, Action::CursorBottom),
            ("backspace", ActionContext::Searching, Action::EraseSearchChar),
            ("esc", ActionContext::Searching, Action::ClearSearch),
            ("alt-f", ActionContext::NoContext, Action::ChangeFilterSearchMode),
            ("alt-c", ActionContext::NoContext, Action::ChangeCaseSensitiveMode),
            ("ctrl-f", ActionContext::NoContext, Action::ChangeGapSearchMode),
            ("alt-s", ActionContext::NoContext, Action::ChangeSortMode),
            ("ctrl-r", ActionContext::NoContext, Action::RefreshListing),
            ("?", ActionContext::NoContext, Action::Help),
            ("shift-?", ActionContext::NoContext, Action::Help),
            ("esc", ActionContext::NotSearching, Action::Exit),
            ("alt-q", ActionContext::NoContext, Action::Exit),
            ("ctrl-c", ActionContext::NoContext, Action::ExitWithoutCd),
    ];
    assert(r@ =~= default_keymap_text());
    r
}

/// The mappings that a list of texts gives: each key combination that crokey
/// reads is mapped, a later mapping replacing an earlier one.
pub open spec fn keymap_from_texts(ds: Seq<(&'static str, ActionContext, Action)>) -> Map<((Seq<char>, bool), ActionContext), Action>
    decreases ds.len(),
{
    if ds.len() == 0 {
        Map::empty()
    } else {
        let m = keymap_from_texts(ds.drop_last());
        match crokey_parse_result(ds.last().0@) {
            Ok(k) => m.insert((k, ds.last().1), ds.last().2),
            Err(_) => m,
        }
    }
}

/// The default keymap.
pub fn default_keymap() -> (m: Keymap)
    ensures
        m.wf(),
        m@ == keymap_from_texts(default_keymap_text()),
{
    let ds = default_keymap_entries();
    let mut m = Keymap::new();
    let mut i: usize = 0;
    while i < ds.len()
        invariant
            0 <= i <= ds@.len(),
            ds@ == default_keymap_text(),
            m.wf(),
            m@ == keymap_from_texts(ds@.take(i as int)),
        decreases ds@.len() - i,
    {
        let (raw, ctx, action) = ds[i];
        proof {
            assert(ds@.take(i + 1).drop_last() == ds@.take(i as int));
            assert(ds@.take(i + 1).last() == ds@[i as int]);
        }
        match parse_key(raw) {
            Ok(k) => m.insert(k, ctx, action),
            Err(_) => {},
        }
        i = i + 1;
    }
    assert(ds@.take(ds@.len() as int) == ds@);
    m
}


/// While searching, a key mapped in the searching context gives that
/// mapping's action, and while not searching, a key mapped in the
/// not-searching context gives that one; a key mapped only for the other
/// context, and not without a context, gives nothing.
pub proof fn law_context_mapping_applies(m: Map<((Seq<char>, bool), ActionContext), Action>, key: (Seq<char>, bool))
    ensures
        m.dom().contains((key, ActionContext::Searching)) ==> action_in(m, key, true) == Some(m[(key, ActionContext::Searching)]),
        m.dom().contains((key, ActionContext::NotSearching)) ==> action_in(m, key, false) == Some(m[(key, ActionContext::NotSearching)]),
        !m.dom().contains((key, ActionContext::Searching)) && !m.dom().contains((key, ActionContext::NoContext))
            ==> action_in(m, key, true) is None,
        !m.dom().contains((key, ActionContext::NotSearching)) && !m.dom().contains((key, ActionContext::NoContext))
            ==> action_in(m, key, false) is None,
        !m.dom().contains((key, ActionContext::Searching)) && m.dom().contains((key, ActionContext::NoContext))
            ==> action_in(m, key, true) == Some(m[(key, ActionContext::NoContext)]),
        !m.dom().contains((key, ActionContext::NotSearching)) && m.dom().contains((key, ActionContext::NoContext))
            ==> action_in(m, key, false) == Some(m[(key, ActionContext::NoContext)]),
{
}

} // verus!
