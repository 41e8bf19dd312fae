//! Additional context that a client attaches to a turn, and the fragments of
//! it that the model is shown. The `application` entry of kind
//! `Application` is shown without its `library` member.

use vstd::prelude::*;
use crate::json::{json_is_empty, json_members, json_object_text, json_object_to_string, json_remove, parse_json_object, parsed_json_object};
use crate::key_order::{key_less, key_lt, lemma_key_lt_irreflexive, lemma_key_lt_total, lemma_key_lt_transitive};

verus! {

#[derive(Clone, Copy, Debug, PartialEq, Eq, Structural)]
pub enum AdditionalContextKind {
    Untrusted,
    Application,
}

#[derive(Clone, Debug, PartialEq, Eq)]
pub struct AdditionalContextEntry {
    pub value: String,
    pub kind: AdditionalContextKind,
}

impl View for AdditionalContextEntry {
    type V = (Seq<char>, AdditionalContextKind);

    open spec fn view(&self) -> (Seq<char>, AdditionalContextKind) {
        (self.value@, self.kind)
    }
}

impl AdditionalContextEntry {
    pub fn duplicate(&self) -> (r: AdditionalContextEntry)
        ensures
            r@ == self@,
    {
        AdditionalContextEntry { value: self.value.clone(), kind: self.kind }
    }
}

pub open spec fn opt_entry_view(e: Option<AdditionalContextEntry>) -> Option<(Seq<char>, AdditionalContextKind)> {
    match e {
        Some(x) => Some(x@),
        None => None,
    }
}

/// Whether the model sees a fragment as user input or as developer input.
#[derive(Clone, Copy, Debug, PartialEq, Eq, Structural)]
pub enum FragmentRole {
    User,
    Developer,
}

/// A piece of additional context to be shown to the model.
#[derive(Clone, Debug, PartialEq, Eq)]
pub struct ContextFragment {
    pub role: FragmentRole,
    pub key: String,
    pub value: String,
}

impl View for ContextFragment {
    type V = (FragmentRole, Seq<char>, Seq<char>);

    open spec fn view(&self) -> (FragmentRole, Seq<char>, Seq<char>) {
        (self.role, self.key@, self.value@)
    }
}

/// Untrusted context is shown as user input, application context as developer input.
pub open spec fn role_of(kind: AdditionalContextKind) -> FragmentRole {
    match kind {
        AdditionalContextKind::Untrusted => FragmentRole::User,
        AdditionalContextKind::Application => FragmentRole::Developer,
    }
}

/// What the model is shown of an application entry `e`, given the members of
/// its value read as a JSON object (`None` when the value is no JSON object):
/// the entry itself, unless the object has a `library` member; then that
/// member is dropped, and nothing is shown when no other member remains.
pub open spec fn spec_application_projection(
    e: (Seq<char>, AdditionalContextKind),
    parsed: Option<Map<Seq<char>, Seq<char>>>,
) -> Option<(Seq<char>, AdditionalContextKind)> {
    match parsed {
        None => Some(e),
        Some(members) => {
            if !members.contains_key("library"@) {
                Some(e)
            } else if members.remove("library"@).dom().is_empty() {
                None
            } else {
                Some((json_object_text(members.remove("library"@)), AdditionalContextKind::Application))
            }
        },
    }
}

/// What the model is shown of entry `e` under `key`: the entry itself, except
/// for the `application` entry of kind `Application`, which is shown as
/// `spec_application_projection` of its value read as JSON.
pub open spec fn spec_projection(key: Seq<char>, e: (Seq<char>, AdditionalContextKind)) -> Option<(Seq<char>, AdditionalContextKind)> {
    if key != "application"@ || e.1 != AdditionalContextKind::Application {
        Some(e)
    } else {
        spec_application_projection(e, parsed_json_object(e.0))
    }
}

/// The object has `library` as its only member.
pub open spec fn library_only(parsed: Option<Map<Seq<char>, Seq<char>>>) -> bool {
    match parsed {
        Some(m) => m.contains_key("library"@) && m.len() == 1,
        None => false,
    }
}

pub open spec fn finite_members(parsed: Option<Map<Seq<char>, Seq<char>>>) -> bool {
    match parsed {
        Some(m) => m.dom().finite(),
        None => true,
    }
}

pub open spec fn opt_members(parsed: Option<serde_json::Map<String, serde_json::Value>>) -> Option<Map<Seq<char>, Seq<char>>> {
    match parsed {
        Some(m) => Some(json_members(m)),
        None => None,
    }
}

/// A finite object's members without `key` are none exactly when `key` was its only member.
proof fn lemma_only_member(members: Map<Seq<char>, Seq<char>>, key: Seq<char>)
    requires
        members.dom().finite(),
        members.contains_key(key),
    ensures
        members.remove(key).dom().is_empty() <==> members.len() == 1,
{
    assert(members.remove(key).dom() =~= members.dom().remove(key));
    vstd::set::axiom_set_remove_len(members.dom(), key);
    if members.remove(key).dom().is_empty() {
        assert(members.dom().remove(key) =~= Set::empty());
    }
    if members.len() == 1 {
        assert(members.dom().remove(key).len() == 0);
        vstd::set_lib::lemma_set_empty_equivalency_len(members.dom().remove(key));
    }
}

/// The projection of an application entry from its value already read as a
/// JSON object (`None` when the value is no JSON object).
pub fn project_application_entry(
    entry: &AdditionalContextEntry,
    parsed: Option<serde_json::Map<String, serde_json::Value>>,
) -> (r: Option<AdditionalContextEntry>)
    ensures
        opt_entry_view(r) == spec_application_projection(entry@, opt_members(parsed)),
        finite_members(opt_members(parsed)) ==> (r is None <==> library_only(opt_members(parsed))),
{
    let mut application = match parsed {
        Some(m) => m,
        None => {
            return Some(entry.duplicate());
        },
    };
    let ghost members = json_members(application);
    let removed = json_remove(&mut application, "library");
    if removed.is_none() {
        return Some(entry.duplicate());
    }
    proof {
        if members.dom().finite() {
            lemma_only_member(members, "library"@);
        }
    }
    if json_is_empty(&application) {
        None
    } else {
        Some(AdditionalContextEntry {
            value: json_object_to_string(application),
            kind: AdditionalContextKind::Application,
        })
    }
}

/// Only the `application` entry of kind `Application` is ever changed: every
/// entry under another key, and every entry of another kind, is shown as it is.
pub proof fn law_projection_keeps_other_entries(key: Seq<char>, e: (Seq<char>, AdditionalContextKind))
    ensures
        key != "application"@ ==> spec_projection(key, e) == Some(e),
        e.1 != AdditionalContextKind::Application ==> spec_projection(key, e) == Some(e),
{
}

/// The model-visible projection of one context entry. Nothing is shown
/// exactly for the `application` entry of kind `Application` whose value is
/// an object with `library` as its only member; what is shown keeps the
/// entry's kind, and shows the same again when projected a second time.
pub fn model_visible_projection(key: &str, entry: &AdditionalContextEntry) -> (r: Option<AdditionalContextEntry>)
    ensures
        opt_entry_view(r) == spec_projection(key@, entry@),
        r is None <==> (key@ == "application"@ && entry.kind == AdditionalContextKind::Application
            && library_only(parsed_json_object(entry.value@))),
        r matches Some(p) ==> p.kind == entry.kind,
        key@ != "application"@ || entry.kind != AdditionalContextKind::Application ==> r is Some && r->0@ == entry@,
        r matches Some(p) ==> spec_projection(key@, p@) == Some(p@),
{
    let is_application_key = key.to_owned().eq(&"application".to_owned());
    if !is_application_key || entry.kind != AdditionalContextKind::Application {
        return Some(entry.duplicate());
    }
    let parsed = parse_json_object(entry.value.as_str());
    proof {
        if let Some(members) = opt_members(parsed) {
            let rest = members.remove("library"@);
            assert(rest.submap_of(members));
            if let Some(back) = parsed_json_object(json_object_text(rest)) {
                assert(back.dom() == rest.dom());
                assert(!back.contains_key("library"@));
            }
        }
    }
    project_application_entry(entry, parsed)
}

/// Keys strictly increasing.
pub open spec fn sorted_keys(s: Seq<(Seq<char>, (Seq<char>, AdditionalContextKind))>) -> bool {
    forall|i: int, j: int| 0 <= i < j < s.len() ==> key_lt(#[trigger] s[i].0, #[trigger] s[j].0)
}

pub open spec fn has_key(s: Seq<(Seq<char>, (Seq<char>, AdditionalContextKind))>, k: Seq<char>) -> bool {
    exists|i: int| 0 <= i < s.len() && #[trigger] s[i].0 == k
}

pub open spec fn key_index(s: Seq<(Seq<char>, (Seq<char>, AdditionalContextKind))>, k: Seq<char>) -> int {
    choose|i: int| 0 <= i < s.len() && #[trigger] s[i].0 == k
}

/// The map that a key-sorted entry sequence stands for.
pub open spec fn entries_map(s: Seq<(Seq<char>, (Seq<char>, AdditionalContextKind))>) -> Map<Seq<char>, (Seq<char>, AdditionalContextKind)> {
    Map::new(|k: Seq<char>| has_key(s, k), |k: Seq<char>| s[key_index(s, k)].1)
}

pub proof fn lemma_entries_map_at(s: Seq<(Seq<char>, (Seq<char>, AdditionalContextKind))>, i: int)
    requires
        sorted_keys(s),
        0 <= i < s.len(),
    ensures
        entries_map(s).contains_key(s[i].0),
        entries_map(s)[s[i].0] == s[i].1,
{
    assert(has_key(s, s[i].0));
    let j = key_index(s, s[i].0);
    if j != i {
        if j < i {
            assert(key_lt(s[j].0, s[i].0));
        } else {
            assert(key_lt(s[i].0, s[j].0));
        }
        lemma_key_lt_irreflexive(s[i].0);
    }
}

/// Context entries by key, kept in key order: the contents and iteration
/// order of a `BTreeMap<String, AdditionalContextEntry>`. A sorted vector
/// stands in for the tree because vstd's `BTreeMap` contract holds only for
/// key types whose ordering obeys its comparison model, which vstd does not
/// establish for `String`; over a `BTreeMap<String, _>` nothing here could be proved.
#[derive(Clone, Debug, PartialEq, Eq)]
pub struct ContextValues {
    entries: Vec<(String, AdditionalContextEntry)>,
}

impl View for ContextValues {
    type V = Seq<(Seq<char>, (Seq<char>, AdditionalContextKind))>;

    closed spec fn view(&self) -> Seq<(Seq<char>, (Seq<char>, AdditionalContextKind))> {
        self.entries@.map_values(|p: (String, AdditionalContextEntry)| (p.0@, p.1@))
    }
}

impl ContextValues {
    pub open spec fn wf(&self) -> bool {
        sorted_keys(self@)
    }

    pub open spec fn as_map(&self) -> Map<Seq<char>, (Seq<char>, AdditionalContextKind)> {
        entries_map(self@)
    }

    pub fn new() -> (r: ContextValues)
        ensures
            r.wf(),
            r@ == Seq::<(Seq<char>, (Seq<char>, AdditionalContextKind))>::empty(),
    {
        let r = ContextValues { entries: Vec::new() };
        assert(r@ =~= Seq::<(Seq<char>, (Seq<char>, AdditionalContextKind))>::empty());
        r
    }

    pub fn len(&self) -> (r: usize)
        ensures
            r == self@.len(),
    {
        self.entries.len()
    }

    /// The key and entry at position `i` in key order.
    pub fn entry_at(&self, i: usize) -> (r: (&String, &AdditionalContextEntry))
        requires
            i < self@.len(),
        ensures
            r.0@ == self@[i as int].0,
            r.1@ == self@[i as int].1,
    {
        let p = &self.entries[i];
        (&p.0, &p.1)
    }

    /// Inserts or replaces the entry under `key`, keeping key order.
    pub fn insert(&mut self, key: String, entry: AdditionalContextEntry)
        requires
            old(self).wf(),
        ensures
            final(self).wf(),
            final(self).as_map() == old(self).as_map().insert(key@, entry@),
    {
        let ghost s = self@;
        let ghost k = key@;
        let ghost e = entry@;
        let mut i: usize = 0;
        while i < self.entries.len() && key_less(self.entries[i].0.as_str(), key.as_str())
            invariant
                i <= self.entries.len(),
                self@ == s,
                key@ == k,
                forall|j: int| 0 <= j < i ==> key_lt(#[trigger] s[j].0, k),
            decreases self.entries.len() - i,
        {
            i = i + 1;
        }
        if i < self.entries.len() && self.entries[i].0.eq(&key) {
            self.entries.set(i, (key, entry));
            proof {
                let t = self@;
                assert(t =~= s.update(i as int, (k, e)));
                assert forall|a: int, b: int| 0 <= a < b < t.len() implies key_lt(#[trigger] t[a].0, #[trigger] t[b].0) by {
                    assert(t[a].0 == s[a].0);
                    assert(t[b].0 == s[b].0);
                }
                assert forall|x: Seq<char>| #[trigger] entries_map(t).contains_key(x) == entries_map(s).insert(k, e).contains_key(x) by {
                    if has_key(t, x) {
                        let j = choose|j: int| 0 <= j < t.len() && t[j].0 == x;
                        assert(s[j].0 == x);
                        assert(has_key(s, x));
                    }
                    if has_key(s, x) {
                        let j = choose|j: int| 0 <= j < s.len() && s[j].0 == x;
                        assert(t[j].0 == x);
                    }
                    if x == k {
                        assert(t[i as int].0 == x);
                    }
                }
                assert forall|x: Seq<char>| #[trigger] entries_map(t).contains_key(x) implies entries_map(t)[x] == entries_map(s).insert(k, e)[x] by {
                    let j = choose|j: int| 0 <= j < t.len() && t[j].0 == x;
                    lemma_entries_map_at(t, j);
                    if j != i {
                        lemma_entries_map_at(s, j);
                        if x == k {
                            if j < i {
                                assert(key_lt(t[j].0, t[i as int].0));
                            } else {
                                assert(key_lt(t[i as int].0, t[j].0));
                            }
                            lemma_key_lt_irreflexive(k);
                        }
                    }
                }
                assert(entries_map(t) =~= entries_map(s).insert(k, e));
            }
        } else {
            self.entries.insert(i, (key, entry));
            proof {
                let t = self@;
                assert(t =~= s.insert(i as int, (k, e)));
                if i < s.len() {
                    assert(s[i as int].0 != k);
                    lemma_key_lt_total(s[i as int].0, k);
                }
                assert forall|a: int, b: int| 0 <= a < b < t.len() implies key_lt(#[trigger] t[a].0, #[trigger] t[b].0) by {
                    if b < i {
                    } else if b == i {
                    } else if a < i {
                        // a < i < b: s[a] < k < s[b-1]
                        if b - 1 > i {
                            lemma_key_lt_transitive(k, s[i as int].0, s[b - 1].0);
                        }
                        lemma_key_lt_transitive(s[a].0, k, s[b - 1].0);
                    } else if a == i {
                        if b - 1 > i {
                            lemma_key_lt_transitive(k, s[i as int].0, s[b - 1].0);
                        }
                    } else {
                        assert(t[a].0 == s[a - 1].0);
                        assert(t[b].0 == s[b - 1].0);
                    }
                }
                assert(!has_key(s, k)) by {
                    if has_key(s, k) {
                        let j = choose|j: int| 0 <= j < s.len() && s[j].0 == k;
                        if j < i {
                            lemma_key_lt_irreflexive(k);
                        } else if j > i {
                            lemma_key_lt_transitive(k, s[i as int].0, s[j].0);
                            lemma_key_lt_irreflexive(k);
                        }
                    }
                }
                assert forall|x: Seq<char>| #[trigger] entries_map(t).contains_key(x) == entries_map(s).insert(k, e).contains_key(x) by {
                    if has_key(t, x) {
                        let j = choose|j: int| 0 <= j < t.len() && t[j].0 == x;
                        if j < i {
                            assert(s[j].0 == x);
                        } else if j > i {
                            assert(s[j - 1].0 == x);
                        }
                    }
                    if has_key(s, x) {
                        let j = choose|j: int| 0 <= j < s.len() && s[j].0 == x;
                        if j < i {
                            assert(t[j].0 == x);
                        } else {
                            assert(t[j + 1].0 == x);
                        }
                    }
                    if x == k {
                        assert(t[i as int].0 == x);
                    }
                }
                assert forall|x: Seq<char>| #[trigger] entries_map(t).contains_key(x) implies entries_map(t)[x] == entries_map(s).insert(k, e)[x] by {
                    let j = choose|j: int| 0 <= j < t.len() && t[j].0 == x;
                    lemma_entries_map_at(t, j);
                    if j < i {
                        lemma_entries_map_at(s, j);
                    } else if j > i {
                        lemma_entries_map_at(s, j - 1);
                    }
                }
                assert(entries_map(t) =~= entries_map(s).insert(k, e));
            }
        }
    }

    /// The entry under `key`, if any.
    pub fn get(&self, key: &str) -> (r: Option<&AdditionalContextEntry>)
        requires
            self.wf(),
        ensures
            match r {
                Some(e) => self.as_map().contains_key(key@) && self.as_map()[key@] == e@,
                None => !self.as_map().contains_key(key@),
            },
    {
        let key_s = key.to_owned();
        let mut i: usize = 0;
        while i < self.entries.len()
            invariant
                i <= self.entries.len(),
                self.wf(),
                key_s@ == key@,
                forall|j: int| 0 <= j < i ==> (#[trigger] self@[j]).0 != key@,
            decreases self.entries.len() - i,
        {
            if self.entries[i].0.eq(&key_s) {
                proof {
                    lemma_entries_map_at(self@, i as int);
                }
                return Some(&self.entries[i].1);
            }
            i = i + 1;
        }
        None
    }
}

/// The fragment shown for `key` when the model-visible projection changed
/// from what the previous values showed.
pub open spec fn fragment_for(
    previous: Map<Seq<char>, (Seq<char>, AdditionalContextKind)>,
    key: Seq<char>,
    e: (Seq<char>, AdditionalContextKind),
) -> Option<(FragmentRole, Seq<char>, Seq<char>)> {
    let projection = spec_projection(key, e);
    let previous_projection = if previous.contains_key(key) {
        spec_projection(key, previous[key])
    } else {
        None
    };
    if projection != previous_projection {
        match projection {
            Some(p) => Some((role_of(p.1), key, p.0)),
            None => None,
        }
    } else {
        None
    }
}

/// The fragments produced when `entries` replace `previous`, in key order.
pub open spec fn spec_fragments(
    previous: Map<Seq<char>, (Seq<char>, AdditionalContextKind)>,
    entries: Seq<(Seq<char>, (Seq<char>, AdditionalContextKind))>,
) -> Seq<(FragmentRole, Seq<char>, Seq<char>)>
    decreases entries.len(),
{
    if entries.len() == 0 {
        Seq::empty()
    } else {
        let rest = spec_fragments(previous, entries.drop_last());
        match fragment_for(previous, entries.last().0, entries.last().1) {
            Some(f) => rest.push(f),
            None => rest,
        }
    }
}

/// The additional context of a session, as last sent by the client.
#[derive(Clone, Debug, PartialEq, Eq)]
pub struct AdditionalContextStore {
    values: ContextValues,
}

impl AdditionalContextStore {
    pub closed spec fn values_view(&self) -> Seq<(Seq<char>, (Seq<char>, AdditionalContextKind))> {
        self.values@
    }

    pub open spec fn as_map(&self) -> Map<Seq<char>, (Seq<char>, AdditionalContextKind)> {
        entries_map(self.values_view())
    }

    pub open spec fn wf(&self) -> bool {
        sorted_keys(self.values_view())
    }

    pub fn new() -> (r: AdditionalContextStore)
        ensures
            r.wf(),
            r.values_view() == Seq::<(Seq<char>, (Seq<char>, AdditionalContextKind))>::empty(),
    {
        AdditionalContextStore { values: ContextValues::new() }
    }

    /// Replaces the stored values by `values` and returns, in key order, the
    /// fragments whose model-visible projection changed and is shown.
    pub fn merge(&mut self, values: ContextValues) -> (r: Vec<ContextFragment>)
        requires
            old(self).wf(),
            values.wf(),
        ensures
            final(self).wf(),
            final(self).values_view() == values@,
            r@.map_values(|f: ContextFragment| f@) == spec_fragments(old(self).as_map(), values@),
            forall|i: int| 0 <= i < values@.len() && #[trigger] shown_anew(old(self).as_map(), values@, i) ==>
                fragments_view(r@).contains(
                    shown_fragment(values@[i].0, spec_projection(values@[i].0, values@[i].1)->0),
                ),
            forall|f: (FragmentRole, Seq<char>, Seq<char>)| #[trigger] fragments_view(r@).contains(f) ==>
                exists|i: int| 0 <= i < values@.len() && #[trigger] shown_anew(old(self).as_map(), values@, i)
                    && f == shown_fragment(values@[i].0, spec_projection(values@[i].0, values@[i].1)->0),
    {
        proof {
            law_fragments_are_changed_projections(old(self).as_map(), values@);
        }
        let mut fragments: Vec<ContextFragment> = Vec::new();
        let n = values.len();
        let mut i: usize = 0;
        while i < n
            invariant
                n == values@.len(),
                i <= n,
                values.wf(),
                self.wf(),
                self.as_map() == old(self).as_map(),
                fragments@.map_values(|f: ContextFragment| f@) == spec_fragments(old(self).as_map(), values@.take(i as int)),
            decreases n - i,
        {
            let (key, entry) = values.entry_at(i);
            let projection = model_visible_projection(key.as_str(), entry);
            let previous_projection = match self.values.get(key.as_str()) {
                Some(previous) => model_visible_projection(key.as_str(), previous),
                None => None,
            };
            let ghost before = fragments@.map_values(|f: ContextFragment| f@);
            assert(values@.take(i + 1).drop_last() =~= values@.take(i as int));
            if !same_projection(&projection, &previous_projection) {
                if let Some(p) = projection {
                    let role = match p.kind {
                        AdditionalContextKind::Untrusted => FragmentRole::User,
                        AdditionalContextKind::Application => FragmentRole::Developer,
                    };
                    fragments.push(ContextFragment { role, key: key.clone(), value: p.value });
                    assert(fragments@.map_values(|f: ContextFragment| f@) =~= before.push((role, key@, p.value@)));
                }
            }
            i = i + 1;
        }
        assert(values@.take(n as int) =~= values@);
        self.values = values;
        fragments
    }

    /// The value of the entry under `key` when it is application context.
    pub fn application_value(&self, key: &str) -> (r: Option<&str>)
        requires
            self.wf(),
        ensures
            match r {
                Some(s) => self.as_map().contains_key(key@) && self.as_map()[key@].1 == AdditionalContextKind::Application
                    && s@ == self.as_map()[key@].0,
                None => !(self.as_map().contains_key(key@) && self.as_map()[key@].1 == AdditionalContextKind::Application),
            },
    {
        match self.values.get(key) {
            Some(entry) => {
                if entry.kind == AdditionalContextKind::Application {
                    Some(entry.value.as_str())
                } else {
                    None
                }
            },
            None => None,
        }
    }
}

/// The abstract values of a list of fragments.
pub open spec fn fragments_view(v: Seq<ContextFragment>) -> Seq<(FragmentRole, Seq<char>, Seq<char>)> {
    v.map_values(|f: ContextFragment| f@)
}

/// What the previous values showed under `key` (nothing when `key` was absent).
pub open spec fn shown_before(previous: Map<Seq<char>, (Seq<char>, AdditionalContextKind)>, key: Seq<char>) -> Option<(Seq<char>, AdditionalContextKind)> {
    if previous.contains_key(key) {
        spec_projection(key, previous[key])
    } else {
        None
    }
}

/// The fragment that shows projection `p` under `key`: untrusted context as
/// user input, application context as developer input.
pub open spec fn shown_fragment(key: Seq<char>, p: (Seq<char>, AdditionalContextKind)) -> (FragmentRole, Seq<char>, Seq<char>) {
    (if p.1 == AdditionalContextKind::Untrusted { FragmentRole::User } else { FragmentRole::Developer }, key, p.0)
}

/// Whether entry `i` of `entries` is shown anew: its projection is shown and
/// differs from what the previous values showed under its key.
pub open spec fn shown_anew(
    previous: Map<Seq<char>, (Seq<char>, AdditionalContextKind)>,
    entries: Seq<(Seq<char>, (Seq<char>, AdditionalContextKind))>,
    i: int,
) -> bool {
    spec_projection(entries[i].0, entries[i].1) is Some
        && spec_projection(entries[i].0, entries[i].1) != shown_before(previous, entries[i].0)
}

/// The fragments of a merge are exactly the changed projections that are
/// shown: every entry whose projection is shown and differs from what the
/// previous values showed under its key has its fragment among them, and
/// every fragment is such an entry's.
pub proof fn law_fragments_are_changed_projections(
    previous: Map<Seq<char>, (Seq<char>, AdditionalContextKind)>,
    entries: Seq<(Seq<char>, (Seq<char>, AdditionalContextKind))>,
)
    ensures
        forall|i: int| 0 <= i < entries.len() && #[trigger] shown_anew(previous, entries, i) ==>
            spec_fragments(previous, entries).contains(
                shown_fragment(entries[i].0, spec_projection(entries[i].0, entries[i].1)->0),
            ),
        forall|f: (FragmentRole, Seq<char>, Seq<char>)| #[trigger] spec_fragments(previous, entries).contains(f) ==>
            exists|i: int| 0 <= i < entries.len() && #[trigger] shown_anew(previous, entries, i)
                && f == shown_fragment(entries[i].0, spec_projection(entries[i].0, entries[i].1)->0),
    decreases entries.len(),
{
    if entries.len() > 0 {
        let rest = entries.drop_last();
        let n = entries.len() - 1;
        law_fragments_are_changed_projections(previous, rest);
        let fr = spec_fragments(previous, rest);
        let all = spec_fragments(previous, entries);
        assert(entries.last() == entries[n]);
        assert forall|i: int| 0 <= i < rest.len() implies #[trigger] rest[i] == entries[i] by {}
        assert forall|i: int| 0 <= i < rest.len() implies shown_anew(previous, rest, i) == shown_anew(previous, entries, i) by {
            assert(rest[i] == entries[i]);
        }
        assert forall|f: (FragmentRole, Seq<char>, Seq<char>)| fr.contains(f) implies all.contains(f) by {
            let k = choose|k: int| 0 <= k < fr.len() && fr[k] == f;
            if fragment_for(previous, entries[n].0, entries[n].1) is Some {
                assert(all[k] == f);
            }
        }
        assert forall|i: int| 0 <= i < entries.len() && #[trigger] shown_anew(previous, entries, i) implies
            all.contains(shown_fragment(entries[i].0, spec_projection(entries[i].0, entries[i].1)->0)) by {
            if i < n {
                assert(shown_anew(previous, rest, i));
                assert(fr.contains(shown_fragment(rest[i].0, spec_projection(rest[i].0, rest[i].1)->0)));
            } else {
                assert(all == fr.push(shown_fragment(entries[n].0, spec_projection(entries[n].0, entries[n].1)->0)));
                assert(all[fr.len() as int] == shown_fragment(entries[n].0, spec_projection(entries[n].0, entries[n].1)->0));
            }
        }
        assert forall|f: (FragmentRole, Seq<char>, Seq<char>)| #[trigger] all.contains(f) implies
            exists|i: int| 0 <= i < entries.len() && #[trigger] shown_anew(previous, entries, i)
                && f == shown_fragment(entries[i].0, spec_projection(entries[i].0, entries[i].1)->0) by {
            let k = choose|k: int| 0 <= k < all.len() && all[k] == f;
            if k < fr.len() {
                assert(fr[k] == all[k]);
                assert(fr.contains(f));
                let i = choose|i: int| 0 <= i < rest.len() && #[trigger] shown_anew(previous, rest, i)
                    && f == shown_fragment(rest[i].0, spec_projection(rest[i].0, rest[i].1)->0);
                assert(shown_anew(previous, entries, i));
            } else {
                assert(shown_anew(previous, entries, n));
            }
        }
    }
}

/// Entries that the previous values already held unchanged produce no fragment.
pub proof fn law_unchanged_values_emit_nothing(
    previous: Map<Seq<char>, (Seq<char>, AdditionalContextKind)>,
    entries: Seq<(Seq<char>, (Seq<char>, AdditionalContextKind))>,
)
    requires
        forall|i: int| 0 <= i < entries.len() ==> previous.contains_key((#[trigger] entries[i]).0) && previous[entries[i].0] == entries[i].1,
    ensures
        spec_fragments(previous, entries) == Seq::<(FragmentRole, Seq<char>, Seq<char>)>::empty(),
    decreases entries.len(),
{
    if entries.len() > 0 {
        let rest = entries.drop_last();
        assert forall|i: int| 0 <= i < rest.len() implies previous.contains_key((#[trigger] rest[i]).0) && previous[rest[i].0] == rest[i].1 by {
            assert(rest[i] == entries[i]);
        }
        law_unchanged_values_emit_nothing(previous, rest);
        assert(entries.last() == entries[entries.len() - 1]);
    }
}

/// Merging the same values a second time shows the model nothing new.
pub proof fn law_merge_is_idempotent(values: Seq<(Seq<char>, (Seq<char>, AdditionalContextKind))>)
    requires
        sorted_keys(values),
    ensures
        spec_fragments(entries_map(values), values) == Seq::<(FragmentRole, Seq<char>, Seq<char>)>::empty(),
{
    assert forall|i: int| 0 <= i < values.len() implies entries_map(values).contains_key((#[trigger] values[i]).0)
        && entries_map(values)[values[i].0] == values[i].1 by {
        lemma_entries_map_at(values, i);
    }
    law_unchanged_values_emit_nothing(entries_map(values), values);
}

/// Fragments come in strictly increasing key order, each under a key of the
/// new values.
pub proof fn law_fragments_in_key_order(
    previous: Map<Seq<char>, (Seq<char>, AdditionalContextKind)>,
    entries: Seq<(Seq<char>, (Seq<char>, AdditionalContextKind))>,
)
    requires
        sorted_keys(entries),
    ensures
        forall|a: int, b: int| 0 <= a < b < spec_fragments(previous, entries).len() ==>
            key_lt(#[trigger] spec_fragments(previous, entries)[a].1, #[trigger] spec_fragments(previous, entries)[b].1),
        forall|a: int| 0 <= a < spec_fragments(previous, entries).len() ==>
            has_key(entries, #[trigger] spec_fragments(previous, entries)[a].1),
    decreases entries.len(),
{
    if entries.len() > 0 {
        let rest = entries.drop_last();
        let last = entries.len() - 1;
        assert(sorted_keys(rest)) by {
            assert forall|i: int, j: int| 0 <= i < j < rest.len() implies key_lt(#[trigger] rest[i].0, #[trigger] rest[j].0) by {
                assert(rest[i] == entries[i]);
                assert(rest[j] == entries[j]);
            }
        }
        law_fragments_in_key_order(previous, rest);
        let fr = spec_fragments(previous, rest);
        assert forall|a: int| 0 <= a < fr.len() implies key_lt((#[trigger] fr[a]).1, entries[last].0) by {
            let j = choose|j: int| 0 <= j < rest.len() && #[trigger] rest[j].0 == fr[a].1;
            assert(rest[j] == entries[j]);
        }
        assert forall|a: int| 0 <= a < fr.len() implies has_key(entries, (#[trigger] fr[a]).1) by {
            let j = choose|j: int| 0 <= j < rest.len() && #[trigger] rest[j].0 == fr[a].1;
            assert(rest[j] == entries[j]);
        }
        assert(entries.last() == entries[last]);
        assert(has_key(entries, entries[last].0));
    }
}

impl Default for AdditionalContextStore {
    fn default() -> (r: AdditionalContextStore)
        ensures
            r.wf(),
            r.values_view() == Seq::<(Seq<char>, (Seq<char>, AdditionalContextKind))>::empty(),
    {
        AdditionalContextStore::new()
    }
}

/// Whether two projections show the same thing.
fn same_projection(a: &Option<AdditionalContextEntry>, b: &Option<AdditionalContextEntry>) -> (r: bool)
    ensures
        r == (opt_entry_view(*a) == opt_entry_view(*b)),
{
    match (a, b) {
        (Some(x), Some(y)) => x.kind == y.kind && x.value.eq(&y.value),
        (None, None) => true,
        _ => false,
    }
}

} // verus!
