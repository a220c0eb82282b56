//! The repository with keys of the caller's choice: a builder over hash maps, and the
//! engine that a build fills.
//!
//! The builder's functions ask that the key types obey the hash-table model of `vstd`,
//! which the integer types do. The order in which a hash map is walked is left open, so
//! the contracts speak of sets.
use crate::compile::{
    all_compiled, compile_stops, compile_template, engine_before, first_counter, handles_before,
    lemma_stop_excludes_success, stops_in, template_ok, CompileStop,
};
use crate::engine::{compiled_names, engine_intact};
use crate::string_map::StringMap;
use crate::template::{Content, Template};
use std::collections::HashMap;
use std::hash::Hash;
use vstd::prelude::*;
use vstd::std_specs::hash::{axiom_spec_hash_map_iter, obeys_key_model, spec_hash_map_iter};
use vstd::std_specs::iter::IteratorSpec;

verus! {

/// `std::collections::HashMap::get_mut` with the key itself as the lookup type. Assumed,
/// as the standard library documents it and for keys that obey the hash-table model: it
/// lends the value stored under `key`, so that the map afterwards differs from the map
/// before in that value alone, or gives `None` and leaves the map as it was when the key
/// is absent.
#[verifier::external_body]
fn value_mut<'a, K: Eq + Hash, V>(map: &'a mut HashMap<K, V>, key: &K) -> (r: Option<&'a mut V>)
    ensures
        obeys_key_model::<K>() ==> match r {
            Some(v) => {
                &&& old(map)@.contains_key(*key)
                &&& *v == old(map)@[*key]
                &&& final(map)@ == old(map)@.insert(*key, *final(v))
            },
            None => !old(map)@.contains_key(*key) && final(map)@ == old(map)@,
        },
{
    map.get_mut(key)
}

/// The group references that point at none of `templates`: group key, member key and the
/// missing template key.
pub open spec fn dangling_refs<TemplateKey, GroupKey, GroupMemberKey>(
    groups: Map<GroupKey, HashMap<GroupMemberKey, TemplateKey>>,
    templates: Set<TemplateKey>,
) -> Set<(GroupKey, GroupMemberKey, TemplateKey)> {
    Set::new(
        |r: (GroupKey, GroupMemberKey, TemplateKey)|
            {
                &&& groups.contains_key(r.0)
                &&& groups[r.0]@.contains_key(r.1)
                &&& groups[r.0]@[r.1] == r.2
                &&& !templates.contains(r.2)
            },
    )
}

/// The key of the entry at position `i` of a walk over a hash map.
pub open spec fn walked_key<K, V>(walk: Seq<(&K, &V)>, i: int) -> K {
    *walk[i].0
}

/// Whether `key` stands at one of the first `bound` positions of a walk.
pub open spec fn walked_before<K, V>(walk: Seq<(&K, &V)>, bound: int, key: K) -> bool {
    exists|i: int| 0 <= i < bound && #[trigger] walked_key(walk, i) == key
}

/// A walk over `map` visits every entry once: each position holds an entry of the map,
/// each key of the map stands at some position, and no key stands at two.
pub open spec fn is_walk_of<K, V>(walk: Seq<(&K, &V)>, map: Map<K, V>) -> bool {
    &&& forall|i: int|
        0 <= i < walk.len() ==> map.contains_key(#[trigger] walked_key(walk, i)) && map[walked_key(
            walk,
            i,
        )] == *walk[i].1
    &&& forall|k: K| #[trigger]
        map.contains_key(k) ==> exists|i: int| 0 <= i < walk.len() && walked_key(walk, i) == k
    &&& forall|i: int, j: int|
        0 <= i < walk.len() && 0 <= j < walk.len() && i != j ==> walked_key(walk, i)
            != walked_key(walk, j)
}

/// The walk that the standard library makes over a hash map is a walk of its entries.
pub proof fn lemma_iter_is_walk<K, V>(map: &HashMap<K, V>)
    requires
        obeys_key_model::<K>(),
        spec_hash_map_iter(map).remaining().no_duplicates(),
    ensures
        is_walk_of(spec_hash_map_iter(map).remaining(), map@),
{
    let walk = spec_hash_map_iter(map).remaining();
    axiom_spec_hash_map_iter(map);
    assert forall|i: int| 0 <= i < walk.len() implies map@.contains_key(
        #[trigger] walked_key(walk, i),
    ) && map@[walked_key(walk, i)] == *walk[i].1 by {
        assert(map@.contains_key(*walk[i].0));
    }
    assert forall|k: K| #[trigger] map@.contains_key(k) implies exists|i: int|
        0 <= i < walk.len() && walked_key(walk, i) == k by {
        assert(walk.contains((&k, &map@[k])));
        let i = choose|i: int| 0 <= i < walk.len() && walk[i] == (&k, &map@[k]);
        assert(walked_key(walk, i) == k);
    }
    assert forall|i: int, j: int|
        0 <= i < walk.len() && 0 <= j < walk.len() && i != j implies walked_key(walk, i)
        != walked_key(walk, j) by {
        if walked_key(walk, i) == walked_key(walk, j) {
            assert(map@[*walk[i].0] == *walk[i].1);
            assert(map@[*walk[j].0] == *walk[j].1);
            assert(walk[i] == walk[j]);
        }
    }
}

/// Why an engine could not be built.
#[derive(Debug)]
pub enum TerraristBuilderError {
    /// The engine refused a template body; its diagnostic is inside.
    TemplateBuildingError(tera::Error),
    /// Two variants lay claim to the handle name inside: a caller chose it twice, or
    /// chose a name that the counter also makes.
    HandleNameRepeated(String),
}

impl From<tera::Error> for TerraristBuilderError {
    fn from(value: tera::Error) -> (e: Self) {
        TerraristBuilderError::TemplateBuildingError(value)
    }
}

impl vstd::std_specs::convert::FromSpecImpl<tera::Error> for TerraristBuilderError {
    open spec fn obeys_from_spec() -> bool {
        true
    }

    open spec fn from_spec(v: tera::Error) -> Self {
        TerraristBuilderError::TemplateBuildingError(v)
    }
}

/// The engine with every staged variant compiled into it.
pub struct Terrarist {
    tera: tera::Tera,
}

impl Default for Terrarist {
    fn default() -> (repo: Self)
        ensures
            compiled_names(repo.engine()) == Set::<Seq<char>>::empty(),
    {
        Terrarist { tera: tera::Tera::default() }
    }
}

impl Terrarist {
    /// The engine that holds the compiled variants.
    pub closed spec fn engine(&self) -> tera::Tera {
        self.tera
    }
}

/// The variants of the templates that a walk visits, in the order of the walk.
pub open spec fn walk_table<K, LocaleKey>(walk: Seq<(&K, &Template<LocaleKey>)>) -> Seq<
    Seq<Content<LocaleKey>>,
> {
    Seq::new(walk.len(), |p: int| walk[p].1@)
}

/// The builder's error for a stop of the compiling.
pub open spec fn stop_error(stop: CompileStop) -> TerraristBuilderError {
    match stop {
        CompileStop::NameRepeated(name) => TerraristBuilderError::HandleNameRepeated(name),
        CompileStop::Refused(e) => TerraristBuilderError::TemplateBuildingError(e),
    }
}

/// What a build comes to that starts from `engine` and takes the templates in the order
/// of `table`: it succeeds exactly when every variant is filed, and then holds the
/// engine that has filed them all; otherwise the error is the stop of the compiling.
pub open spec fn built_over<LocaleKey>(
    table: Seq<Seq<Content<LocaleKey>>>,
    engine: tera::Tera,
    r: Result<Terrarist, TerraristBuilderError>,
) -> bool {
    &&& r is Ok <==> all_compiled(engine, table, table.len() as int)
    &&& match r {
        Ok(repo) => {
            &&& repo.engine() == engine_before(engine, table, table.len() as int)
            &&& compiled_names(repo.engine()) == handles_before(table, table.len() as int)
        },
        Err(TerraristBuilderError::TemplateBuildingError(e)) => compile_stops(
            CompileStop::Refused(e),
            engine,
            table,
        ),
        Err(TerraristBuilderError::HandleNameRepeated(name)) => compile_stops(
            CompileStop::NameRepeated(name),
            engine,
            table,
        ),
    }
}

/// The staging area: templates and groups under keys of the caller's choice.
pub struct TerraristBuilder<TemplateKey, LocaleKey, GroupKey, GroupMemberKey> where
    TemplateKey: Eq + Hash + Copy,
    LocaleKey: Eq + Hash + Copy,
    GroupKey: Eq + Hash + Copy,
    GroupMemberKey: Eq + Hash + Copy,
 {
    templates: HashMap<TemplateKey, Template<LocaleKey>>,
    groups: HashMap<GroupKey, HashMap<GroupMemberKey, TemplateKey>>,
}

impl<TemplateKey, LocaleKey, GroupKey, GroupMemberKey> Default for TerraristBuilder<
    TemplateKey,
    LocaleKey,
    GroupKey,
    GroupMemberKey,
> where
    TemplateKey: Eq + Hash + Copy,
    LocaleKey: Eq + Hash + Copy,
    GroupKey: Eq + Hash + Copy,
    GroupMemberKey: Eq + Hash + Copy,
 {
    fn default() -> (b: Self)
        ensures
            b.template_map() == Map::<TemplateKey, Template<LocaleKey>>::empty(),
            b.group_map() == Map::<GroupKey, HashMap<GroupMemberKey, TemplateKey>>::empty(),
    {
        TerraristBuilder { templates: HashMap::new(), groups: HashMap::new() }
    }
}

impl<TemplateKey, LocaleKey, GroupKey, GroupMemberKey> TerraristBuilder<
    TemplateKey,
    LocaleKey,
    GroupKey,
    GroupMemberKey,
> where
    TemplateKey: Eq + Hash + Copy,
    LocaleKey: Eq + Hash + Copy,
    GroupKey: Eq + Hash + Copy,
    GroupMemberKey: Eq + Hash + Copy,
 {
    /// The staged templates by key.
    pub closed spec fn template_map(&self) -> Map<TemplateKey, Template<LocaleKey>> {
        self.templates@
    }

    /// The staged groups by key.
    pub closed spec fn group_map(&self) -> Map<GroupKey, HashMap<GroupMemberKey, TemplateKey>> {
        self.groups@
    }

    /// The three key types that are looked up obey the hash-table model.
    pub open spec fn keys_obey_model() -> bool {
        &&& obeys_key_model::<TemplateKey>()
        &&& obeys_key_model::<GroupKey>()
        &&& obeys_key_model::<GroupMemberKey>()
    }

    /// The staged templates.
    pub fn templates(&self) -> (r: &HashMap<TemplateKey, Template<LocaleKey>>)
        ensures
            r@ == self.template_map(),
    {
        &self.templates
    }

    /// The staged groups.
    pub fn groups(&self) -> (r: &HashMap<GroupKey, HashMap<GroupMemberKey, TemplateKey>>)
        ensures
            r@ == self.group_map(),
    {
        &self.groups
    }

    /// Stores an empty template under `key`, in place of what was stored there, and lends
    /// it out to be filled.
    pub fn add_template(&mut self, key: TemplateKey) -> (r: &mut Template<LocaleKey>)
        requires
            Self::keys_obey_model(),
        ensures
            r@ == Seq::<Content<LocaleKey>>::empty(),
            final(self).template_map() == old(self).template_map().insert(key, *final(r)),
            final(self).group_map() == old(self).group_map(),
    {
        self.templates.insert(key, Template::default());
        let ghost staged = self.templates@;
        let slot = value_mut(&mut self.templates, &key);
        assert(staged.insert(key, *final(slot->0)) =~= old(self).templates@.insert(
            key,
            *final(slot->0),
        ));
        slot.unwrap()
    }

    /// The template stored under `key`, open to change, or `None`.
    pub fn get_template(&mut self, key: &TemplateKey) -> (r: Option<&mut Template<LocaleKey>>)
        requires
            Self::keys_obey_model(),
        ensures
            final(self).group_map() == old(self).group_map(),
            match r {
                Some(t) => {
                    &&& old(self).template_map().contains_key(*key)
                    &&& *t == old(self).template_map()[*key]
                    &&& final(self).template_map() == old(self).template_map().insert(
                        *key,
                        *final(t),
                    )
                },
                None => {
                    &&& !old(self).template_map().contains_key(*key)
                    &&& final(self).template_map() == old(self).template_map()
                },
            },
    {
        value_mut(&mut self.templates, key)
    }

    /// Takes the template stored under `key` out of the builder, or gives `None`.
    pub fn remove_template(&mut self, key: &TemplateKey) -> (r: Option<Template<LocaleKey>>)
        requires
            Self::keys_obey_model(),
        ensures
            final(self).group_map() == old(self).group_map(),
            final(self).template_map() == old(self).template_map().remove(*key),
            match r {
                Some(t) => old(self).template_map().contains_key(*key) && t == old(self).template_map()[*key],
                None => !old(self).template_map().contains_key(*key),
            },
    {
        self.templates.remove(key)
    }

    /// Stores an empty group under `key`, in place of what was stored there, and lends it
    /// out to be filled.
    pub fn add_group(&mut self, key: GroupKey) -> (r: &mut HashMap<GroupMemberKey, TemplateKey>)
        requires
            Self::keys_obey_model(),
        ensures
            r@ == Map::<GroupMemberKey, TemplateKey>::empty(),
            final(self).group_map() == old(self).group_map().insert(key, *final(r)),
            final(self).template_map() == old(self).template_map(),
    {
        self.groups.insert(key, HashMap::new());
        let ghost staged = self.groups@;
        let slot = value_mut(&mut self.groups, &key);
        assert(staged.insert(key, *final(slot->0)) =~= old(self).groups@.insert(
            key,
            *final(slot->0),
        ));
        slot.unwrap()
    }

    /// The group stored under `key`, open to change, or `None`.
    pub fn get_group(&mut self, key: &GroupKey) -> (r: Option<
        &mut HashMap<GroupMemberKey, TemplateKey>,
    >)
        requires
            Self::keys_obey_model(),
        ensures
            final(self).template_map() == old(self).template_map(),
            match r {
                Some(g) => {
                    &&& old(self).group_map().contains_key(*key)
                    &&& *g == old(self).group_map()[*key]
                    &&& final(self).group_map() == old(self).group_map().insert(*key, *final(g))
                },
                None => {
                    &&& !old(self).group_map().contains_key(*key)
                    &&& final(self).group_map() == old(self).group_map()
                },
            },
    {
        value_mut(&mut self.groups, key)
    }

    /// Takes the group stored under `key` out of the builder, or gives `None`.
    pub fn remove_group(&mut self, key: &GroupKey) -> (r: Option<
        HashMap<GroupMemberKey, TemplateKey>,
    >)
        requires
            Self::keys_obey_model(),
        ensures
            final(self).template_map() == old(self).template_map(),
            final(self).group_map() == old(self).group_map().remove(*key),
            match r {
                Some(g) => old(self).group_map().contains_key(*key) && g == old(self).group_map()[*key],
                None => !old(self).group_map().contains_key(*key),
            },
    {
        self.groups.remove(key)
    }

    /// The dangling group references of the staged configuration.
    pub open spec fn spec_violations(&self) -> Set<(GroupKey, GroupMemberKey, TemplateKey)> {
        dangling_refs(self.group_map(), self.template_map().dom())
    }

    /// Lists every group member that points at a template which is not staged, each
    /// once and none left out, in no particular order. The list is empty exactly when
    /// every reference is good.
    pub fn check_group_config_validity(&self) -> (found: Vec<
        (GroupKey, GroupMemberKey, TemplateKey),
    >)
        requires
            Self::keys_obey_model(),
        ensures
            found@.no_duplicates(),
            found@.to_set() == self.spec_violations(),
    {
        let ghost wanted = self.spec_violations();
        let ghost group_walk = spec_hash_map_iter(&self.groups).remaining();
        let mut found: Vec<(GroupKey, GroupMemberKey, TemplateKey)> = Vec::new();
        for group in groups_it: self.groups.iter()
            invariant
                Self::keys_obey_model(),
                wanted == self.spec_violations(),
                groups_it.seq() == group_walk,
                group_walk == spec_hash_map_iter(&self.groups).remaining(),
                group_walk.no_duplicates(),
                found@.no_duplicates(),
                forall|n: int|
                    0 <= n < found@.len() ==> wanted.contains(#[trigger] found@[n])
                        && walked_before(group_walk, groups_it.index(), found@[n].0),
                forall|g: int, r: (GroupKey, GroupMemberKey, TemplateKey)|
                    0 <= g < groups_it.index() && #[trigger] wanted.contains(r) && r.0
                        == #[trigger] walked_key(group_walk, g) ==> found@.contains(r),
        {
            let ghost g_now = groups_it.index();
            let group_key = group.0;
            let members = group.1;
            let ghost member_walk = spec_hash_map_iter(members).remaining();
            proof {
                lemma_iter_is_walk(&self.groups);
                assert(walked_key(group_walk, g_now) == *group_key);
                assert(self.groups@[*group_key] == *members);
            }
            for member in members_it: members.iter()
                invariant
                    Self::keys_obey_model(),
                    wanted == self.spec_violations(),
                    group_walk == spec_hash_map_iter(&self.groups).remaining(),
                    is_walk_of(group_walk, self.groups@),
                    0 <= g_now < group_walk.len(),
                    walked_key(group_walk, g_now) == *group_key,
                    self.groups@.contains_key(*group_key),
                    self.groups@[*group_key] == *members,
                    members_it.seq() == member_walk,
                    member_walk == spec_hash_map_iter(members).remaining(),
                    member_walk.no_duplicates(),
                    found@.no_duplicates(),
                    forall|n: int|
                        0 <= n < found@.len() ==> wanted.contains(#[trigger] found@[n]) && (
                        walked_before(group_walk, g_now, found@[n].0) || (found@[n].0 == *group_key
                            && walked_before(member_walk, members_it.index(), found@[n].1))),
                    forall|g: int, r: (GroupKey, GroupMemberKey, TemplateKey)|
                        0 <= g < g_now && #[trigger] wanted.contains(r) && r.0
                            == #[trigger] walked_key(group_walk, g) ==> found@.contains(r),
                    forall|m: int, r: (GroupKey, GroupMemberKey, TemplateKey)|
                        0 <= m < members_it.index() && #[trigger] wanted.contains(r) && r.0
                            == *group_key && r.1 == #[trigger] walked_key(member_walk, m)
                            ==> found@.contains(r),
            {
                let ghost m_now = members_it.index();
                let member_key = member.0;
                let template_key = member.1;
                proof {
                    lemma_iter_is_walk(members);
                    assert(walked_key(member_walk, m_now) == *member_key);
                    assert(members@[*member_key] == *template_key);
                }
                if !self.templates.contains_key(template_key) {
                    let ghost earlier = found@;
                    let reference = (*group_key, *member_key, *template_key);
                    proof {
                        assert(wanted.contains(reference));
                        assert(!earlier.contains(reference)) by {
                            if earlier.contains(reference) {
                                let n = choose|n: int|
                                    0 <= n < earlier.len() && earlier[n] == reference;
                                assert(wanted.contains(earlier[n]));
                                if walked_before(group_walk, g_now, reference.0) {
                                    let g = choose|g: int|
                                        0 <= g < g_now && walked_key(group_walk, g) == reference.0;
                                    assert(walked_key(group_walk, g) == walked_key(
                                        group_walk,
                                        g_now,
                                    ));
                                } else {
                                    let m = choose|m: int|
                                        0 <= m < m_now && walked_key(member_walk, m)
                                            == reference.1;
                                    assert(walked_key(member_walk, m) == walked_key(
                                        member_walk,
                                        m_now,
                                    ));
                                }
                            }
                        }
                    }
                    found.push(reference);
                    proof {
                        assert forall|n: int| 0 <= n < found@.len() implies wanted.contains(
                            #[trigger] found@[n],
                        ) && (walked_before(group_walk, g_now, found@[n].0) || (found@[n].0
                            == *group_key && walked_before(member_walk, m_now + 1, found@[n].1))) by {
                            if n < earlier.len() {
                                assert(found@[n] == earlier[n]);
                                if !walked_before(group_walk, g_now, earlier[n].0) {
                                    let m = choose|m: int|
                                        0 <= m < m_now && walked_key(member_walk, m)
                                            == earlier[n].1;
                                    assert(walked_key(member_walk, m) == found@[n].1);
                                }
                            } else {
                                assert(walked_key(member_walk, m_now) == found@[n].1);
                            }
                        }
                        assert forall|r: (GroupKey, GroupMemberKey, TemplateKey)|
                            earlier.contains(r) implies found@.contains(r) by {
                            let n = choose|n: int| 0 <= n < earlier.len() && earlier[n] == r;
                            assert(found@[n] == r);
                        }
                        assert(found@[earlier.len() as int] == reference);
                    }
                } else {
                    proof {
                        assert forall|r: (GroupKey, GroupMemberKey, TemplateKey)|
                            wanted.contains(r) && r.0 == *group_key && r.1 == walked_key(
                                member_walk,
                                m_now,
                            ) implies false by {
                            assert(r.2 == *template_key);
                        }
                        assert forall|n: int| 0 <= n < found@.len() implies wanted.contains(
                            #[trigger] found@[n],
                        ) && (walked_before(group_walk, g_now, found@[n].0) || (found@[n].0
                            == *group_key && walked_before(member_walk, m_now + 1, found@[n].1))) by {
                            if !walked_before(group_walk, g_now, found@[n].0) {
                                let m = choose|m: int|
                                    0 <= m < m_now && walked_key(member_walk, m) == found@[n].1;
                                assert(walked_key(member_walk, m) == found@[n].1);
                            }
                        }
                    }
                }
            }
            proof {
                lemma_iter_is_walk(members);
                assert forall|n: int| 0 <= n < found@.len() implies walked_before(
                    group_walk,
                    g_now + 1,
                    (#[trigger] found@[n]).0,
                ) by {
                    if walked_before(group_walk, g_now, found@[n].0) {
                        let g = choose|g: int|
                            0 <= g < g_now && walked_key(group_walk, g) == found@[n].0;
                        assert(walked_key(group_walk, g) == found@[n].0);
                    } else {
                        assert(walked_key(group_walk, g_now) == found@[n].0);
                    }
                }
                assert forall|r: (GroupKey, GroupMemberKey, TemplateKey)|
                    wanted.contains(r) && r.0 == walked_key(
                        group_walk,
                        g_now,
                    ) implies found@.contains(r) by {
                    assert(members@.contains_key(r.1));
                    let m = choose|m: int|
                        0 <= m < member_walk.len() && walked_key(member_walk, m) == r.1;
                    assert(walked_key(member_walk, m) == r.1);
                }
            }
        }
        proof {
            lemma_iter_is_walk(&self.groups);
            assert forall|r: (GroupKey, GroupMemberKey, TemplateKey)|
                found@.to_set().contains(r) == wanted.contains(r) by {
                if found@.contains(r) {
                    let n = choose|n: int| 0 <= n < found@.len() && found@[n] == r;
                    assert(wanted.contains(found@[n]));
                }
                if wanted.contains(r) {
                    assert(self.groups@.contains_key(r.0));
                    let g = choose|g: int|
                        0 <= g < group_walk.len() && walked_key(group_walk, g) == r.0;
                    assert(walked_key(group_walk, g) == r.0);
                }
            }
            assert(found@.to_set() =~= wanted);
        }
        found
    }

    /// What a build that starts from `engine` comes to: what `built_over` says for the
    /// templates in some order that visits each of them once. A hash map does not say
    /// in which order it is walked, and the builder takes the order as it comes.
    pub open spec fn built(&self, engine: tera::Tera, r: Result<Terrarist, TerraristBuilderError>) -> bool {
        exists|walk: Seq<(&TemplateKey, &Template<LocaleKey>)>|
            is_walk_of(walk, self.template_map()) && #[trigger] built_over(
                walk_table(walk),
                engine,
                r,
            )
    }

    /// Compiles every variant of every staged template into the fresh engine `engine`,
    /// and stops at the first handle name that comes twice or body that the engine
    /// refuses. The groups are not looked at.
    pub fn build_with(self, engine: tera::Tera) -> (r: Result<Terrarist, TerraristBuilderError>)
        requires
            Self::keys_obey_model(),
            engine_intact(engine),
            compiled_names(engine) == Set::<Seq<char>>::empty(),
        ensures
            self.built(engine, r),
    {
        let ghost walk = spec_hash_map_iter(&self.templates).remaining();
        let ghost table = walk_table(walk);
        let mut filling = engine;
        let mut filed: StringMap<bool> = StringMap::new();
        let mut counter: u128 = 1;
        let staged = self.templates.len();
        proof {
            axiom_spec_hash_map_iter(&self.templates);
            assert(filed@.dom() =~= compiled_names(filling));
        }
        for entry in it: self.templates.iter()
            invariant
                Self::keys_obey_model(),
                it.seq() == walk,
                walk == spec_hash_map_iter(&self.templates).remaining(),
                walk.no_duplicates(),
                walk.len() == staged,
                table == walk_table(walk),
                counter == first_counter(table, it.index()),
                counter - 1 <= it.index() * 0xFFFF_FFFF_FFFF_FFFF,
                filling == engine_before(engine, table, it.index()),
                engine_intact(filling),
                compiled_names(filling) == handles_before(table, it.index()),
                filed.wf(),
                filed@.dom() == compiled_names(filling),
                all_compiled(engine, table, it.index()),
        {
            let ghost position = it.index();
            let contents = entry.1.contents();
            let count = contents.len();
            proof {
                assert(contents@ == table[position]);
            }
            match compile_template(&mut filling, &mut filed, &mut counter, contents) {
                Ok(_) => {
                    proof {
                        assert(template_ok(engine, table, position));
                    }
                },
                Err(stop) => {
                    let ghost halted = stop;
                    let error = match stop {
                        CompileStop::NameRepeated(name) => {
                            TerraristBuilderError::HandleNameRepeated(name)
                        },
                        CompileStop::Refused(e) => TerraristBuilderError::TemplateBuildingError(e),
                    };
                    proof {
                        assert(stops_in(halted, engine, table, position));
                        assert(compile_stops(halted, engine, table));
                        lemma_stop_excludes_success(halted, engine, table);
                        assert(error == stop_error(halted));
                        lemma_iter_is_walk(&self.templates);
                        assert(built_over(walk_table(walk), engine, Err(error)));
                    }
                    return Err(error);
                },
            }
        }
        let repo = Terrarist { tera: filling };
        proof {
            lemma_iter_is_walk(&self.templates);
            assert(built_over(walk_table(walk), engine, Ok(repo)));
        }
        Ok(repo)
    }

    /// Compiles every variant of every staged template into a fresh engine: what `built`
    /// says of the build for that engine.
    pub fn build(self) -> (r: Result<Terrarist, TerraristBuilderError>)
        requires
            Self::keys_obey_model(),
        ensures
            exists|engine: tera::Tera|
                engine_intact(engine) && compiled_names(engine) == Set::<Seq<char>>::empty()
                    && #[trigger] self.built(engine, r),
            (forall|k: TemplateKey|
                self.template_map().contains_key(k) ==> (#[trigger] self.template_map()[k])@.len()
                    == 0) ==> r is Ok,
    {
        let engine = tera::Tera::default();
        let ghost fresh = engine;
        let r = self.build_with(engine);
        proof {
            assert(self.built(fresh, r));
            if forall|k: TemplateKey|
                self.template_map().contains_key(k) ==> (#[trigger] self.template_map()[k])@.len()
                    == 0 {
                let walk = choose|walk: Seq<(&TemplateKey, &Template<LocaleKey>)>|
                    is_walk_of(walk, self.template_map()) && #[trigger] built_over(
                        walk_table(walk),
                        fresh,
                        r,
                    );
                let table = walk_table(walk);
                assert forall|i: int| 0 <= i < table.len() implies #[trigger] template_ok(
                    fresh,
                    table,
                    i,
                ) by {
                    assert(self.template_map().contains_key(walked_key(walk, i)));
                    assert(self.template_map()[walked_key(walk, i)]@.len() == 0);
                    assert(table[i].len() == 0);
                }
            }
        }
        r
    }
}

} // verus!
