//! The string-keyed repository: a builder that stages templates and groups, and the
//! repository it yields, which renders one template or a whole group. The expansion of
//! a compiled template comes from the caller as a function; the repository decides which
//! handle is expanded and what becomes of the answer.
use crate::compile::{
    all_compiled, compile_stops, compile_template, engine_before, first_counter, handle_at,
    handles_before, lemma_stop_excludes_success, stops_in, template_ok, CompileStop,
};
use crate::engine::{compiled_names, engine_intact};
use crate::string_map::StringMap;
use crate::template::{Content, Template};
use vstd::prelude::*;

verus! {

/// A group reference that points at no template: the group's key, the member's key and
/// the template key that is missing, each by its characters.
pub type Violation = (Seq<char>, Seq<char>, Seq<char>);

/// The references of one group, in the order of its members.
pub open spec fn member_refs(group_key: Seq<char>, members: StringMap<String>) -> Seq<Violation> {
    Seq::new(
        members.key_seq().len(),
        |i: int| (group_key, members.key_seq()[i], members.value_seq()[i]@),
    )
}

/// The test that a reference points at none of `templates`.
pub open spec fn dangling(templates: Set<Seq<char>>) -> spec_fn(Violation) -> bool {
    |r: Violation| !templates.contains(r.2)
}

/// The dangling references of one group, in the order of its members.
pub open spec fn group_violations(
    group_key: Seq<char>,
    members: StringMap<String>,
    templates: Set<Seq<char>>,
) -> Seq<Violation> {
    member_refs(group_key, members).filter(dangling(templates))
}

/// The dangling references of each group, in the order of the groups.
pub open spec fn violations_by_group(
    groups: StringMap<StringMap<String>>,
    templates: Set<Seq<char>>,
) -> Seq<Seq<Violation>> {
    Seq::new(
        groups.key_seq().len(),
        |g: int| group_violations(groups.key_seq()[g], groups.value_seq()[g], templates),
    )
}

/// All dangling references: group after group, and within a group member after member.
pub open spec fn violations(
    groups: StringMap<StringMap<String>>,
    templates: Set<Seq<char>>,
) -> Seq<Violation> {
    violations_by_group(groups, templates).flatten()
}

/// Reported violations, each component by its characters.
pub open spec fn violation_texts(found: Seq<(String, String, String)>) -> Seq<Violation> {
    found.map_values(|t: (String, String, String)| (t.0@, t.1@, t.2@))
}

/// A table of groups is well formed when the table and each group in it are.
pub open spec fn groups_wf(groups: StringMap<StringMap<String>>) -> bool {
    &&& groups.wf()
    &&& forall|g: int| 0 <= g < groups.value_seq().len() ==> (#[trigger] groups.value_seq()[g]).wf()
}

/// Collects the members of one group.
pub struct TemplateGroupBuilder {
    group: StringMap<String>,
}

impl Default for TemplateGroupBuilder {
    fn default() -> (b: Self)
        ensures
            b.members().wf(),
            b.members()@ == Map::<Seq<char>, String>::empty(),
            b.members().key_seq() == Seq::<Seq<char>>::empty(),
    {
        TemplateGroupBuilder { group: StringMap::new() }
    }
}

impl TemplateGroupBuilder {
    /// The members collected so far.
    pub closed spec fn members(&self) -> StringMap<String> {
        self.group
    }

    /// Binds `member_key` to `template_key`. A member that was already bound is rebound
    /// and keeps its position.
    pub fn add_member(self, member_key: String, template_key: String) -> (b: Self)
        requires
            self.members().wf(),
        ensures
            b.members().wf(),
            b.members()@ == self.members()@.insert(member_key@, template_key),
            self.members().inserted(&b.members(), member_key@, template_key),
    {
        let mut b = self;
        b.group.insert(member_key, template_key);
        b
    }

    /// The group that was collected.
    pub fn build(self) -> (group: StringMap<String>)
        ensures
            group == self.members(),
    {
        self.group
    }
}

/// Whether one of `languages` is `locale`.
pub open spec fn tags(languages: Seq<String>, locale: Seq<char>) -> bool {
    exists|k: int| 0 <= k < languages.len() && (#[trigger] languages[k])@ == locale
}

/// Whether some variant among `contents` serves a locale at all.
pub open spec fn has_tagged(contents: Seq<Content<String>>) -> bool {
    exists|j: int| 0 <= j < contents.len() && (#[trigger] contents[j]).is_tagged()
}

/// The variants of each staged template, in the order of the templates.
pub open spec fn variant_table(templates: StringMap<Template<String>>) -> Seq<
    Seq<Content<String>>,
> {
    templates.value_seq().map_values(|t: Template<String>| t@)
}

/// The position of the last variant among `contents` that serves `locale`, or -1 where
/// none does.
pub open spec fn serving_variant(contents: Seq<Content<String>>, locale: Seq<char>) -> int
    decreases contents.len(),
{
    if contents.len() == 0 {
        -1
    } else if tags(contents.last().languages@, locale) {
        contents.len() - 1
    } else {
        serving_variant(contents.drop_last(), locale)
    }
}

/// For template `i`, with only its first `upto` variants taken into account: each locale
/// that one of them serves, bound to the handle of the last one that serves it.
pub open spec fn locale_handles(table: Seq<Seq<Content<String>>>, i: int, upto: int) -> Map<
    Seq<char>,
    Seq<char>,
> {
    Map::new(
        |l: Seq<char>| serving_variant(table[i].take(upto), l) >= 0,
        |l: Seq<char>| handle_at(table, i, serving_variant(table[i].take(upto), l)),
    )
}

/// The index of the first `n` staged templates: a template has an entry when one of its
/// variants serves a locale, and the entry is its `locale_handles`.
pub open spec fn expected_index_upto(templates: StringMap<Template<String>>, n: int) -> Index {
    let table = variant_table(templates);
    Map::new(
        |t: Seq<char>|
            templates@.contains_key(t) && templates.key_seq().index_of(t) < n && has_tagged(
                table[templates.key_seq().index_of(t)],
            ),
        |t: Seq<char>|
            locale_handles(
                table,
                templates.key_seq().index_of(t),
                table[templates.key_seq().index_of(t)].len() as int,
            ),
    )
}

/// The index that `build` makes of the staged templates.
pub open spec fn expected_index(templates: StringMap<Template<String>>) -> Index {
    expected_index_upto(templates, templates.key_seq().len() as int)
}

/// `locales` with every one of `languages` bound to `handle`.
pub open spec fn overlay(
    locales: Map<Seq<char>, Seq<char>>,
    languages: Seq<String>,
    handle: Seq<char>,
) -> Map<Seq<char>, Seq<char>> {
    Map::new(
        |l: Seq<char>| locales.contains_key(l) || tags(languages, l),
        |l: Seq<char>|
            if tags(languages, l) {
                handle
            } else {
                locales[l]
            },
    )
}

/// Taking one more variant into account overlays its locales with its handle.
pub proof fn lemma_locale_handles_step(table: Seq<Seq<Content<String>>>, i: int, j: int)
    requires
        0 <= i < table.len(),
        0 <= j < table[i].len(),
    ensures
        locale_handles(table, i, j + 1) == overlay(
            locale_handles(table, i, j),
            table[i][j].languages@,
            handle_at(table, i, j),
        ),
        has_tagged(table[i].take(j + 1)) == (has_tagged(table[i].take(j))
            || table[i][j].is_tagged()),
{
    let longer = table[i].take(j + 1);
    let shorter = table[i].take(j);
    assert(longer.drop_last() =~= shorter);
    assert(longer.last() == table[i][j]);
    assert(locale_handles(table, i, j + 1) =~= overlay(
        locale_handles(table, i, j),
        table[i][j].languages@,
        handle_at(table, i, j),
    ));
    if has_tagged(longer) {
        let w = choose|w: int| 0 <= w < longer.len() && (#[trigger] longer[w]).is_tagged();
        if w < j {
            assert(shorter[w].is_tagged());
        }
    }
    if has_tagged(shorter) {
        let w = choose|w: int| 0 <= w < shorter.len() && (#[trigger] shorter[w]).is_tagged();
        assert(longer[w].is_tagged());
    }
    if table[i][j].is_tagged() {
        assert(longer[j].is_tagged());
    }
}

/// A variant is served by a position inside the variants, and only where a variant
/// serves a locale.
pub proof fn lemma_serving_variant_bounds(contents: Seq<Content<String>>, locale: Seq<char>)
    ensures
        -1 <= serving_variant(contents, locale) < contents.len(),
        serving_variant(contents, locale) >= 0 ==> tags(
            contents[serving_variant(contents, locale)].languages@,
            locale,
        ),
        serving_variant(contents, locale) >= 0 ==> has_tagged(contents),
        forall|j: int|
            serving_variant(contents, locale) < j < contents.len() ==> !tags(
                (#[trigger] contents[j]).languages@,
                locale,
            ),
    decreases contents.len(),
{
    if contents.len() > 0 {
        let rest = contents.drop_last();
        lemma_serving_variant_bounds(rest, locale);
        let p = serving_variant(contents, locale);
        if p >= 0 {
            let k = choose|k: int|
                0 <= k < contents[p].languages@.len() && (#[trigger] contents[p].languages@[k])@
                    == locale;
            assert(contents[p].is_tagged());
        }
        assert forall|j: int| p < j < contents.len() implies !tags(
            (#[trigger] contents[j]).languages@,
            locale,
        ) by {
            if j < contents.len() - 1 {
                assert(rest[j] == contents[j]);
            }
        }
    }
}

/// Why a repository could not be built.
#[derive(Debug)]
pub enum TerariumBuilderError {
    /// The engine refused a template body; its diagnostic is inside.
    TemplateBuildingError(tera::Error),
    /// Some group members point at templates that do not exist: all of them are listed,
    /// each as group key, member key and missing template key.
    GroupIntegrityProblem(Vec<(String, String, String)>),
    /// Two variants lay claim to the handle name inside: a caller chose it twice, or
    /// chose a name that the counter also makes.
    HandleNameRepeated(String),
}

/// The builder's error for a stop of the compiling.
pub open spec fn stop_error(stop: CompileStop) -> TerariumBuilderError {
    match stop {
        CompileStop::NameRepeated(name) => TerariumBuilderError::HandleNameRepeated(name),
        CompileStop::Refused(e) => TerariumBuilderError::TemplateBuildingError(e),
    }
}

impl From<tera::Error> for TerariumBuilderError {
    fn from(value: tera::Error) -> (e: Self) {
        TerariumBuilderError::TemplateBuildingError(value)
    }
}

impl vstd::std_specs::convert::FromSpecImpl<tera::Error> for TerariumBuilderError {
    open spec fn obeys_from_spec() -> bool {
        true
    }

    open spec fn from_spec(v: tera::Error) -> Self {
        TerariumBuilderError::TemplateBuildingError(v)
    }
}

/// Binds every one of `languages` to `handle` in `locales`, over what was bound before.
pub fn record_variant(locales: &mut StringMap<String>, languages: &Vec<String>, handle: &String)
    requires
        old(locales).wf(),
    ensures
        final(locales).wf(),
        final(locales).text_view() == overlay(old(locales).text_view(), languages@, handle@),
        (final(locales).key_seq().len() > 0) == (old(locales).key_seq().len() > 0
            || languages@.len() > 0),
{
    let mut k: usize = 0;
    proof {
        assert(locales.text_view() =~= overlay(
            old(locales).text_view(),
            languages@.take(0),
            handle@,
        ));
    }
    while k < languages.len()
        invariant
            k <= languages@.len(),
            locales.wf(),
            locales.text_view() == overlay(
                old(locales).text_view(),
                languages@.take(k as int),
                handle@,
            ),
            (locales.key_seq().len() > 0) == (old(locales).key_seq().len() > 0 || k > 0),
        decreases languages@.len() - k,
    {
        let ghost before = locales.text_view();
        let ghost shorter = languages@.take(k as int);
        let ghost longer = languages@.take(k as int + 1);
        locales.insert(languages[k].clone(), handle.clone());
        proof {
            let locale = languages@[k as int]@;
            assert(locales.text_view() =~= before.insert(locale, handle@));
            assert(longer[k as int]@ == locale);
            assert forall|l: Seq<char>| tags(longer, l) == (tags(shorter, l) || l == locale) by {
                if tags(longer, l) {
                    let w = choose|w: int| 0 <= w < longer.len() && (#[trigger] longer[w])@ == l;
                    if w < k {
                        assert(shorter[w]@ == l);
                    }
                }
                if tags(shorter, l) {
                    let w = choose|w: int| 0 <= w < shorter.len() && (#[trigger] shorter[w])@ == l;
                    assert(longer[w]@ == l);
                }
            }
            assert(before.insert(locale, handle@) =~= overlay(
                old(locales).text_view(),
                longer,
                handle@,
            ));
        }
        k += 1;
    }
    proof {
        assert(languages@.take(k as int) =~= languages@);
    }
}

/// The staging area: templates and groups by key, open to change until `build`.
pub struct TerariumBuilder {
    templates: StringMap<Template<String>>,
    groups: StringMap<StringMap<String>>,
}

impl Default for TerariumBuilder {
    fn default() -> (b: Self)
        ensures
            b.wf(),
            b.template_table().key_seq() == Seq::<Seq<char>>::empty(),
            b.group_table().key_seq() == Seq::<Seq<char>>::empty(),
    {
        TerariumBuilder { templates: StringMap::new(), groups: StringMap::new() }
    }
}

impl TerariumBuilder {
    /// The staged templates by key.
    pub closed spec fn template_table(&self) -> StringMap<Template<String>> {
        self.templates
    }

    /// The staged groups by key.
    pub closed spec fn group_table(&self) -> StringMap<StringMap<String>> {
        self.groups
    }

    /// Both tables and every staged group are well formed.
    pub open spec fn wf(&self) -> bool {
        &&& self.template_table().wf()
        &&& groups_wf(self.group_table())
    }

    /// The dangling group references of the staged configuration.
    pub open spec fn spec_violations(&self) -> Seq<Violation> {
        violations(self.group_table(), self.template_table()@.dom())
    }

    /// The staged templates.
    pub fn templates(&self) -> (r: &StringMap<Template<String>>)
        ensures
            *r == self.template_table(),
    {
        &self.templates
    }

    /// The staged groups.
    pub fn groups(&self) -> (r: &StringMap<StringMap<String>>)
        ensures
            *r == self.group_table(),
    {
        &self.groups
    }

    /// Stores `template` under `key`, in place of what was stored there.
    pub fn add_template(self, key: String, template: Template<String>) -> (b: Self)
        requires
            self.wf(),
        ensures
            b.wf(),
            b.template_table()@ == self.template_table()@.insert(key@, template),
            self.template_table().inserted(&b.template_table(), key@, template),
            b.group_table() == self.group_table(),
    {
        let mut b = self;
        b.templates.insert(key, template);
        b
    }

    /// Stores `group` under `key`, in place of what was stored there.
    pub fn add_group(self, key: String, group: StringMap<String>) -> (b: Self)
        requires
            self.wf(),
            group.wf(),
        ensures
            b.wf(),
            b.group_table()@ == self.group_table()@.insert(key@, group),
            self.group_table().inserted(&b.group_table(), key@, group),
            b.template_table() == self.template_table(),
    {
        let mut b = self;
        b.groups.insert(key, group);
        b
    }

    /// The template stored under `key`, open to change, or `None`.
    pub fn get_template(&mut self, key: &String) -> (r: Option<&mut Template<String>>)
        requires
            old(self).wf(),
        ensures
            final(self).wf(),
            final(self).group_table() == old(self).group_table(),
            final(self).template_table().key_seq() == old(self).template_table().key_seq(),
            match r {
                Some(t) => {
                    &&& old(self).template_table()@.contains_key(key@)
                    &&& *t == old(self).template_table()@[key@]
                    &&& final(self).template_table()@ == old(self).template_table()@.insert(
                        key@,
                        *final(t),
                    )
                },
                None => {
                    &&& !old(self).template_table()@.contains_key(key@)
                    &&& final(self).template_table()@ == old(self).template_table()@
                },
            },
    {
        self.templates.get_mut(key.as_str())
    }

    /// Takes the template stored under `key` out of the builder, or gives `None`.
    pub fn remove_template(&mut self, key: &String) -> (r: Option<Template<String>>)
        requires
            old(self).wf(),
        ensures
            final(self).wf(),
            final(self).group_table() == old(self).group_table(),
            final(self).template_table()@ == old(self).template_table()@.remove(key@),
            old(self).template_table().removed(&final(self).template_table(), key@),
            match r {
                Some(t) => old(self).template_table()@.contains_key(key@) && t == old(self).template_table()@[key@],
                None => !old(self).template_table()@.contains_key(key@),
            },
    {
        self.templates.remove(key.as_str())
    }

    /// The group stored under `key`, open to change, or `None`. The builder stays well
    /// formed as long as the group does.
    pub fn get_group(&mut self, key: &String) -> (r: Option<&mut StringMap<String>>)
        requires
            old(self).wf(),
        ensures
            final(self).template_table() == old(self).template_table(),
            final(self).group_table().key_seq() == old(self).group_table().key_seq(),
            match r {
                Some(g) => {
                    &&& old(self).group_table()@.contains_key(key@)
                    &&& *g == old(self).group_table()@[key@]
                    &&& g.wf()
                    &&& final(self).group_table()@ == old(self).group_table()@.insert(
                        key@,
                        *final(g),
                    )
                    &&& final(g).wf() ==> final(self).wf()
                },
                None => {
                    &&& !old(self).group_table()@.contains_key(key@)
                    &&& final(self).group_table()@ == old(self).group_table()@
                    &&& final(self).wf()
                },
            },
    {
        proof {
            self.groups.lemma_entries();
        }
        self.groups.get_mut(key.as_str())
    }

    /// Takes the group stored under `key` out of the builder, or gives `None`.
    pub fn remove_group(&mut self, key: &String) -> (r: Option<StringMap<String>>)
        requires
            old(self).wf(),
        ensures
            final(self).wf(),
            final(self).template_table() == old(self).template_table(),
            final(self).group_table()@ == old(self).group_table()@.remove(key@),
            old(self).group_table().removed(&final(self).group_table(), key@),
            match r {
                Some(g) => old(self).group_table()@.contains_key(key@) && g == old(self).group_table()@[key@] && g.wf(),
                None => !old(self).group_table()@.contains_key(key@),
            },
    {
        proof {
            self.groups.lemma_entries();
        }
        self.groups.remove(key.as_str())
    }

    /// Lists every group member that points at a template which is not staged: group
    /// after group and member after member, none left out. The list is empty exactly when
    /// every reference is good.
    pub fn check_group_config_validity(&self) -> (found: Vec<(String, String, String)>)
        requires
            self.wf(),
        ensures
            violation_texts(found@) == self.spec_violations(),
    {
        let ghost templates = self.template_table()@.dom();
        let ghost by_group = violations_by_group(self.group_table(), templates);
        let group_keys = self.groups.keys();
        let group_values = self.groups.values();
        let mut found: Vec<(String, String, String)> = Vec::new();
        let mut g: usize = 0;
        assert(by_group.take(0) =~= Seq::<Seq<Violation>>::empty());
        assert(violation_texts(found@) =~= Seq::<Violation>::empty());
        while g < group_keys.len()
            invariant
                self.wf(),
                templates == self.template_table()@.dom(),
                by_group == violations_by_group(self.group_table(), templates),
                g <= group_keys@.len(),
                group_keys@.len() == self.group_table().key_seq().len(),
                forall|i: int|
                    0 <= i < group_keys@.len() ==> (#[trigger] group_keys@[i])@
                        == self.group_table().key_seq()[i],
                group_values@ == self.group_table().value_seq(),
                violation_texts(found@) == by_group.take(g as int).flatten(),
            decreases group_keys@.len() - g,
        {
            let members = &group_values[g];
            let member_keys = members.keys();
            let member_values = members.values();
            let ghost group_key = group_keys@[g as int]@;
            let ghost refs = member_refs(group_key, *members);
            let ghost before = violation_texts(found@);
            let mut m: usize = 0;
            assert(refs.take(0) =~= Seq::<Violation>::empty());
            proof {
                reveal(Seq::filter);
                assert(before + refs.take(0).filter(dangling(templates)) =~= before);
            }
            while m < member_keys.len()
                invariant
                    self.wf(),
                    members.wf(),
                    templates == self.template_table()@.dom(),
                    refs == member_refs(group_key, *members),
                    g < group_keys@.len(),
                    group_keys@[g as int]@ == group_key,
                    m <= member_keys@.len(),
                    member_keys@.len() == members.key_seq().len(),
                    forall|i: int|
                        0 <= i < member_keys@.len() ==> (#[trigger] member_keys@[i])@
                            == members.key_seq()[i],
                    member_values@ == members.value_seq(),
                    violation_texts(found@) == before + refs.take(m as int).filter(
                        dangling(templates),
                    ),
                decreases member_keys@.len() - m,
            {
                let ghost item = refs[m as int];
                proof {
                    assert(refs.take(m as int + 1) =~= refs.take(m as int).push(item));
                    refs.take(m as int).lemma_filter_push(item, dangling(templates));
                }
                if !self.templates.contains_key(member_values[m].as_str()) {
                    let ghost earlier = found@;
                    found.push(
                        (group_keys[g].clone(), member_keys[m].clone(), member_values[m].clone()),
                    );
                    proof {
                        assert(violation_texts(found@) =~= violation_texts(earlier).push(item));
                        assert(before + refs.take(m as int).filter(dangling(templates)).push(item)
                            =~= (before + refs.take(m as int).filter(dangling(templates))).push(
                            item,
                        ));
                    }
                }
                m += 1;
            }
            proof {
                assert(refs.take(m as int) =~= refs);
                assert(by_group[g as int] == group_violations(group_key, *members, templates));
                assert(by_group.take(g as int + 1) =~= by_group.take(g as int).push(
                    by_group[g as int],
                ));
                by_group.take(g as int).lemma_flatten_push(by_group[g as int]);
            }
            g += 1;
        }
        proof {
            assert(by_group.take(g as int) =~= by_group);
        }
        found
    }

    /// What a build that starts from `engine` comes to.
    ///
    /// A configuration with dangling group references is refused with all of them listed.
    /// Otherwise the build succeeds exactly when every variant is filed: no handle name
    /// comes twice and the engine accepts every body. The repository then holds the index
    /// `expected_index`, the staged groups and the engine that has filed every variant
    /// under its handle name. Otherwise the error is the stop of the compiling: the name
    /// that came twice, or the engine's diagnostic for the first body it refused.
    pub open spec fn built(&self, engine: tera::Tera, r: Result<Terarium, TerariumBuilderError>) -> bool {
        let table = variant_table(self.template_table());
        if self.spec_violations().len() > 0 {
            r matches Err(TerariumBuilderError::GroupIntegrityProblem(found)) && violation_texts(
                found@,
            ) == self.spec_violations()
        } else {
            &&& r is Ok <==> all_compiled(engine, table, table.len() as int)
            &&& match r {
                Ok(repo) => {
                    &&& repo.wf()
                    &&& repo.index() == expected_index(self.template_table())
                    &&& repo.group_table() == self.group_table()
                    &&& repo.engine() == engine_before(engine, table, table.len() as int)
                    &&& compiled_names(repo.engine()) == handles_before(table, table.len() as int)
                },
                Err(TerariumBuilderError::TemplateBuildingError(e)) => compile_stops(
                    CompileStop::Refused(e),
                    engine,
                    table,
                ),
                Err(TerariumBuilderError::HandleNameRepeated(name)) => compile_stops(
                    CompileStop::NameRepeated(name),
                    engine,
                    table,
                ),
                Err(TerariumBuilderError::GroupIntegrityProblem(_)) => false,
            }
        }
    }

    /// Builds the repository in the fresh engine `engine`, or says why it cannot be
    /// built. Nothing is compiled while a group reference dangles; after that the
    /// variants are handed to the engine template after template and variant after
    /// variant, and the first stop ends the build.
    pub fn build_with(self, engine: tera::Tera) -> (r: Result<Terarium, TerariumBuilderError>)
        requires
            self.wf(),
            engine_intact(engine),
            compiled_names(engine) == Set::<Seq<char>>::empty(),
        ensures
            self.built(engine, r),
    {
        let found = self.check_group_config_validity();
        if found.len() > 0 {
            return Err(TerariumBuilderError::GroupIntegrityProblem(found));
        }
        let ghost fresh = engine;
        let ghost templates = self.template_table();
        let ghost table = variant_table(templates);
        let keys = self.templates.keys();
        let staged = self.templates.values();
        let mut filling = engine;
        let mut filed: StringMap<bool> = StringMap::new();
        let mut index: StringMap<StringMap<String>> = StringMap::new();
        let mut counter: u128 = 1;
        let mut i: usize = 0;
        proof {
            assert(index_of_table(index) =~= expected_index_upto(templates, 0));
            assert(filed@.dom() =~= compiled_names(filling));
        }
        while i < keys.len()
            invariant
                self.spec_violations().len() == 0,
                fresh == engine,
                templates == self.template_table(),
                templates.wf(),
                table == variant_table(templates),
                i <= keys@.len(),
                keys@.len() == templates.key_seq().len(),
                forall|k: int|
                    0 <= k < keys@.len() ==> (#[trigger] keys@[k])@ == templates.key_seq()[k],
                staged@ == templates.value_seq(),
                groups_wf(index),
                index_of_table(index) == expected_index_upto(templates, i as int),
                forall|t: Seq<char>, l: Seq<char>|
                    index_of_table(index).contains_key(t) && #[trigger] index_of_table(
                        index,
                    )[t].contains_key(l) ==> compiled_names(filling).contains(
                        index_of_table(index)[t][l],
                    ),
                counter == first_counter(table, i as int),
                counter - 1 <= i * 0xFFFF_FFFF_FFFF_FFFF,
                filling == engine_before(fresh, table, i as int),
                engine_intact(filling),
                compiled_names(filling) == handles_before(table, i as int),
                filed.wf(),
                filed@.dom() == compiled_names(filling),
                all_compiled(fresh, table, i as int),
            decreases keys@.len() - i,
        {
            let contents = staged[i].contents();
            let count = contents.len();
            assert(contents@ == table[i as int]);
            assert(i < table.len());
            let handles = match compile_template(&mut filling, &mut filed, &mut counter, contents) {
                Ok(handles) => handles,
                Err(stop) => {
                    let ghost halted = stop;
                    let error = match stop {
                        CompileStop::NameRepeated(name) => {
                            TerariumBuilderError::HandleNameRepeated(name)
                        },
                        CompileStop::Refused(e) => TerariumBuilderError::TemplateBuildingError(e),
                    };
                    proof {
                        assert(stops_in(halted, fresh, table, i as int));
                        assert(compile_stops(halted, fresh, table));
                        lemma_stop_excludes_success(halted, fresh, table);
                        assert(error == stop_error(halted));
                    }
                    return Err(error);
                },
            };
            assert(template_ok(fresh, table, i as int));
            let mut locales: StringMap<String> = StringMap::new();
            let mut j: usize = 0;
            proof {
                assert(table[i as int].take(0) =~= Seq::<Content<String>>::empty());
                assert(locales.text_view() =~= locale_handles(table, i as int, 0));
            }
            while j < contents.len()
                invariant
                    table == variant_table(templates),
                    i < table.len(),
                    i < keys@.len(),
                    keys@.len() == templates.key_seq().len(),
                    staged@ == templates.value_seq(),
                    contents@ == table[i as int],
                    j <= contents@.len(),
                    handles@.len() == contents@.len(),
                    forall|q: int|
                        0 <= q < handles@.len() ==> (#[trigger] handles@[q])@ == handle_at(
                            table,
                            i as int,
                            q,
                        ),
                    forall|q: int|
                        0 <= q < handles@.len() ==> compiled_names(filling).contains(
                            #[trigger] handle_at(table, i as int, q),
                        ),
                    locales.wf(),
                    locales.text_view() == locale_handles(table, i as int, j as int),
                    (locales.key_seq().len() > 0) == has_tagged(table[i as int].take(j as int)),
                    forall|l: Seq<char>| #[trigger]
                        locales.text_view().contains_key(l) ==> compiled_names(filling).contains(
                            locales.text_view()[l],
                        ),
                decreases contents@.len() - j,
            {
                proof {
                    lemma_locale_handles_step(table, i as int, j as int);
                }
                record_variant(&mut locales, &contents[j].languages, &handles[j]);
                j += 1;
            }
            proof {
                assert(table[i as int].take(j as int) =~= table[i as int]);
                templates.lemma_entries();
                index.lemma_entries();
                let key = templates.key_seq()[i as int];
                assert(templates.key_seq().index_of(key) == i);
                let target = expected_index_upto(templates, i as int + 1);
                if has_tagged(table[i as int]) {
                    assert(target =~= expected_index_upto(templates, i as int).insert(
                        key,
                        locale_handles(table, i as int, table[i as int].len() as int),
                    ));
                } else {
                    assert(target =~= expected_index_upto(templates, i as int));
                }
            }
            if !locales.is_empty() {
                let ghost before = index;
                index.insert(keys[i].clone(), locales);
                proof {
                    let key = templates.key_seq()[i as int];
                    assert(index_of_table(index) =~= index_of_table(before).insert(
                        key,
                        locales.text_view(),
                    ));
                    assert(groups_wf(index)) by {
                        assert forall|g: int| 0 <= g < index.value_seq().len() implies (
                        #[trigger] index.value_seq()[g]).wf() by {
                            if g < before.value_seq().len() && index.value_seq()[g]
                                != locales {
                                assert(index.value_seq()[g] == before.value_seq()[g]);
                            }
                        }
                    }
                }
            }
            i += 1;
        }
        proof {
            assert(expected_index_upto(templates, i as int) =~= expected_index(templates));
        }
        Ok(Terarium { tera: filling, template_map: index, groups: self.groups })
    }

    /// Builds the repository in a fresh engine, or says why it cannot be built: what
    /// `built` says of the build for that engine.
    pub fn build(self) -> (r: Result<Terarium, TerariumBuilderError>)
        requires
            self.wf(),
        ensures
            exists|engine: tera::Tera|
                engine_intact(engine) && compiled_names(engine) == Set::<Seq<char>>::empty()
                    && #[trigger] self.built(engine, r),
            self.spec_violations().len() > 0 ==> r matches Err(
                TerariumBuilderError::GroupIntegrityProblem(_),
            ),
            self.spec_violations().len() == 0 && (forall|i: int|
                0 <= i < variant_table(self.template_table()).len() ==> (
                #[trigger] variant_table(self.template_table())[i]).len() == 0) ==> r is Ok,
    {
        let engine = tera::Tera::default();
        let ghost fresh = engine;
        let r = self.build_with(engine);
        proof {
            assert(self.built(fresh, r));
            let table = variant_table(self.template_table());
            if self.spec_violations().len() == 0 && (forall|i: int|
                0 <= i < table.len() ==> (#[trigger] table[i]).len() == 0) {
                assert forall|i: int| 0 <= i < table.len() implies #[trigger] template_ok(
                    fresh,
                    table,
                    i,
                ) by {
                    assert(table[i].len() == 0);
                }
            }
        }
        r
    }
}

/// Why a render failed.
#[derive(Debug)]
pub enum TerariumError {
    /// The repository has no entry for the template key.
    TemplateNotFound,
    /// The template has a variant neither for the language nor for the fallback.
    LanguageNotFound,
    /// The repository has no group under the group key.
    GroupNotFound,
    /// The engine failed to expand the template; its diagnostic is inside.
    RenderingFailed(tera::Error),
}

impl From<tera::Error> for TerariumError {
    fn from(value: tera::Error) -> (e: Self) {
        TerariumError::RenderingFailed(value)
    }
}

impl vstd::std_specs::convert::FromSpecImpl<tera::Error> for TerariumError {
    open spec fn obeys_from_spec() -> bool {
        true
    }

    open spec fn from_spec(v: tera::Error) -> Self {
        TerariumError::RenderingFailed(v)
    }
}

/// For each template key, the handle name that serves each locale.
pub type Index = Map<Seq<char>, Map<Seq<char>, Seq<char>>>;

/// The index that a table of handle names stands for.
pub open spec fn index_of_table(table: StringMap<StringMap<String>>) -> Index {
    table@.map_values(|locales: StringMap<String>| locales.text_view())
}

/// An optional text by its characters.
pub open spec fn text_of(text: Option<&str>) -> Option<Seq<char>> {
    match text {
        Some(t) => Some(t@),
        None => None,
    }
}

/// The handle that serves `template_key` in `language`: the one filed for the language
/// itself, else the one filed for the fallback, if a fallback is given.
pub open spec fn resolve(
    index: Index,
    template_key: Seq<char>,
    language: Seq<char>,
    fallback: Option<Seq<char>>,
) -> Result<Seq<char>, TerariumError> {
    if !index.contains_key(template_key) {
        Err(TerariumError::TemplateNotFound)
    } else if index[template_key].contains_key(language) {
        Ok(index[template_key][language])
    } else {
        match fallback {
            Some(f) if index[template_key].contains_key(f) => Ok(index[template_key][f]),
            _ => Err(TerariumError::LanguageNotFound),
        }
    }
}

/// What a render returns once the engine has answered: its text, or its diagnostic as
/// `RenderingFailed`.
pub open spec fn rendered_as(answer: Result<String, tera::Error>) -> Result<String, TerariumError> {
    match answer {
        Ok(text) => Ok(text),
        Err(e) => Err(TerariumError::RenderingFailed(e)),
    }
}

/// What a render returns once the engine has answered.
pub fn rendered(answer: Result<String, tera::Error>) -> (r: Result<String, TerariumError>)
    ensures
        r == rendered_as(answer),
{
    match answer {
        Ok(text) => Ok(text),
        Err(e) => Err(TerariumError::from(e)),
    }
}

/// Whether `answer` is something that `render` gives when it is asked to expand the
/// handle named `handle` in `engine`.
pub open spec fn answered<F: Fn(&tera::Tera, &str) -> Result<String, tera::Error>>(
    render: &F,
    engine: tera::Tera,
    handle: Seq<char>,
    answer: Result<String, tera::Error>,
) -> bool {
    exists|name: &str| name@ == handle && #[trigger] call_ensures(render, (&engine, name), answer)
}

/// Files what rendering a member came to: a text goes under the member's key, behind
/// the texts filed before; a failure is handed on and leaves the texts as they were.
pub fn file_member(
    texts: &mut StringMap<String>,
    member_key: &String,
    outcome: Result<String, TerariumError>,
) -> (r: Result<(), TerariumError>)
    requires
        old(texts).wf(),
    ensures
        final(texts).wf(),
        match outcome {
            Ok(text) => r is Ok && old(texts).inserted(final(texts), member_key@, text),
            Err(reason) => r == Err::<(), TerariumError>(reason) && *final(texts) == *old(texts),
        },
{
    match outcome {
        Ok(text) => {
            texts.insert(member_key.clone(), text);
            Ok(())
        },
        Err(reason) => Err(reason),
    }
}

/// Two tables hold the same groups in the same order, and each group the same members
/// in the same order.
pub open spec fn same_table(a: StringMap<StringMap<String>>, b: StringMap<StringMap<String>>) -> bool {
    &&& a.key_seq() == b.key_seq()
    &&& a.value_seq().len() == b.value_seq().len()
    &&& forall|g: int|
        0 <= g < a.value_seq().len() ==> (#[trigger] a.value_seq()[g]).key_seq()
            == b.value_seq()[g].key_seq() && a.value_seq()[g].value_seq()
            == b.value_seq()[g].value_seq()
}

/// Tables that hold the same groups are well formed together and stand for the same
/// index.
pub proof fn lemma_same_table(a: StringMap<StringMap<String>>, b: StringMap<StringMap<String>>)
    requires
        same_table(a, b),
    ensures
        groups_wf(a) == groups_wf(b),
        groups_wf(a) ==> index_of_table(a) == index_of_table(b),
{
    if groups_wf(a) {
        assert forall|g: int| 0 <= g < b.value_seq().len() implies (#[trigger] b.value_seq()[g]).wf() by {
            assert(a.value_seq()[g].wf());
        }
    }
    if groups_wf(b) {
        assert forall|g: int| 0 <= g < a.value_seq().len() implies (#[trigger] a.value_seq()[g]).wf() by {
            assert(b.value_seq()[g].wf());
        }
    }
    if groups_wf(a) {
        a.lemma_entries();
        b.lemma_entries();
        assert forall|k: Seq<char>| #[trigger]
            index_of_table(a).contains_key(k) == index_of_table(b).contains_key(k) by {
            if a@.contains_key(k) {
                assert(b.key_seq()[a.key_seq().index_of(k)] == k);
            }
            if b@.contains_key(k) {
                assert(a.key_seq()[b.key_seq().index_of(k)] == k);
            }
        }
        assert forall|k: Seq<char>| #[trigger]
            index_of_table(a).contains_key(k) implies index_of_table(a)[k] == index_of_table(
            b,
        )[k] by {
            let g = a.key_seq().index_of(k);
            assert(a.value_seq()[g].key_seq() == b.value_seq()[g].key_seq());
            assert(a@[k]@ =~= b@[k]@);
            assert(a@[k].text_view() =~= b@[k].text_view());
        }
        assert(index_of_table(a) =~= index_of_table(b));
    }
}

/// The built repository: the engine with the compiled variants, the index from template
/// key and locale to handle name, and the groups.
pub struct Terarium {
    tera: tera::Tera,
    template_map: StringMap<StringMap<String>>,
    groups: StringMap<StringMap<String>>,
}

impl Default for Terarium {
    fn default() -> (repo: Self)
        ensures
            repo.wf(),
            repo.index() == Map::<Seq<char>, Map<Seq<char>, Seq<char>>>::empty(),
            repo.group_table().key_seq() == Seq::<Seq<char>>::empty(),
    {
        let repo = Terarium {
            tera: tera::Tera::default(),
            template_map: StringMap::new(),
            groups: StringMap::new(),
        };
        assert(repo.index() =~= Map::<Seq<char>, Map<Seq<char>, Seq<char>>>::empty());
        repo
    }
}

impl Clone for Terarium {
    /// A second repository with the same engine contents, index and groups.
    fn clone(&self) -> (copy: Self)
        ensures
            compiled_names(copy.engine()) == compiled_names(self.engine()),
            same_table(copy.handle_table(), self.handle_table()),
            same_table(copy.group_table(), self.group_table()),
            self.wf() ==> copy.wf() && copy.index() == self.index(),
    {
        let copy = Terarium {
            tera: self.tera.clone(),
            template_map: self.template_map.table_copy(),
            groups: self.groups.table_copy(),
        };
        proof {
            lemma_same_table(copy.template_map, self.template_map);
            lemma_same_table(copy.groups, self.groups);
            if self.wf() {
                assert(copy.index() == self.index());
                assert forall|t: Seq<char>, l: Seq<char>|
                    copy.index().contains_key(t) && #[trigger] copy.index()[t].contains_key(
                        l,
                    ) implies compiled_names(copy.engine()).contains(copy.index()[t][l]) by {
                    assert(self.index()[t].contains_key(l));
                }
            }
        }
        copy
    }
}

impl Terarium {
    /// The engine that holds the compiled variants.
    pub closed spec fn engine(&self) -> tera::Tera {
        self.tera
    }

    /// For each template key, the handle name filed for each locale.
    pub closed spec fn handle_table(&self) -> StringMap<StringMap<String>> {
        self.template_map
    }

    /// The groups by key.
    pub closed spec fn group_table(&self) -> StringMap<StringMap<String>> {
        self.groups
    }

    /// The index from template key and locale to handle name.
    pub open spec fn index(&self) -> Index {
        index_of_table(self.handle_table())
    }

    /// The tables are well formed and every handle in the index is held by the engine.
    pub open spec fn wf(&self) -> bool {
        &&& groups_wf(self.handle_table())
        &&& groups_wf(self.group_table())
        &&& forall|t: Seq<char>, l: Seq<char>|
            self.index().contains_key(t) && #[trigger] self.index()[t].contains_key(l)
                ==> compiled_names(self.engine()).contains(self.index()[t][l])
    }

    /// The groups.
    pub fn groups(&self) -> (r: &StringMap<StringMap<String>>)
        ensures
            *r == self.group_table(),
    {
        &self.groups
    }

    /// The handle name that serves `template_key` in `language`, or the reason why there
    /// is none.
    pub fn resolve_handle(
        &self,
        template_key: &str,
        language: &str,
        fallback_language: Option<&str>,
    ) -> (r: Result<&String, TerariumError>)
        requires
            self.wf(),
        ensures
            match resolve(self.index(), template_key@, language@, text_of(fallback_language)) {
                Ok(handle) => r matches Ok(h) && h@ == handle && compiled_names(
                    self.engine(),
                ).contains(handle),
                Err(reason) => r matches Err(e) && e == reason,
            },
    {
        proof {
            self.template_map.lemma_entries();
        }
        match self.template_map.get(template_key) {
            None => Err(TerariumError::TemplateNotFound),
            Some(locales) => {
                assert(self.index()[template_key@] == locales.text_view());
                match locales.get(language) {
                    Some(handle) => Ok(handle),
                    None => match fallback_language {
                        Some(fallback) => match locales.get(fallback) {
                            Some(handle) => Ok(handle),
                            None => Err(TerariumError::LanguageNotFound),
                        },
                        None => Err(TerariumError::LanguageNotFound),
                    },
                }
            },
        }
    }

    /// What rendering the template under `template_key` comes to, `render` standing for
    /// the engine's expansion: the reason why no handle resolves, or what `render`
    /// answered for the resolved handle, its diagnostic as `RenderingFailed`.
    pub open spec fn template_outcome<F: Fn(&tera::Tera, &str) -> Result<String, tera::Error>>(
        &self,
        render: &F,
        template_key: Seq<char>,
        language: Seq<char>,
        fallback: Option<Seq<char>>,
        outcome: Result<String, TerariumError>,
    ) -> bool {
        match resolve(self.index(), template_key, language, fallback) {
            Err(reason) => outcome == Err::<String, TerariumError>(reason),
            Ok(handle) => exists|answer: Result<String, tera::Error>|
                #[trigger] answered(render, self.engine(), handle, answer) && outcome
                    == rendered_as(answer),
        }
    }

    /// Renders the template under `template_key` in `language`, or in the fallback
    /// language where the template has no variant for `language`.
    ///
    /// The engine's expansion is the caller's `render`: it is called once, with the
    /// repository's engine and the resolved handle name, and only where a handle
    /// resolves.
    pub fn render_template<F: Fn(&tera::Tera, &str) -> Result<String, tera::Error>>(
        &self,
        render: &F,
        template_key: &str,
        language: &str,
        fallback_language: Option<&str>,
    ) -> (r: Result<String, TerariumError>)
        requires
            self.wf(),
            forall|engine: &tera::Tera, handle: &str| call_requires(render, (engine, handle)),
        ensures
            self.template_outcome(
                render,
                template_key@,
                language@,
                text_of(fallback_language),
                r,
            ),
            !self.index().contains_key(template_key@) ==> r matches Err(
                TerariumError::TemplateNotFound,
            ),
    {
        match self.resolve_handle(template_key, language, fallback_language) {
            Ok(handle) => {
                let answer = render(&self.tera, handle.as_str());
                proof {
                    assert(answered(render, self.engine(), handle@, answer));
                }
                rendered(answer)
            },
            Err(reason) => Err(reason),
        }
    }

    /// What rendering the member at position `i` of `members` comes to.
    pub open spec fn member_outcome<F: Fn(&tera::Tera, &str) -> Result<String, tera::Error>>(
        &self,
        render: &F,
        members: StringMap<String>,
        i: int,
        language: Seq<char>,
        fallback: Option<Seq<char>>,
        outcome: Result<String, TerariumError>,
    ) -> bool {
        self.template_outcome(render, members.text_values()[i], language, fallback, outcome)
    }

    /// Whether rendering the member at position `i` of `members` gave a text.
    pub open spec fn member_passes<F: Fn(&tera::Tera, &str) -> Result<String, tera::Error>>(
        &self,
        render: &F,
        members: StringMap<String>,
        i: int,
        language: Seq<char>,
        fallback: Option<Seq<char>>,
    ) -> bool {
        exists|text: String| #[trigger]
            self.member_outcome(
                render,
                members,
                i,
                language,
                fallback,
                Ok::<String, TerariumError>(text),
            )
    }

    /// Rendering the group stops at the member at position `i` with `reason`: every
    /// member before it gave a text, and this one gave `reason`.
    pub open spec fn group_stops_at<F: Fn(&tera::Tera, &str) -> Result<String, tera::Error>>(
        &self,
        render: &F,
        members: StringMap<String>,
        i: int,
        language: Seq<char>,
        fallback: Option<Seq<char>>,
        reason: TerariumError,
    ) -> bool {
        &&& 0 <= i < members.key_seq().len()
        &&& forall|j: int|
            0 <= j < i ==> #[trigger] self.member_passes(render, members, j, language, fallback)
        &&& self.member_outcome(
            render,
            members,
            i,
            language,
            fallback,
            Err::<String, TerariumError>(reason),
        )
    }

    /// Renders every member of the group under `group_key`, each as `render_template`
    /// renders the member's template, and gives the texts by member key.
    ///
    /// The members are rendered in their order and the first failure ends the render: no
    /// part of the result is handed out. A group without members renders to no text.
    pub fn render_group<F: Fn(&tera::Tera, &str) -> Result<String, tera::Error>>(
        &self,
        render: &F,
        group_key: &str,
        language: &str,
        fallback_language: Option<&str>,
    ) -> (r: Result<StringMap<String>, TerariumError>)
        requires
            self.wf(),
            forall|engine: &tera::Tera, handle: &str| call_requires(render, (engine, handle)),
        ensures
            !self.group_table()@.contains_key(group_key@) ==> r matches Err(
                TerariumError::GroupNotFound,
            ),
            self.group_table()@.contains_key(group_key@) && self.group_table()@[group_key@].key_seq().len()
                == 0 ==> r is Ok,
            self.group_table()@.contains_key(group_key@) ==> {
                let members = self.group_table()@[group_key@];
                let fallback = text_of(fallback_language);
                match r {
                    Ok(texts) => {
                        &&& texts.wf()
                        &&& texts.key_seq() == members.key_seq()
                        &&& texts@.dom() == members@.dom()
                        &&& forall|i: int|
                            0 <= i < members.key_seq().len() ==> self.member_outcome(
                                render,
                                members,
                                i,
                                language@,
                                fallback,
                                Ok::<String, TerariumError>(#[trigger] texts.value_seq()[i]),
                            )
                    },
                    Err(reason) => exists|i: int| #[trigger]
                        self.group_stops_at(render, members, i, language@, fallback, reason),
                }
            },
    {
        proof {
            self.groups.lemma_entries();
        }
        let members = match self.groups.get(group_key) {
            Some(members) => members,
            None => { return Err(TerariumError::GroupNotFound); },
        };
        let ghost fallback = text_of(fallback_language);
        let member_keys = members.keys();
        let template_keys = members.values();
        let mut texts: StringMap<String> = StringMap::new();
        let mut i: usize = 0;
        while i < member_keys.len()
            invariant
                self.wf(),
                forall|engine: &tera::Tera, handle: &str| call_requires(render, (engine, handle)),
                members.wf(),
                self.group_table()@.contains_key(group_key@),
                *members == self.group_table()@[group_key@],
                fallback == text_of(fallback_language),
                i <= member_keys@.len(),
                member_keys@.len() == members.key_seq().len(),
                forall|k: int|
                    0 <= k < member_keys@.len() ==> (#[trigger] member_keys@[k])@
                        == members.key_seq()[k],
                template_keys@ == members.value_seq(),
                texts.wf(),
                texts.key_seq() == members.key_seq().take(i as int),
                texts.value_seq().len() == i,
                forall|k: int|
                    0 <= k < i ==> self.member_outcome(
                        render,
                        *members,
                        k,
                        language@,
                        fallback,
                        Ok::<String, TerariumError>(#[trigger] texts.value_seq()[k]),
                    ),
            decreases member_keys@.len() - i,
        {
            let outcome = self.render_template(
                render,
                template_keys[i].as_str(),
                language,
                fallback_language,
            );
            proof {
                assert(template_keys@[i as int]@ == members.text_values()[i as int]);
                assert(self.member_outcome(render, *members, i as int, language@, fallback, outcome));
                members.lemma_entries();
                texts.lemma_entries();
                assert(!texts@.contains_key(members.key_seq()[i as int])) by {
                    if texts@.contains_key(members.key_seq()[i as int]) {
                        let k = texts.key_seq().index_of(members.key_seq()[i as int]);
                        assert(members.key_seq()[k] == members.key_seq()[i as int]);
                    }
                }
                assert(members.key_seq().take(i as int + 1) =~= members.key_seq().take(
                    i as int,
                ).push(members.key_seq()[i as int]));
            }
            let ghost earlier = texts;
            match file_member(&mut texts, &member_keys[i], outcome) {
                Ok(()) => {},
                Err(reason) => {
                    proof {
                        assert forall|j: int| 0 <= j < i implies #[trigger] self.member_passes(
                            render,
                            *members,
                            j,
                            language@,
                            fallback,
                        ) by {
                            assert(self.member_outcome(
                                render,
                                *members,
                                j,
                                language@,
                                fallback,
                                Ok::<String, TerariumError>(earlier.value_seq()[j]),
                            ));
                        }
                        assert(self.group_stops_at(
                            render,
                            *members,
                            i as int,
                            language@,
                            fallback,
                            reason,
                        ));
                    }
                    return Err(reason);
                },
            }
            proof {
                assert forall|k: int| 0 <= k < i + 1 implies self.member_outcome(
                    render,
                    *members,
                    k,
                    language@,
                    fallback,
                    Ok::<String, TerariumError>(#[trigger] texts.value_seq()[k]),
                ) by {
                    if k < i {
                        assert(texts.value_seq()[k] == earlier.value_seq()[k]);
                    }
                }
            }
            i += 1;
        }
        proof {
            assert(members.key_seq().take(i as int) =~= members.key_seq());
            assert(texts@.dom() =~= members@.dom());
        }
        Ok(texts)
    }
}

} // verus!
