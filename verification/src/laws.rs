//! What holds of the repository whatever the engine does.
//!
//! Each function here is a theorem over the spec functions in which the contracts of the
//! builder and of the repository are written.
use crate::string_map::StringMap;
use crate::template::Template;
use crate::compile::handle_at;
use crate::terarium::{
    dangling, expected_index, group_violations, groups_wf, has_tagged,
    lemma_serving_variant_bounds, locale_handles, member_refs, resolve, serving_variant, tags,
    variant_table, violations, violations_by_group, Index, TerariumError, Violation,
};
use vstd::prelude::*;

verus! {

/// A reference of a group that points at no template, said over the tables as maps.
pub open spec fn is_dangling_reference(
    groups: StringMap<StringMap<String>>,
    templates: Set<Seq<char>>,
    reference: Violation,
) -> bool {
    &&& groups@.contains_key(reference.0)
    &&& groups@[reference.0]@.contains_key(reference.1)
    &&& groups@[reference.0]@[reference.1]@ == reference.2
    &&& !templates.contains(reference.2)
}

/// An element of a flattened sequence is an element of one of its parts.
pub proof fn lemma_flatten_contains<A>(parts: Seq<Seq<A>>, x: A)
    ensures
        parts.flatten().contains(x) <==> exists|i: int|
            0 <= i < parts.len() && (#[trigger] parts[i]).contains(x),
    decreases parts.len(),
{
    if parts.len() == 0 {
        assert(parts.flatten() =~= Seq::<A>::empty());
    } else {
        let front = parts.drop_last();
        let last = parts.last();
        assert(parts =~= front.push(last));
        front.lemma_flatten_push(last);
        lemma_flatten_contains(front, x);
        let whole = front.flatten() + last;
        if whole.contains(x) {
            let p = choose|p: int| 0 <= p < whole.len() && whole[p] == x;
            if p < front.flatten().len() {
                assert(front.flatten()[p] == x);
                assert(front.flatten().contains(x));
                let i = choose|i: int| 0 <= i < front.len() && (#[trigger] front[i]).contains(x);
                assert(parts[i].contains(x));
            } else {
                assert(last[p - front.flatten().len()] == x);
                assert(parts[parts.len() - 1].contains(x));
            }
        }
        if exists|i: int| 0 <= i < parts.len() && (#[trigger] parts[i]).contains(x) {
            let i = choose|i: int| 0 <= i < parts.len() && (#[trigger] parts[i]).contains(x);
            if i < front.len() {
                assert(front[i].contains(x));
                let p = choose|p: int| 0 <= p < front.flatten().len() && front.flatten()[p] == x;
                assert(whole[p] == x);
            } else {
                let q = choose|q: int| 0 <= q < last.len() && last[q] == x;
                assert(whole[front.flatten().len() + q] == x);
            }
        }
    }
}

/// The violations of one group are exactly its members that point at no template.
pub proof fn lemma_group_violations_exact(
    group_key: Seq<char>,
    members: StringMap<String>,
    templates: Set<Seq<char>>,
    reference: Violation,
)
    requires
        members.wf(),
    ensures
        group_violations(group_key, members, templates).contains(reference) <==> {
            &&& reference.0 == group_key
            &&& members@.contains_key(reference.1)
            &&& members@[reference.1]@ == reference.2
            &&& !templates.contains(reference.2)
        },
{
    let refs = member_refs(group_key, members);
    let test = dangling(templates);
    members.lemma_entries();
    if refs.filter(test).contains(reference) {
        refs.lemma_filter_contains_rev(test, reference);
        let p = choose|p: int| 0 <= p < refs.filter(test).len() && refs.filter(test)[p] == reference;
        refs.lemma_filter_pred(test, p);
        let i = choose|i: int| 0 <= i < refs.len() && refs[i] == reference;
        assert(members@.contains_key(members.key_seq()[i]));
    }
    if reference.0 == group_key && members@.contains_key(reference.1) && members@[reference.1]@
        == reference.2 && !templates.contains(reference.2) {
        let i = members.key_seq().index_of(reference.1);
        assert(refs[i] == reference);
        refs.lemma_filter_contains(test, i);
    }
}

/// The validity check lists exactly the dangling references: a triple is reported if
/// and only if its group has that member, the member points at that template key, and no
/// template is staged under the key. In which order the groups and members are held
/// makes no difference to that.
pub proof fn lemma_violations_exact(
    groups: StringMap<StringMap<String>>,
    templates: Set<Seq<char>>,
    reference: Violation,
)
    requires
        groups_wf(groups),
    ensures
        violations(groups, templates).contains(reference) <==> is_dangling_reference(
            groups,
            templates,
            reference,
        ),
{
    let parts = violations_by_group(groups, templates);
    groups.lemma_entries();
    lemma_flatten_contains(parts, reference);
    if violations(groups, templates).contains(reference) {
        let g = choose|g: int| 0 <= g < parts.len() && (#[trigger] parts[g]).contains(reference);
        lemma_group_violations_exact(
            groups.key_seq()[g],
            groups.value_seq()[g],
            templates,
            reference,
        );
        assert(groups@.contains_key(groups.key_seq()[g]));
    }
    if is_dangling_reference(groups, templates, reference) {
        let g = groups.key_seq().index_of(reference.0);
        lemma_group_violations_exact(
            groups.key_seq()[g],
            groups.value_seq()[g],
            templates,
            reference,
        );
        assert(parts[g].contains(reference));
    }
}

/// Filtering a sequence without repetition leaves a sequence without repetition.
pub proof fn lemma_filter_no_duplicates<A>(s: Seq<A>, test: spec_fn(A) -> bool)
    requires
        s.no_duplicates(),
    ensures
        s.filter(test).no_duplicates(),
    decreases s.len(),
{
    if s.len() == 0 {
        s.lemma_filter_len(test);
    } else {
        let front = s.drop_last();
        let last = s.last();
        assert(s =~= front.push(last));
        front.lemma_filter_push(last, test);
        lemma_filter_no_duplicates(front, test);
        if test(last) {
            if front.filter(test).contains(last) {
                front.lemma_filter_contains_rev(test, last);
                let i = choose|i: int| 0 <= i < front.len() && front[i] == last;
                assert(s[i] == s[s.len() - 1]);
            }
            let kept = front.filter(test);
            assert forall|i: int, j: int|
                0 <= i < kept.push(last).len() && 0 <= j < kept.push(last).len() && i
                    != j implies kept.push(last)[i] != kept.push(last)[j] by {
                if i < kept.len() {
                    assert(kept.contains(kept[i]));
                }
                if j < kept.len() {
                    assert(kept.contains(kept[j]));
                }
            }
        }
    }
}

/// The violations of the first `n` groups hold no triple twice, and each of them
/// belongs to one of those groups.
pub proof fn lemma_violations_prefix(
    groups: StringMap<StringMap<String>>,
    templates: Set<Seq<char>>,
    n: int,
)
    requires
        groups_wf(groups),
        0 <= n <= groups.key_seq().len(),
    ensures
        violations_by_group(groups, templates).take(n).flatten().no_duplicates(),
        forall|p: int|
            0 <= p < violations_by_group(groups, templates).take(n).flatten().len() ==> exists|
                g: int,
            |
                0 <= g < n && groups.key_seq()[g] == (#[trigger] violations_by_group(
                    groups,
                    templates,
                ).take(n).flatten()[p]).0,
    decreases n,
{
    let parts = violations_by_group(groups, templates);
    if n == 0 {
        assert(parts.take(0) =~= Seq::<Seq<Violation>>::empty());
        assert(parts.take(0).flatten() =~= Seq::<Violation>::empty());
    } else {
        lemma_violations_prefix(groups, templates, n - 1);
        let earlier = parts.take(n - 1).flatten();
        let group_key = groups.key_seq()[n - 1];
        let members = groups.value_seq()[n - 1];
        let part = parts[n - 1];
        let refs = member_refs(group_key, members);
        assert(parts.take(n) =~= parts.take(n - 1).push(part));
        parts.take(n - 1).lemma_flatten_push(part);
        assert(refs.no_duplicates()) by {
            assert forall|i: int, j: int|
                0 <= i < refs.len() && 0 <= j < refs.len() && i != j implies refs[i]
                != refs[j] by {
                assert(members.key_seq()[i] != members.key_seq()[j]);
            }
        }
        lemma_filter_no_duplicates(refs, dangling(templates));
        assert forall|q: int| 0 <= q < part.len() implies (#[trigger] part[q]).0 == group_key by {
            assert(part.contains(part[q]));
            refs.lemma_filter_contains_rev(dangling(templates), part[q]);
            let i = choose|i: int| 0 <= i < refs.len() && refs[i] == part[q];
        }
        assert forall|p: int, q: int|
            0 <= p < earlier.len() && 0 <= q < part.len() implies earlier[p] != part[q] by {
            let g = choose|g: int| 0 <= g < n - 1 && groups.key_seq()[g] == earlier[p].0;
            assert(groups.key_seq()[g] != groups.key_seq()[n - 1]);
        }
        vstd::seq_lib::lemma_no_dup_in_concat(earlier, part);
        let whole = earlier + part;
        assert forall|p: int| 0 <= p < whole.len() implies exists|g: int|
            0 <= g < n && groups.key_seq()[g] == (#[trigger] whole[p]).0 by {
            if p < earlier.len() {
                let g = choose|g: int| 0 <= g < n - 1 && groups.key_seq()[g] == earlier[p].0;
                assert(0 <= g < n && groups.key_seq()[g] == whole[p].0);
            } else {
                assert(whole[p] == part[p - earlier.len()]);
                assert(groups.key_seq()[n - 1] == whole[p].0);
            }
        }
    }
}

/// The validity check reports no dangling reference twice.
pub proof fn lemma_violations_no_duplicates(
    groups: StringMap<StringMap<String>>,
    templates: Set<Seq<char>>,
)
    requires
        groups_wf(groups),
    ensures
        violations(groups, templates).no_duplicates(),
{
    let parts = violations_by_group(groups, templates);
    lemma_violations_prefix(groups, templates, parts.len() as int);
    assert(parts.take(parts.len() as int) =~= parts);
}

/// A configuration has no violation exactly when every member of every group points at
/// a staged template.
pub proof fn lemma_valid_configuration(
    groups: StringMap<StringMap<String>>,
    templates: Set<Seq<char>>,
)
    requires
        groups_wf(groups),
    ensures
        violations(groups, templates).len() == 0 <==> forall|g: Seq<char>, m: Seq<char>|
            groups@.contains_key(g) && #[trigger] groups@[g]@.contains_key(m)
                ==> templates.contains(groups@[g]@[m]@),
{
    let all = violations(groups, templates);
    if all.len() == 0 {
        assert forall|g: Seq<char>, m: Seq<char>|
            groups@.contains_key(g) && #[trigger] groups@[g]@.contains_key(
                m,
            ) implies templates.contains(groups@[g]@[m]@) by {
            let reference = (g, m, groups@[g]@[m]@);
            lemma_violations_exact(groups, templates, reference);
            if !templates.contains(groups@[g]@[m]@) {
                assert(is_dangling_reference(groups, templates, reference));
                let p = choose|p: int| 0 <= p < all.len() && all[p] == reference;
            }
        }
    } else {
        let reference = all[0];
        assert(all.contains(reference));
        lemma_violations_exact(groups, templates, reference);
        assert(groups@[reference.0]@.contains_key(reference.1));
    }
}

/// A template key that the index lacks is reported as `TemplateNotFound`, whatever
/// the language and the fallback.
pub proof fn lemma_missing_template(
    index: Index,
    template_key: Seq<char>,
    language: Seq<char>,
    fallback: Option<Seq<char>>,
)
    requires
        !index.contains_key(template_key),
    ensures
        resolve(index, template_key, language, fallback) == Err::<Seq<char>, TerariumError>(
            TerariumError::TemplateNotFound,
        ),
{
}

/// Where a template is indexed under the one locale `only`, another language finds
/// nothing without a fallback, and with the fallback `only` it finds the handle that
/// was compiled for `only`.
pub proof fn lemma_single_locale(
    index: Index,
    template_key: Seq<char>,
    only: Seq<char>,
    language: Seq<char>,
)
    requires
        index.contains_key(template_key),
        index[template_key].dom() == set![only],
        language != only,
    ensures
        resolve(index, template_key, language, None) == Err::<Seq<char>, TerariumError>(
            TerariumError::LanguageNotFound,
        ),
        resolve(index, template_key, language, Some(only)) == Ok::<Seq<char>, TerariumError>(
            index[template_key][only],
        ),
        resolve(index, template_key, only, None) == Ok::<Seq<char>, TerariumError>(
            index[template_key][only],
        ),
{
    assert(index[template_key].dom().contains(only));
    assert(!index[template_key].dom().contains(language));
}

/// A staged template whose variants all serve the one locale `only`, and which has a
/// variant, is indexed under `only` alone, with the handle of its last variant.
pub proof fn lemma_single_locale_template(
    templates: StringMap<Template<String>>,
    template_key: Seq<char>,
    only: Seq<char>,
)
    requires
        templates.wf(),
        templates@.contains_key(template_key),
        templates@[template_key]@.len() > 0,
        templates@[template_key].all_tagged(),
        forall|j: int, k: int|
            0 <= j < templates@[template_key]@.len() && 0 <= k
                < templates@[template_key]@[j].languages@.len() ==> (
            #[trigger] templates@[template_key]@[j].languages@[k])@ == only,
    ensures
        expected_index(templates).contains_key(template_key),
        expected_index(templates)[template_key].dom() == set![only],
        expected_index(templates)[template_key][only] == handle_at(
            variant_table(templates),
            templates.key_seq().index_of(template_key),
            templates@[template_key]@.len() - 1,
        ),
{
    templates.lemma_entries();
    let table = variant_table(templates);
    let i = templates.key_seq().index_of(template_key);
    let contents = table[i];
    assert(contents == templates@[template_key]@);
    let last = contents.len() - 1;
    assert(contents[last].is_tagged());
    assert(has_tagged(contents));
    assert(contents.take(contents.len() as int) =~= contents);
    assert(contents[last].languages@[0]@ == only);
    assert(tags(contents[last].languages@, only));
    assert(serving_variant(contents, only) == last);
    let locales = locale_handles(table, i, contents.len() as int);
    assert forall|l: Seq<char>| locales.dom().contains(l) == set![only].contains(l) by {
        lemma_serving_variant_bounds(contents, l);
        if locales.dom().contains(l) {
            let p = serving_variant(contents, l);
            let k = choose|k: int|
                0 <= k < contents[p].languages@.len() && (#[trigger] contents[p].languages@[k])@
                    == l;
        }
    }
    assert(locales.dom() =~= set![only]);
}

/// What a build files in the index: a staged template is indexed under a locale exactly
/// when one of its variants serves the locale, and then under the handle of the last
/// variant that does.
pub proof fn lemma_index_entry(
    templates: StringMap<Template<String>>,
    template_key: Seq<char>,
    locale: Seq<char>,
)
    requires
        templates.wf(),
        templates@.contains_key(template_key),
    ensures
        ({
            let contents = templates@[template_key]@;
            let i = templates.key_seq().index_of(template_key);
            let index = expected_index(templates);
            let last = serving_variant(contents, locale);
            &&& (index.contains_key(template_key) && index[template_key].contains_key(locale))
                <==> exists|j: int|
                0 <= j < contents.len() && tags((#[trigger] contents[j]).languages@, locale)
            &&& index.contains_key(template_key) && index[template_key].contains_key(locale) ==> {
                &&& 0 <= last < contents.len()
                &&& tags(contents[last].languages@, locale)
                &&& forall|j: int|
                    last < j < contents.len() ==> !tags((#[trigger] contents[j]).languages@, locale)
                &&& index[template_key][locale] == handle_at(variant_table(templates), i, last)
            }
        }),
{
    templates.lemma_entries();
    let table = variant_table(templates);
    let i = templates.key_seq().index_of(template_key);
    let contents = templates@[template_key]@;
    assert(table[i] == contents);
    assert(contents.take(contents.len() as int) =~= contents);
    lemma_serving_variant_bounds(contents, locale);
    let last = serving_variant(contents, locale);
    if exists|j: int| 0 <= j < contents.len() && tags((#[trigger] contents[j]).languages@, locale) {
        let j = choose|j: int|
            0 <= j < contents.len() && tags((#[trigger] contents[j]).languages@, locale);
        assert(last >= j);
    }
}

/// Resolution is repeatable: it depends on the index and on the arguments alone, so two
/// repositories with the same index resolve every request alike, and so does one
/// repository asked twice.
pub proof fn lemma_resolution_repeatable(
    first: Index,
    second: Index,
    template_key: Seq<char>,
    language: Seq<char>,
    fallback: Option<Seq<char>>,
)
    requires
        first.contains_key(template_key) == second.contains_key(template_key),
        first.contains_key(template_key) ==> first[template_key] == second[template_key],
    ensures
        resolve(first, template_key, language, fallback) == resolve(
            second,
            template_key,
            language,
            fallback,
        ),
{
}

} // verus!
