//! Properties of the parser and its parts that hold for all inputs.
use vstd::prelude::*;
use crate::api::{Api, Fallbacks};
use crate::parse::{SpecParsed, SpecError};
use crate::registry::{merged, values_of, SpecEnum, SpecCmd};
use crate::select::{
    SpecFilter, spec_select, select_enums, select_cmds, enum_desired, cmd_desired, fold_features,
    feature_applies, version_found, fold_extensions, required_enums, required_commands, apply_feature,
    removed_enums, removed_commands,
};
use crate::parse::SpecRemove;
use crate::parse::{SpecFeature, SpecExtension};
use crate::text::{spec_trim_str, starts_with, split_from, spec_split, lex_le};

verus! {

/// Trimming a prefix that is there leaves exactly what follows it.
pub proof fn law_trim_prefix(prefix: Seq<char>, rest: Seq<char>)
    ensures
        spec_trim_str(prefix + rest, prefix) == rest,
{
    assert((prefix + rest).subrange(0, prefix.len() as int) =~= prefix);
    assert((prefix + rest).skip(prefix.len() as int) =~= rest);
}

/// Trimming a prefix that is not there changes nothing.
pub proof fn law_trim_absent(s: Seq<char>, prefix: Seq<char>)
    requires
        !starts_with(s, prefix),
    ensures
        spec_trim_str(s, prefix) == s,
{
}

/// The pieces joined with the separator between them.
pub open spec fn join(pieces: Seq<Seq<char>>, sep: char) -> Seq<char>
    decreases pieces.len(),
{
    if pieces.len() == 0 {
        Seq::empty()
    } else if pieces.len() == 1 {
        pieces[0]
    } else {
        join(pieces.drop_last(), sep) + seq![sep] + pieces.last()
    }
}

proof fn lemma_join_extend_last(acc: Seq<Seq<char>>, cur: Seq<char>, c: char, sep: char)
    ensures
        join(acc.push(cur.push(c)), sep) == join(acc.push(cur), sep) + seq![c],
{
    assert(acc.push(cur.push(c)).drop_last() =~= acc);
    assert(acc.push(cur).drop_last() =~= acc);
    if acc.len() == 0 {
        assert(cur.push(c) =~= cur + seq![c]);
    } else {
        assert(join(acc, sep) + seq![sep] + cur.push(c) =~= join(acc, sep) + seq![sep] + cur + seq![c]);
    }
}

proof fn lemma_join_split_from(s: Seq<char>, sep: char, cur: Seq<char>, acc: Seq<Seq<char>>)
    ensures
        join(split_from(s, sep, cur, acc), sep) == join(acc.push(cur), sep) + s,
    decreases s.len(),
{
    if s.len() == 0 {
        assert(join(acc.push(cur), sep) + s =~= join(acc.push(cur), sep));
    } else if s[0] == sep {
        lemma_join_split_from(s.drop_first(), sep, Seq::empty(), acc.push(cur));
        let t = acc.push(cur).push(Seq::<char>::empty());
        assert(t.drop_last() =~= acc.push(cur));
        assert(join(acc.push(cur), sep) + seq![sep] + Seq::<char>::empty() + s.drop_first()
            =~= join(acc.push(cur), sep) + s);
    } else {
        lemma_join_split_from(s.drop_first(), sep, cur.push(s[0]), acc);
        lemma_join_extend_last(acc, cur, s[0], sep);
        assert(join(acc.push(cur), sep) + seq![s[0]] + s.drop_first() =~= join(acc.push(cur), sep) + s);
    }
}

/// Splitting a string at a separator and joining the pieces with it gives
/// the string back.
pub proof fn law_split_join(s: Seq<char>, sep: char)
    ensures
        join(spec_split(s, sep), sep) == s,
{
    lemma_join_split_from(s, sep, Seq::empty(), Seq::empty());
    assert(Seq::<Seq<char>>::empty().push(Seq::<char>::empty()).len() == 1);
    assert(Seq::<char>::empty() + s =~= s);
}

/// Every string comes no later than itself, so a feature whose number is
/// the wanted version counts when it is of the API.
pub proof fn law_lex_le_reflexive(a: Seq<char>)
    ensures
        lex_le(a, a),
    decreases a.len(),
{
    if a.len() > 0 {
        law_lex_le_reflexive(a.drop_first());
    }
}

/// Any two strings are ordered one way or the other.
pub proof fn law_lex_le_total(a: Seq<char>, b: Seq<char>)
    ensures
        lex_le(a, b) || lex_le(b, a),
    decreases a.len(),
{
    if a.len() > 0 && b.len() > 0 && a[0] == b[0] {
        law_lex_le_total(a.drop_first(), b.drop_first());
    }
}

/// The order of strings is transitive.
pub proof fn law_lex_le_transitive(a: Seq<char>, b: Seq<char>, c: Seq<char>)
    requires
        lex_le(a, b),
        lex_le(b, c),
    ensures
        lex_le(a, c),
    decreases a.len(),
{
    if a.len() > 0 && b.len() > 0 && c.len() > 0 && a[0] == b[0] && b[0] == c[0] {
        law_lex_le_transitive(a.drop_first(), b.drop_first(), c.drop_first());
    }
}

/// A feature of the API whose number is the wanted version counts.
pub proof fn law_wanted_version_applies(f: SpecFeature, api: Api, version: Seq<char>)
    requires
        f.api == api,
        f.number == version,
    ensures
        feature_applies(f, api, version),
{
    law_lex_le_reflexive(version);
}

/// Merging in an empty map changes nothing.
pub proof fn law_merge_empty_right(a: Map<Seq<char>, Seq<Seq<char>>>)
    ensures
        merged(a, Map::empty()) == a,
{
    assert forall|k: Seq<char>| #[trigger] merged(a, Map::empty()).contains_key(k) implies merged(a, Map::empty())[k] == a[k] by {
        assert(values_of(a, k) + Seq::<Seq<char>>::empty() =~= a[k]);
    }
    assert(merged(a, Map::empty()) =~= a);
}

/// Merging into an empty map gives the merged-in map.
pub proof fn law_merge_empty_left(b: Map<Seq<char>, Seq<Seq<char>>>)
    ensures
        merged(Map::empty(), b) == b,
{
    assert forall|k: Seq<char>| #[trigger] merged(Map::empty(), b).contains_key(k) implies merged(Map::empty(), b)[k] == b[k] by {
        assert(Seq::<Seq<char>>::empty() + values_of(b, k) =~= b[k]);
    }
    assert(merged(Map::empty(), b) =~= b);
}

/// Merging maps in turn is associative: the values under a key keep the
/// order of the maps they came from.
pub proof fn law_merge_associative(
    a: Map<Seq<char>, Seq<Seq<char>>>,
    b: Map<Seq<char>, Seq<Seq<char>>>,
    c: Map<Seq<char>, Seq<Seq<char>>>,
)
    ensures
        merged(merged(a, b), c) == merged(a, merged(b, c)),
{
    let l = merged(merged(a, b), c);
    let r = merged(a, merged(b, c));
    assert forall|k: Seq<char>| #[trigger] l.contains_key(k) implies l[k] == r[k] by {
        assert(values_of(a, k) + values_of(b, k) + values_of(c, k) =~= values_of(a, k) + (values_of(b, k) + values_of(c, k)));
        if !merged(a, b).contains_key(k) {
            assert(values_of(a, k) + values_of(b, k) =~= Seq::<Seq<char>>::empty());
        }
        if !merged(b, c).contains_key(k) {
            assert(values_of(b, k) + values_of(c, k) =~= Seq::<Seq<char>>::empty());
        }
    }
    assert(l =~= r);
}

/// The selected registry is of the API asked for.
pub proof fn law_registry_api(api: Api, filter: SpecFilter, parsed: SpecParsed)
    ensures
        spec_select(api, filter, parsed) matches Ok(r) ==> r.api == api,
{
}

/// Without the wanted version among the features, selection fails, and
/// says which version it missed.
pub proof fn law_version_required(api: Api, filter: SpecFilter, parsed: SpecParsed)
    requires
        !version_found(parsed.features, filter.version),
    ensures
        spec_select(api, filter, parsed) == Err::<crate::registry::SpecRegistry, SpecError>(
            SpecError::VersionNotFound(filter.version),
        ),
{
}

/// Aliases are dropped exactly when the filter turns fallbacks off, and
/// otherwise kept as read.
pub proof fn law_aliases_follow_fallbacks(api: Api, filter: SpecFilter, parsed: SpecParsed)
    ensures
        spec_select(api, filter, parsed) matches Ok(r) ==> {
            &&& filter.fallbacks == Fallbacks::Disabled ==> r.aliases == Map::<Seq<char>, Seq<Seq<char>>>::empty()
            &&& filter.fallbacks == Fallbacks::All ==> r.aliases == parsed.aliases
        },
{
}

/// The selected enums are exactly the wanted ones among those read, in the
/// order they were read.
pub proof fn law_selected_enums(desired: Set<Seq<char>>, es: Seq<SpecEnum>)
    ensures
        forall|i: int| 0 <= i < select_enums(desired, es).len()
            ==> enum_desired(desired, #[trigger] select_enums(desired, es)[i]) && es.contains(select_enums(desired, es)[i]),
        forall|j: int| 0 <= j < es.len() && enum_desired(desired, #[trigger] es[j])
            ==> select_enums(desired, es).contains(es[j]),
        select_enums(desired, es).len() <= es.len(),
    decreases es.len(),
{
    if es.len() > 0 {
        let t = es.drop_last();
        law_selected_enums(desired, t);
        let sel = select_enums(desired, es);
        let st = select_enums(desired, t);
        assert forall|i: int| 0 <= i < sel.len() implies enum_desired(desired, #[trigger] sel[i]) && es.contains(sel[i]) by {
            if i < st.len() {
                assert(sel[i] == st[i]);
                let j = choose|j: int| 0 <= j < t.len() && t[j] == st[i];
                assert(es[j] == sel[i]);
            } else {
                assert(es[es.len() - 1] == sel[i]);
            }
        }
        assert forall|j: int| 0 <= j < es.len() && enum_desired(desired, #[trigger] es[j]) implies sel.contains(es[j]) by {
            if j < t.len() {
                assert(t[j] == es[j]);
                let i = choose|i: int| 0 <= i < st.len() && st[i] == t[j];
                assert(sel[i] == es[j]);
            } else {
                assert(sel[sel.len() - 1] == es[j]);
            }
        }
    }
}

/// The selected commands are exactly the wanted ones among those read, in
/// the order they were read.
pub proof fn law_selected_cmds(desired: Set<Seq<char>>, cs: Seq<SpecCmd>)
    ensures
        forall|i: int| 0 <= i < select_cmds(desired, cs).len()
            ==> cmd_desired(desired, #[trigger] select_cmds(desired, cs)[i]) && cs.contains(select_cmds(desired, cs)[i]),
        forall|j: int| 0 <= j < cs.len() && cmd_desired(desired, #[trigger] cs[j])
            ==> select_cmds(desired, cs).contains(cs[j]),
        select_cmds(desired, cs).len() <= cs.len(),
    decreases cs.len(),
{
    if cs.len() > 0 {
        let t = cs.drop_last();
        law_selected_cmds(desired, t);
        let sel = select_cmds(desired, cs);
        let st = select_cmds(desired, t);
        assert forall|i: int| 0 <= i < sel.len() implies cmd_desired(desired, #[trigger] sel[i]) && cs.contains(sel[i]) by {
            if i < st.len() {
                assert(sel[i] == st[i]);
                let j = choose|j: int| 0 <= j < t.len() && t[j] == st[i];
                assert(cs[j] == sel[i]);
            } else {
                assert(cs[cs.len() - 1] == sel[i]);
            }
        }
        assert forall|j: int| 0 <= j < cs.len() && cmd_desired(desired, #[trigger] cs[j]) implies sel.contains(cs[j]) by {
            if j < t.len() {
                assert(t[j] == cs[j]);
                let i = choose|i: int| 0 <= i < st.len() && st[i] == t[j];
                assert(sel[i] == cs[j]);
            } else {
                assert(sel[sel.len() - 1] == cs[j]);
            }
        }
    }
}

/// A feature that does not count (another API, or a later version) has no
/// effect on the wanted names, wherever it stands among the features.
pub proof fn law_other_features_ignored(
    before: Seq<SpecFeature>,
    f: SpecFeature,
    after: Seq<SpecFeature>,
    api: Api,
    filter: SpecFilter,
)
    requires
        !feature_applies(f, api, filter.version),
    ensures
        fold_features(before + seq![f] + after, api, filter) == fold_features(before + after, api, filter),
    decreases after.len(),
{
    if after.len() == 0 {
        assert((before + seq![f] + after).drop_last() =~= before);
        assert(before + after =~= before);
    } else {
        law_other_features_ignored(before, f, after.drop_last(), api, filter);
        assert((before + seq![f] + after).drop_last() =~= before + seq![f] + after.drop_last());
        assert((before + after).drop_last() =~= before + after.drop_last());
        assert((before + seq![f] + after).last() == after.last());
        assert((before + after).last() == after.last());
    }
}

/// An extension that is not requested has no effect, wherever it stands
/// among the extensions.
pub proof fn law_unrequested_extension_ignored(
    before: Seq<SpecExtension>,
    x: SpecExtension,
    after: Seq<SpecExtension>,
    api: Api,
    requested: Seq<Seq<char>>,
    init: (Set<Seq<char>>, Set<Seq<char>>),
)
    requires
        !requested.contains(x.name),
    ensures
        fold_extensions(before + seq![x] + after, api, requested, init)
            == fold_extensions(before + after, api, requested, init),
    decreases after.len(),
{
    if after.len() == 0 {
        assert((before + seq![x] + after).drop_last() =~= before);
        assert(before + after =~= before);
    } else {
        law_unrequested_extension_ignored(before, x, after.drop_last(), api, requested, init);
        assert((before + seq![x] + after).drop_last() =~= before + seq![x] + after.drop_last());
        assert((before + after).drop_last() =~= before + after.drop_last());
        assert((before + seq![x] + after).last() == after.last());
        assert((before + after).last() == after.last());
    }
}

/// The extensions only ever add wanted names.
pub proof fn law_extensions_only_add(
    xs: Seq<SpecExtension>,
    api: Api,
    requested: Seq<Seq<char>>,
    init: (Set<Seq<char>>, Set<Seq<char>>),
)
    ensures
        fold_extensions(xs, api, requested, init) matches Ok(d) ==> init.0.subset_of(d.0) && init.1.subset_of(d.1),
    decreases xs.len(),
{
    if xs.len() > 0 {
        law_extensions_only_add(xs.drop_last(), api, requested, init);
    }
}

/// Every enum and command that a requested extension requires is wanted,
/// whenever selection by extensions succeeds.
pub proof fn law_requested_extension_wanted(
    xs: Seq<SpecExtension>,
    api: Api,
    requested: Seq<Seq<char>>,
    init: (Set<Seq<char>>, Set<Seq<char>>),
    i: int,
)
    requires
        0 <= i < xs.len(),
        requested.contains(xs[i].name),
    ensures
        fold_extensions(xs, api, requested, init) matches Ok(d) ==>
            required_enums(xs[i].requires).subset_of(d.0) && required_commands(xs[i].requires).subset_of(d.1),
    decreases xs.len(),
{
    let t = xs.drop_last();
    if i < xs.len() - 1 {
        assert(t[i] == xs[i]);
        law_requested_extension_wanted(t, api, requested, init, i);
    }
}

proof fn lemma_features_same_filter(fs: Seq<SpecFeature>, api: Api, f1: SpecFilter, f2: SpecFilter)
    requires
        f1.profile == f2.profile,
        f1.version == f2.version,
    ensures
        fold_features(fs, api, f1) == fold_features(fs, api, f2),
    decreases fs.len(),
{
    if fs.len() > 0 {
        lemma_features_same_filter(fs.drop_last(), api, f1, f2);
    }
}

proof fn lemma_extensions_same_requests(
    xs: Seq<SpecExtension>,
    api: Api,
    r1: Seq<Seq<char>>,
    r2: Seq<Seq<char>>,
    init: (Set<Seq<char>>, Set<Seq<char>>),
)
    requires
        forall|n: Seq<char>| r1.contains(n) == r2.contains(n),
    ensures
        fold_extensions(xs, api, r1, init) == fold_extensions(xs, api, r2, init),
    decreases xs.len(),
{
    if xs.len() > 0 {
        lemma_extensions_same_requests(xs.drop_last(), api, r1, r2, init);
        assert(r1.contains(xs.last().name) == r2.contains(xs.last().name));
    }
}

/// Only which extensions are requested matters: not their order, nor
/// whether a name is given twice.
pub proof fn law_requested_extensions_as_set(api: Api, f1: SpecFilter, f2: SpecFilter, parsed: SpecParsed)
    requires
        f1.fallbacks == f2.fallbacks,
        f1.profile == f2.profile,
        f1.version == f2.version,
        forall|n: Seq<char>| f1.extensions.contains(n) == f2.extensions.contains(n),
    ensures
        spec_select(api, f1, parsed) == spec_select(api, f2, parsed),
{
    lemma_features_same_filter(parsed.features, api, f1, f2);
    lemma_extensions_same_requests(
        parsed.extensions,
        api,
        f1.extensions,
        f2.extensions,
        fold_features(parsed.features, api, f1),
    );
}

proof fn lemma_removed_other_profile(before: Seq<SpecRemove>, r: SpecRemove, after: Seq<SpecRemove>, profile: crate::api::Profile)
    requires
        r.profile != profile,
    ensures
        removed_enums(before + seq![r] + after, profile) == removed_enums(before + after, profile),
        removed_commands(before + seq![r] + after, profile) == removed_commands(before + after, profile),
    decreases after.len(),
{
    if after.len() == 0 {
        assert((before + seq![r] + after).drop_last() =~= before);
        assert(before + after =~= before);
    } else {
        lemma_removed_other_profile(before, r, after.drop_last(), profile);
        assert((before + seq![r] + after).drop_last() =~= before + seq![r] + after.drop_last());
        assert((before + after).drop_last() =~= before + after.drop_last());
        assert((before + seq![r] + after).last() == after.last());
        assert((before + after).last() == after.last());
    }
}

proof fn lemma_fold_features_replace(
    before: Seq<SpecFeature>,
    f1: SpecFeature,
    f2: SpecFeature,
    after: Seq<SpecFeature>,
    api: Api,
    filter: SpecFilter,
)
    requires
        forall|d: (Set<Seq<char>>, Set<Seq<char>>)| apply_feature(d, f1, api, filter) == apply_feature(d, f2, api, filter),
    ensures
        fold_features(before + seq![f1] + after, api, filter) == fold_features(before + seq![f2] + after, api, filter),
    decreases after.len(),
{
    if after.len() == 0 {
        assert((before + seq![f1] + after).drop_last() =~= before);
        assert((before + seq![f2] + after).drop_last() =~= before);
        assert((before + seq![f1] + after).last() == f1);
        assert((before + seq![f2] + after).last() == f2);
    } else {
        lemma_fold_features_replace(before, f1, f2, after.drop_last(), api, filter);
        assert((before + seq![f1] + after).drop_last() =~= before + seq![f1] + after.drop_last());
        assert((before + seq![f2] + after).drop_last() =~= before + seq![f2] + after.drop_last());
        assert((before + seq![f1] + after).last() == after.last());
        assert((before + seq![f2] + after).last() == after.last());
    }
}

/// A `<remove>` block for a profile other than the wanted one changes
/// nothing, wherever it stands in whichever feature.
pub proof fn law_other_profile_remove_ignored(
    fs_before: Seq<SpecFeature>,
    f: SpecFeature,
    fs_after: Seq<SpecFeature>,
    before: Seq<SpecRemove>,
    r: SpecRemove,
    after: Seq<SpecRemove>,
    api: Api,
    filter: SpecFilter,
)
    requires
        r.profile != filter.profile,
        f.removes == before + after,
    ensures
        fold_features(fs_before + seq![SpecFeature { removes: before + seq![r] + after, ..f }] + fs_after, api, filter)
            == fold_features(fs_before + seq![f] + fs_after, api, filter),
{
    lemma_removed_other_profile(before, r, after, filter.profile);
    let g = SpecFeature { removes: before + seq![r] + after, ..f };
    lemma_fold_features_replace(fs_before, g, f, fs_after, api, filter);
}

proof fn lemma_fold_extensions_fewer(
    xs: Seq<SpecExtension>,
    api: Api,
    r1: Seq<Seq<char>>,
    r2: Seq<Seq<char>>,
    init: (Set<Seq<char>>, Set<Seq<char>>),
)
    requires
        forall|n: Seq<char>| r1.contains(n) ==> r2.contains(n),
        fold_extensions(xs, api, r2, init) is Ok,
    ensures
        fold_extensions(xs, api, r1, init) is Ok,
        fold_extensions(xs, api, r1, init)->Ok_0.0.subset_of(fold_extensions(xs, api, r2, init)->Ok_0.0),
        fold_extensions(xs, api, r1, init)->Ok_0.1.subset_of(fold_extensions(xs, api, r2, init)->Ok_0.1),
    decreases xs.len(),
{
    if xs.len() > 0 {
        lemma_fold_extensions_fewer(xs.drop_last(), api, r1, r2, init);
        let x = xs.last();
        assert(r1.contains(x.name) ==> r2.contains(x.name));
    }
}

/// Requesting more extensions never drops an enum or command that fewer
/// requests select, and leaves the aliases as they are.
pub proof fn law_more_extensions_only_add(api: Api, f1: SpecFilter, f2: SpecFilter, parsed: SpecParsed)
    requires
        f1.fallbacks == f2.fallbacks,
        f1.profile == f2.profile,
        f1.version == f2.version,
        forall|n: Seq<char>| f1.extensions.contains(n) ==> f2.extensions.contains(n),
        spec_select(api, f2, parsed) is Ok,
    ensures
        spec_select(api, f1, parsed) is Ok,
        forall|e: SpecEnum| spec_select(api, f1, parsed)->Ok_0.enums.contains(e)
            ==> spec_select(api, f2, parsed)->Ok_0.enums.contains(e),
        forall|c: SpecCmd| spec_select(api, f1, parsed)->Ok_0.cmds.contains(c)
            ==> spec_select(api, f2, parsed)->Ok_0.cmds.contains(c),
        spec_select(api, f1, parsed)->Ok_0.aliases == spec_select(api, f2, parsed)->Ok_0.aliases,
{
    lemma_features_same_filter(parsed.features, api, f1, f2);
    let d = fold_features(parsed.features, api, f1);
    lemma_fold_extensions_fewer(parsed.extensions, api, f1.extensions, f2.extensions, d);
    let d1 = fold_extensions(parsed.extensions, api, f1.extensions, d)->Ok_0;
    let d2 = fold_extensions(parsed.extensions, api, f2.extensions, d)->Ok_0;
    law_selected_enums(d1.0, parsed.enums);
    law_selected_enums(d2.0, parsed.enums);
    law_selected_cmds(d1.1, parsed.cmds);
    law_selected_cmds(d2.1, parsed.cmds);
    let s1 = select_enums(d1.0, parsed.enums);
    let s2 = select_enums(d2.0, parsed.enums);
    assert forall|e: SpecEnum| s1.contains(e) implies s2.contains(e) by {
        let i = choose|i: int| 0 <= i < s1.len() && s1[i] == e;
        assert(enum_desired(d1.0, s1[i]) && parsed.enums.contains(s1[i]));
        let j = choose|j: int| 0 <= j < parsed.enums.len() && parsed.enums[j] == e;
        assert(enum_desired(d2.0, parsed.enums[j]));
    }
    let c1 = select_cmds(d1.1, parsed.cmds);
    let c2 = select_cmds(d2.1, parsed.cmds);
    assert forall|c: SpecCmd| c1.contains(c) implies c2.contains(c) by {
        let i = choose|i: int| 0 <= i < c1.len() && c1[i] == c;
        assert(cmd_desired(d1.1, c1[i]) && parsed.cmds.contains(c1[i]));
        let j = choose|j: int| 0 <= j < parsed.cmds.len() && parsed.cmds[j] == c;
        assert(cmd_desired(d2.1, parsed.cmds[j]));
    }
}

} // verus!
