//! Choosing, from what was read, the enums and commands of one API version,
//! profile and set of extensions.
use vstd::prelude::*;
use crate::api::{Api, Fallbacks, Profile};
use crate::parse::{SpecError, RegistryError, SpecParsed, Parsed, SpecFeature, SpecExtension,
    SpecRequire, SpecRemove, Require, Remove, Feature, Extension, result_view};
use crate::registry::{Registry, SpecRegistry, NameSet, strings_view, Enum, SpecEnum, Cmd, SpecCmd,
    AliasMap, Binding, GlxOpcode, enums_view, cmds_view, bindings_view};
use crate::text::{lex_le, str_le};
use crate::xml_events::clone_opt;

verus! {

/// What to take from the registry: a version of the API, a profile, the
/// extensions by name, and whether to keep command aliases.
///
/// The extensions form a set: neither their order nor repetitions change
/// the selection (see `law_requested_extensions_as_set`).
#[derive(Debug)]
pub struct Filter {
    pub fallbacks: Fallbacks,
    pub extensions: Vec<String>,
    pub profile: Profile,
    pub version: String,
}

/// The model of [`Filter`].
pub struct SpecFilter {
    pub fallbacks: Fallbacks,
    pub extensions: Seq<Seq<char>>,
    pub profile: Profile,
    pub version: Seq<char>,
}

impl View for Filter {
    type V = SpecFilter;

    open spec fn view(&self) -> SpecFilter {
        SpecFilter {
            fallbacks: self.fallbacks,
            extensions: strings_view(self.extensions@),
            profile: self.profile,
            version: self.version@,
        }
    }
}

/// The set of the names in `s`.
pub open spec fn seq_set(s: Seq<Seq<char>>) -> Set<Seq<char>> {
    Set::new(|x: Seq<char>| s.contains(x))
}

/// The enums that the `<require>` blocks `reqs` name.
pub open spec fn required_enums(reqs: Seq<SpecRequire>) -> Set<Seq<char>>
    decreases reqs.len(),
{
    if reqs.len() == 0 {
        Set::empty()
    } else {
        required_enums(reqs.drop_last()).union(seq_set(reqs.last().enums))
    }
}

/// The commands that the `<require>` blocks `reqs` name.
pub open spec fn required_commands(reqs: Seq<SpecRequire>) -> Set<Seq<char>>
    decreases reqs.len(),
{
    if reqs.len() == 0 {
        Set::empty()
    } else {
        required_commands(reqs.drop_last()).union(seq_set(reqs.last().commands))
    }
}

/// The enums that the `<remove>` blocks of `profile` among `rems` name.
pub open spec fn removed_enums(rems: Seq<SpecRemove>, profile: Profile) -> Set<Seq<char>>
    decreases rems.len(),
{
    if rems.len() == 0 {
        Set::empty()
    } else if rems.last().profile == profile {
        removed_enums(rems.drop_last(), profile).union(seq_set(rems.last().enums))
    } else {
        removed_enums(rems.drop_last(), profile)
    }
}

/// The commands that the `<remove>` blocks of `profile` among `rems` name.
pub open spec fn removed_commands(rems: Seq<SpecRemove>, profile: Profile) -> Set<Seq<char>>
    decreases rems.len(),
{
    if rems.len() == 0 {
        Set::empty()
    } else if rems.last().profile == profile {
        removed_commands(rems.drop_last(), profile).union(seq_set(rems.last().commands))
    } else {
        removed_commands(rems.drop_last(), profile)
    }
}

/// A feature counts when it is of the API and its number is no later than
/// the wanted version (compared as strings).
pub open spec fn feature_applies(f: SpecFeature, api: Api, version: Seq<char>) -> bool {
    f.api == api && lex_le(f.number, version)
}

/// The wanted enum and command names after feature `f`: what it requires
/// is added, then what it removes for the wanted profile is taken out.
pub open spec fn apply_feature(
    d: (Set<Seq<char>>, Set<Seq<char>>),
    f: SpecFeature,
    api: Api,
    filter: SpecFilter,
) -> (Set<Seq<char>>, Set<Seq<char>>) {
    if feature_applies(f, api, filter.version) {
        (
            d.0.union(required_enums(f.requires)).difference(removed_enums(f.removes, filter.profile)),
            d.1.union(required_commands(f.requires)).difference(removed_commands(f.removes, filter.profile)),
        )
    } else {
        d
    }
}

/// The wanted enum and command names after the features `fs`, in order.
pub open spec fn fold_features(fs: Seq<SpecFeature>, api: Api, filter: SpecFilter) -> (Set<Seq<char>>, Set<Seq<char>>)
    decreases fs.len(),
{
    if fs.len() == 0 {
        (Set::empty(), Set::empty())
    } else {
        apply_feature(fold_features(fs.drop_last(), api, filter), fs.last(), api, filter)
    }
}

/// Some feature has exactly the wanted version number.
pub open spec fn version_found(fs: Seq<SpecFeature>, version: Seq<char>) -> bool {
    exists|i: int| 0 <= i < fs.len() && #[trigger] fs[i].number == version
}

/// The wanted names after extension `x`: when it is requested it must
/// support the API, and what it requires is added.
pub open spec fn apply_extension(
    d: Result<(Set<Seq<char>>, Set<Seq<char>>), SpecError>,
    x: SpecExtension,
    api: Api,
    requested: Seq<Seq<char>>,
) -> Result<(Set<Seq<char>>, Set<Seq<char>>), SpecError> {
    match d {
        Err(e) => Err(e),
        Ok(d) => if requested.contains(x.name) {
            if !x.supported.contains(api) {
                Err(SpecError::UnsupportedExtension { extension: x.name, api })
            } else {
                Ok((d.0.union(required_enums(x.requires)), d.1.union(required_commands(x.requires))))
            }
        } else {
            Ok(d)
        },
    }
}

/// The wanted names after the extensions `xs`, in order, from `init`.
pub open spec fn fold_extensions(
    xs: Seq<SpecExtension>,
    api: Api,
    requested: Seq<Seq<char>>,
    init: (Set<Seq<char>>, Set<Seq<char>>),
) -> Result<(Set<Seq<char>>, Set<Seq<char>>), SpecError>
    decreases xs.len(),
{
    if xs.len() == 0 {
        Ok(init)
    } else {
        apply_extension(fold_extensions(xs.drop_last(), api, requested, init), xs.last(), api, requested)
    }
}

/// An enum is wanted when its name under one of the API prefixes is.
pub open spec fn enum_desired(desired: Set<Seq<char>>, e: SpecEnum) -> bool {
    desired.contains("GL_"@ + e.ident) || desired.contains("WGL_"@ + e.ident)
        || desired.contains("GLX_"@ + e.ident) || desired.contains("EGL_"@ + e.ident)
}

/// A command is wanted when its name under one of the API prefixes is.
pub open spec fn cmd_desired(desired: Set<Seq<char>>, c: SpecCmd) -> bool {
    desired.contains("gl"@ + c.proto.ident) || desired.contains("wgl"@ + c.proto.ident)
        || desired.contains("glX"@ + c.proto.ident) || desired.contains("egl"@ + c.proto.ident)
}

/// The wanted enums among `es`, in order.
pub open spec fn select_enums(desired: Set<Seq<char>>, es: Seq<SpecEnum>) -> Seq<SpecEnum>
    decreases es.len(),
{
    if es.len() == 0 {
        Seq::empty()
    } else if enum_desired(desired, es.last()) {
        select_enums(desired, es.drop_last()).push(es.last())
    } else {
        select_enums(desired, es.drop_last())
    }
}

/// The wanted commands among `cs`, in order.
pub open spec fn select_cmds(desired: Set<Seq<char>>, cs: Seq<SpecCmd>) -> Seq<SpecCmd>
    decreases cs.len(),
{
    if cs.len() == 0 {
        Seq::empty()
    } else if cmd_desired(desired, cs.last()) {
        select_cmds(desired, cs.drop_last()).push(cs.last())
    } else {
        select_cmds(desired, cs.drop_last())
    }
}

/// The registry of `api` that `filter` selects from what was read.
pub open spec fn spec_select(api: Api, filter: SpecFilter, parsed: SpecParsed) -> Result<SpecRegistry, SpecError> {
    let d = fold_features(parsed.features, api, filter);
    if !version_found(parsed.features, filter.version) {
        Err(SpecError::VersionNotFound(filter.version))
    } else {
        match fold_extensions(parsed.extensions, api, filter.extensions, d) {
            Err(e) => Err(e),
            Ok(d2) => Ok(SpecRegistry {
                api,
                enums: select_enums(d2.0, parsed.enums),
                cmds: select_cmds(d2.1, parsed.cmds),
                aliases: if filter.fallbacks == Fallbacks::Disabled {
                    Map::empty()
                } else {
                    parsed.aliases
                },
            }),
        }
    }
}


/// The set of a list grows by the element appended.
pub proof fn lemma_seq_set_push(s: Seq<Seq<char>>, x: Seq<char>)
    ensures
        seq_set(s.push(x)) == seq_set(s).insert(x),
{
    assert forall|y: Seq<char>| #[trigger] seq_set(s.push(x)).contains(y) <==> seq_set(s).insert(x).contains(y) by {
        if s.push(x).contains(y) && y != x {
            let j = choose|j: int| 0 <= j < s.len() + 1 && s.push(x)[j] == y;
            assert(s[j] == y);
        }
        if s.contains(y) {
            let j = choose|j: int| 0 <= j < s.len() && s[j] == y;
            assert(s.push(x)[j] == y);
        }
        if y == x {
            assert(s.push(x)[s.len() as int] == y);
        }
    }
    assert(seq_set(s.push(x)) =~= seq_set(s).insert(x));
}

/// Adds every name in `names` to `set`.
fn add_names(set: &mut NameSet, names: &Vec<String>)
    ensures
        final(set)@ == old(set)@.union(seq_set(strings_view(names@))),
{
    let ghost sv = strings_view(names@);
    let ghost start = set@;
    let mut i: usize = 0;
    assert(sv.take(0) =~= Seq::<Seq<char>>::empty());
    assert(start.union(seq_set(sv.take(0))) =~= start);
    while i < names.len()
        invariant
            0 <= i <= names@.len(),
            sv == strings_view(names@),
            set@ == start.union(seq_set(sv.take(i as int))),
        decreases names.len() - i,
    {
        set.insert(names[i].clone());
        proof {
            assert(sv.take(i + 1) =~= sv.take(i as int).push(sv[i as int]));
            lemma_seq_set_push(sv.take(i as int), sv[i as int]);
            assert(set@ =~= start.union(seq_set(sv.take(i + 1))));
        }
        i += 1;
    }
    assert(sv.take(i as int) =~= sv);
}

/// Takes every name in `names` out of `set`.
fn remove_names(set: &mut NameSet, names: &Vec<String>)
    ensures
        final(set)@ == old(set)@.difference(seq_set(strings_view(names@))),
{
    let ghost sv = strings_view(names@);
    let ghost start = set@;
    let mut i: usize = 0;
    assert(sv.take(0) =~= Seq::<Seq<char>>::empty());
    assert(start.difference(seq_set(sv.take(0))) =~= start);
    while i < names.len()
        invariant
            0 <= i <= names@.len(),
            sv == strings_view(names@),
            set@ == start.difference(seq_set(sv.take(i as int))),
        decreases names.len() - i,
    {
        set.remove(&names[i]);
        proof {
            assert(sv.take(i + 1) =~= sv.take(i as int).push(sv[i as int]));
            lemma_seq_set_push(sv.take(i as int), sv[i as int]);
            assert(set@ =~= start.difference(seq_set(sv.take(i + 1))));
        }
        i += 1;
    }
    assert(sv.take(i as int) =~= sv);
}

/// Adds what the `<require>` blocks `reqs` name.
fn add_requires(es: &mut NameSet, cs: &mut NameSet, reqs: &Vec<Require>)
    ensures
        final(es)@ == old(es)@.union(required_enums(reqs@.map_values(|r: Require| r@))),
        final(cs)@ == old(cs)@.union(required_commands(reqs@.map_values(|r: Require| r@))),
{
    let ghost rv = reqs@.map_values(|r: Require| r@);
    let ghost e0 = es@;
    let ghost c0 = cs@;
    let mut i: usize = 0;
    assert(rv.take(0) =~= Seq::<SpecRequire>::empty());
    assert(e0.union(required_enums(rv.take(0))) =~= e0);
    assert(c0.union(required_commands(rv.take(0))) =~= c0);
    while i < reqs.len()
        invariant
            0 <= i <= reqs@.len(),
            rv == reqs@.map_values(|r: Require| r@),
            es@ == e0.union(required_enums(rv.take(i as int))),
            cs@ == c0.union(required_commands(rv.take(i as int))),
        decreases reqs.len() - i,
    {
        add_names(es, &reqs[i].enums);
        add_names(cs, &reqs[i].commands);
        proof {
            let t = rv.take(i + 1);
            assert(t.drop_last() =~= rv.take(i as int));
            assert(t.last() == reqs@[i as int]@);
            assert(es@ =~= e0.union(required_enums(t)));
            assert(cs@ =~= c0.union(required_commands(t)));
        }
        i += 1;
    }
    assert(rv.take(i as int) =~= rv);
}

/// Takes out what the `<remove>` blocks of `profile` among `rems` name.
fn remove_removes(es: &mut NameSet, cs: &mut NameSet, rems: &Vec<Remove>, profile: Profile)
    ensures
        final(es)@ == old(es)@.difference(removed_enums(rems@.map_values(|r: Remove| r@), profile)),
        final(cs)@ == old(cs)@.difference(removed_commands(rems@.map_values(|r: Remove| r@), profile)),
{
    let ghost rv = rems@.map_values(|r: Remove| r@);
    let ghost e0 = es@;
    let ghost c0 = cs@;
    let mut i: usize = 0;
    assert(rv.take(0) =~= Seq::<SpecRemove>::empty());
    assert(e0.difference(removed_enums(rv.take(0), profile)) =~= e0);
    assert(c0.difference(removed_commands(rv.take(0), profile)) =~= c0);
    while i < rems.len()
        invariant
            0 <= i <= rems@.len(),
            rv == rems@.map_values(|r: Remove| r@),
            es@ == e0.difference(removed_enums(rv.take(i as int), profile)),
            cs@ == c0.difference(removed_commands(rv.take(i as int), profile)),
        decreases rems.len() - i,
    {
        let ghost t = rv.take(i + 1);
        assert(t.drop_last() =~= rv.take(i as int));
        assert(t.last() == rems@[i as int]@);
        if rems[i].profile == profile {
            remove_names(es, &rems[i].enums);
            remove_names(cs, &rems[i].commands);
            assert(es@ =~= e0.difference(removed_enums(t, profile)));
            assert(cs@ =~= c0.difference(removed_commands(t, profile)));
        }
        i += 1;
    }
    assert(rv.take(i as int) =~= rv);
}

/// Whether `name` is one of `names`.
fn contains_string(names: &Vec<String>, name: &String) -> (b: bool)
    ensures
        b == strings_view(names@).contains(name@),
{
    let ghost sv = strings_view(names@);
    let mut i: usize = 0;
    while i < names.len()
        invariant
            0 <= i <= names@.len(),
            sv == strings_view(names@),
            forall|j: int| 0 <= j < i ==> sv[j] != name@,
        decreases names.len() - i,
    {
        if names[i] == *name {
            assert(sv[i as int] == name@);
            return true;
        }
        i += 1;
    }
    false
}

/// Whether `api` is one of `apis`.
fn contains_api(apis: &Vec<Api>, api: Api) -> (b: bool)
    ensures
        b == apis@.contains(api),
{
    let mut i: usize = 0;
    while i < apis.len()
        invariant
            0 <= i <= apis@.len(),
            forall|j: int| 0 <= j < i ==> apis@[j] != api,
        decreases apis.len() - i,
    {
        if apis[i] == api {
            return true;
        }
        i += 1;
    }
    false
}

/// Whether the enum is wanted.
fn is_desired_enum(desired: &NameSet, e: &Enum) -> (b: bool)
    ensures
        b == enum_desired(desired@, e@),
{
    let a = String::from_str("GL_").concat(e.ident.as_str());
    let b = String::from_str("WGL_").concat(e.ident.as_str());
    let c = String::from_str("GLX_").concat(e.ident.as_str());
    let d = String::from_str("EGL_").concat(e.ident.as_str());
    desired.contains(&a) || desired.contains(&b) || desired.contains(&c) || desired.contains(&d)
}

/// Whether the command is wanted.
fn is_desired_cmd(desired: &NameSet, c: &Cmd) -> (b: bool)
    ensures
        b == cmd_desired(desired@, c@),
{
    let a = String::from_str("gl").concat(c.proto.ident.as_str());
    let b = String::from_str("wgl").concat(c.proto.ident.as_str());
    let x = String::from_str("glX").concat(c.proto.ident.as_str());
    let d = String::from_str("egl").concat(c.proto.ident.as_str());
    desired.contains(&a) || desired.contains(&b) || desired.contains(&x) || desired.contains(&d)
}

/// A copy of an enum.
fn clone_enum(e: &Enum) -> (r: Enum)
    ensures
        r@ == e@,
{
    Enum { ident: e.ident.clone(), value: e.value.clone(), alias: clone_opt(&e.alias), ty: clone_opt(&e.ty) }
}

/// A copy of a binding.
fn clone_binding(b: &Binding) -> (r: Binding)
    ensures
        r@ == b@,
{
    Binding { ident: b.ident.clone(), ty: b.ty.clone() }
}

/// A copy of a command.
fn clone_cmd(c: &Cmd) -> (r: Cmd)
    ensures
        r@ == c@,
{
    let mut params: Vec<Binding> = Vec::new();
    let mut i: usize = 0;
    while i < c.params.len()
        invariant
            0 <= i <= c.params@.len(),
            params@.len() == i,
            bindings_view(params@) == bindings_view(c.params@.take(i as int)),
        decreases c.params.len() - i,
    {
        let ghost before = params@;
        params.push(clone_binding(&c.params[i]));
        assert(bindings_view(params@) =~= bindings_view(c.params@.take(i + 1))) by {
            assert forall|k: int| 0 <= k < i implies params@[k]@ == c.params@.take(i + 1)[k]@ by {
                assert(bindings_view(before)[k] == bindings_view(c.params@.take(i as int))[k]);
            }
        }
        i += 1;
    }
    assert(c.params@.take(i as int) =~= c.params@);
    let glx = match &c.glx {
        Some(g) => Some(GlxOpcode { ty: g.ty.clone(), opcode: g.opcode.clone(), name: clone_opt(&g.name) }),
        None => None,
    };
    Cmd {
        proto: clone_binding(&c.proto),
        params,
        alias: clone_opt(&c.alias),
        vecequiv: clone_opt(&c.vecequiv),
        glx,
    }
}

/// Once the extensions up to some point give an error, all of them give
/// that error.
proof fn lemma_fold_extensions_err(
    xs: Seq<SpecExtension>,
    api: Api,
    requested: Seq<Seq<char>>,
    init: (Set<Seq<char>>, Set<Seq<char>>),
    j: int,
)
    requires
        0 <= j <= xs.len(),
        fold_extensions(xs.take(j), api, requested, init) is Err,
    ensures
        fold_extensions(xs, api, requested, init) == fold_extensions(xs.take(j), api, requested, init),
    decreases xs.len(),
{
    if j < xs.len() {
        let t = xs.drop_last();
        assert(t.take(j) =~= xs.take(j));
        lemma_fold_extensions_err(t, api, requested, init, j);
    } else {
        assert(xs.take(j) =~= xs);
    }
}

/// The wanted enum and command names after the features, and whether some
/// feature has exactly the wanted version number.
fn wanted_by_features(api: Api, filter: &Filter, features: &Vec<Feature>) -> (r: (NameSet, NameSet, bool))
    ensures
        (r.0@, r.1@) == fold_features(features@.map_values(|x: Feature| x@), api, filter@),
        r.2 == version_found(features@.map_values(|x: Feature| x@), filter@.version),
{
    let ghost fv = features@.map_values(|x: Feature| x@);
    let ghost fl = filter@;
    let mut es = NameSet::new();
    let mut cs = NameSet::new();
    let mut found = false;
    let mut k: usize = 0;
    assert(fv.take(0) =~= Seq::<SpecFeature>::empty());
    assert((es@, cs@) == fold_features(fv.take(0), api, fl));
    while k < features.len()
        invariant
            0 <= k <= features@.len(),
            fv == features@.map_values(|x: Feature| x@),
            fl == filter@,
            (es@, cs@) == fold_features(fv.take(k as int), api, fl),
            found == exists|i: int| 0 <= i < k && #[trigger] fv[i].number == fl.version,
        decreases features.len() - k,
    {
        let f = &features[k];
        let ghost t = fv.take(k + 1);
        assert(t.drop_last() =~= fv.take(k as int));
        assert(t.last() == f@);
        if f.api == api && str_le(f.number.as_str(), filter.version.as_str()) {
            add_requires(&mut es, &mut cs, &f.requires);
            remove_removes(&mut es, &mut cs, &f.removes, filter.profile);
        }
        if f.number == filter.version {
            found = true;
        }
        assert(f@.number == fv[k as int].number);
        k += 1;
    }
    assert(fv.take(k as int) =~= fv);
    (es, cs, found)
}

/// Adds what the requested extensions require, in order; a requested
/// extension that does not support `api` is the error.
fn try_add_extensions(es: &mut NameSet, cs: &mut NameSet, api: Api, filter: &Filter, exts: &Vec<Extension>)
    -> (r: Result<(), RegistryError>)
    ensures
        match fold_extensions(exts@.map_values(|x: Extension| x@), api, filter@.extensions, (old(es)@, old(cs)@)) {
            Ok(d) => r is Ok && (final(es)@, final(cs)@) == d,
            Err(e) => r matches Err(x) && x@ == e,
        },
{
    let ghost xv = exts@.map_values(|x: Extension| x@);
    let ghost fl = filter@;
    let ghost d0 = (es@, cs@);
    let mut k: usize = 0;
    assert(xv.take(0) =~= Seq::<SpecExtension>::empty());
    while k < exts.len()
        invariant
            0 <= k <= exts@.len(),
            xv == exts@.map_values(|x: Extension| x@),
            fl == filter@,
            d0 == (old(es)@, old(cs)@),
            fold_extensions(xv.take(k as int), api, fl.extensions, d0) == Ok::<_, SpecError>((es@, cs@)),
        decreases exts.len() - k,
    {
        let x = &exts[k];
        let ghost t = xv.take(k + 1);
        assert(t.drop_last() =~= xv.take(k as int));
        assert(t.last() == x@);
        if contains_string(&filter.extensions, &x.name) {
            if !contains_api(&x.supported, api) {
                proof {
                    lemma_fold_extensions_err(xv, api, fl.extensions, d0, k + 1);
                }
                return Err(RegistryError::UnsupportedExtension { extension: x.name.clone(), api });
            }
            add_requires(es, cs, &x.requires);
        }
        k += 1;
    }
    assert(xv.take(k as int) =~= xv);
    Ok(())
}

/// Adds what the requested extensions require, in order; each requested
/// extension supports `api`.
fn add_extensions(es: &mut NameSet, cs: &mut NameSet, api: Api, filter: &Filter, exts: &Vec<Extension>)
    requires
        fold_extensions(exts@.map_values(|x: Extension| x@), api, filter@.extensions, (old(es)@, old(cs)@)) is Ok,
    ensures
        fold_extensions(exts@.map_values(|x: Extension| x@), api, filter@.extensions, (old(es)@, old(cs)@))
            == Ok::<_, SpecError>((final(es)@, final(cs)@)),
{
    match try_add_extensions(es, cs, api, filter, exts) {
        Ok(()) => {},
        Err(_) => unreached(),
    }
}

/// The registry of the wanted enums and commands among those read, with
/// the aliases unless `filter` turns them off.
fn selected_registry(api: Api, filter: &Filter, parsed: Parsed, es: &NameSet, cs: &NameSet) -> (r: Registry)
    requires
        parsed.aliases.wf(),
    ensures
        r@ == (SpecRegistry {
            api,
            enums: select_enums(es@, parsed@.enums),
            cmds: select_cmds(cs@, parsed@.cmds),
            aliases: if filter@.fallbacks == Fallbacks::Disabled {
                Map::empty()
            } else {
                parsed@.aliases
            },
        }),
        r.aliases.wf(),
{
    let ghost ev = parsed@.enums;
    let mut enums: Vec<Enum> = Vec::new();
    let mut i: usize = 0;
    assert(ev.take(0) =~= Seq::<SpecEnum>::empty());
    assert(enums_view(enums@) =~= Seq::<SpecEnum>::empty());
    while i < parsed.enums.len()
        invariant
            0 <= i <= parsed.enums@.len(),
            ev == parsed@.enums,
            enums_view(enums@) == select_enums(es@, ev.take(i as int)),
        decreases parsed.enums.len() - i,
    {
        let ghost t = ev.take(i + 1);
        assert(t.drop_last() =~= ev.take(i as int));
        assert(t.last() == parsed.enums@[i as int]@);
        if is_desired_enum(es, &parsed.enums[i]) {
            let ghost before = enums_view(enums@);
            enums.push(clone_enum(&parsed.enums[i]));
            assert(enums_view(enums@) =~= before.push(t.last()));
        }
        i += 1;
    }
    assert(ev.take(i as int) =~= ev);
    let ghost cv = parsed@.cmds;
    let mut cmds: Vec<Cmd> = Vec::new();
    let mut i: usize = 0;
    assert(cv.take(0) =~= Seq::<SpecCmd>::empty());
    assert(cmds_view(cmds@) =~= Seq::<SpecCmd>::empty());
    while i < parsed.cmds.len()
        invariant
            0 <= i <= parsed.cmds@.len(),
            cv == parsed@.cmds,
            cmds_view(cmds@) == select_cmds(cs@, cv.take(i as int)),
        decreases parsed.cmds.len() - i,
    {
        let ghost t = cv.take(i + 1);
        assert(t.drop_last() =~= cv.take(i as int));
        assert(t.last() == parsed.cmds@[i as int]@);
        if is_desired_cmd(cs, &parsed.cmds[i]) {
            let ghost before = cmds_view(cmds@);
            cmds.push(clone_cmd(&parsed.cmds[i]));
            assert(cmds_view(cmds@) =~= before.push(t.last()));
        }
        i += 1;
    }
    assert(cv.take(i as int) =~= cv);
    let aliases = if filter.fallbacks == Fallbacks::Disabled {
        AliasMap::new()
    } else {
        parsed.aliases
    };
    Registry { api, enums, cmds, aliases }
}

/// Chooses from what was read the registry of `api` that `filter` asks
/// for. Some feature has the wanted version number and every requested
/// extension supports `api`.
pub fn select(api: Api, filter: &Filter, parsed: Parsed) -> (r: Registry)
    requires
        parsed.aliases.wf(),
        spec_select(api, filter@, parsed@) is Ok,
    ensures
        spec_select(api, filter@, parsed@) == Ok::<SpecRegistry, SpecError>(r@),
        r.aliases.wf(),
{
    match try_select(api, filter, parsed) {
        Ok(r) => r,
        Err(_) => unreached(),
    }
}

/// The registry that [`select`] gives, or why `filter` cannot be met:
/// no feature has the wanted version number, or a requested extension
/// does not support `api`.
pub fn try_select(api: Api, filter: &Filter, parsed: Parsed) -> (r: Result<Registry, RegistryError>)
    requires
        parsed.aliases.wf(),
    ensures
        result_view(r, |x: Registry| x@) == spec_select(api, filter@, parsed@),
        r matches Ok(reg) ==> reg.aliases.wf(),
{
    let (mut es, mut cs, found) = wanted_by_features(api, filter, &parsed.features);
    if !found {
        return Err(RegistryError::VersionNotFound(filter.version.clone()));
    }
    match try_add_extensions(&mut es, &mut cs, api, filter, &parsed.extensions) {
        Ok(()) => Ok(selected_registry(api, filter, parsed, &es, &cs)),
        Err(e) => Err(e),
    }
}

} // verus!
