//! What selection, the supported-API list, command parameters and the
//! version order are, stated by their inputs and results.
use vstd::prelude::*;
use crate::api::{Api, enum_prefix, cmd_prefix, spec_api_from_str};
use crate::parse::{spec_consume_two, spec_consume_enums, spec_enum_from, spec_skip_to_end, file_alias, SpecError, SpecFeature, SpecRequire, SpecRemove, SpecExtension, spec_apis, spec_cmd_rest, spec_next,
    spec_consume_binding, spec_extension, spec_required_attribute};
use crate::registry::{SpecEnum, SpecCmd, SpecBinding, SpecGlxOpcode};
use crate::select::{SpecFilter, select_enums, select_cmds, enum_desired, cmd_desired, fold_features, feature_applies,
    apply_feature, required_enums, required_commands, removed_enums, removed_commands, seq_set};
use crate::laws::{law_selected_enums, law_selected_cmds};
use crate::text::{lex_le, spec_split, starts_with};
use crate::registry::values_of;
use crate::xml_events::SpecEvent;

verus! {

proof fn lemma_removed_enums_has(rems: Seq<SpecRemove>, profile: crate::api::Profile, k: int, name: Seq<char>)
    requires
        0 <= k < rems.len(),
        rems[k].profile == profile,
        rems[k].enums.contains(name),
    ensures
        removed_enums(rems, profile).contains(name),
    decreases rems.len(),
{
    if k < rems.len() - 1 {
        assert(rems.drop_last()[k] == rems[k]);
        lemma_removed_enums_has(rems.drop_last(), profile, k, name);
    } else {
        assert(seq_set(rems.last().enums).contains(name));
    }
}

proof fn lemma_removed_commands_has(rems: Seq<SpecRemove>, profile: crate::api::Profile, k: int, name: Seq<char>)
    requires
        0 <= k < rems.len(),
        rems[k].profile == profile,
        rems[k].commands.contains(name),
    ensures
        removed_commands(rems, profile).contains(name),
    decreases rems.len(),
{
    if k < rems.len() - 1 {
        assert(rems.drop_last()[k] == rems[k]);
        lemma_removed_commands_has(rems.drop_last(), profile, k, name);
    } else {
        assert(seq_set(rems.last().commands).contains(name));
    }
}

proof fn lemma_removed_enums_lacks(rems: Seq<SpecRemove>, profile: crate::api::Profile, name: Seq<char>)
    requires
        forall|k: int| 0 <= k < rems.len() && (#[trigger] rems[k]).profile == profile ==> !rems[k].enums.contains(name),
    ensures
        !removed_enums(rems, profile).contains(name),
    decreases rems.len(),
{
    if rems.len() > 0 {
        assert forall|k: int| 0 <= k < rems.drop_last().len() && (#[trigger] rems.drop_last()[k]).profile == profile
            implies !rems.drop_last()[k].enums.contains(name) by {
            assert(rems.drop_last()[k] == rems[k]);
        }
        lemma_removed_enums_lacks(rems.drop_last(), profile, name);
        assert(rems.last() == rems[rems.len() - 1]);
    }
}

proof fn lemma_removed_commands_lacks(rems: Seq<SpecRemove>, profile: crate::api::Profile, name: Seq<char>)
    requires
        forall|k: int| 0 <= k < rems.len() && (#[trigger] rems[k]).profile == profile ==> !rems[k].commands.contains(name),
    ensures
        !removed_commands(rems, profile).contains(name),
    decreases rems.len(),
{
    if rems.len() > 0 {
        assert forall|k: int| 0 <= k < rems.drop_last().len() && (#[trigger] rems.drop_last()[k]).profile == profile
            implies !rems.drop_last()[k].commands.contains(name) by {
            assert(rems.drop_last()[k] == rems[k]);
        }
        lemma_removed_commands_lacks(rems.drop_last(), profile, name);
        assert(rems.last() == rems[rems.len() - 1]);
    }
}

proof fn lemma_required_enums_has(reqs: Seq<SpecRequire>, k: int, name: Seq<char>)
    requires
        0 <= k < reqs.len(),
        reqs[k].enums.contains(name),
    ensures
        required_enums(reqs).contains(name),
    decreases reqs.len(),
{
    if k < reqs.len() - 1 {
        assert(reqs.drop_last()[k] == reqs[k]);
        lemma_required_enums_has(reqs.drop_last(), k, name);
    } else {
        assert(seq_set(reqs.last().enums).contains(name));
    }
}

proof fn lemma_required_commands_has(reqs: Seq<SpecRequire>, k: int, name: Seq<char>)
    requires
        0 <= k < reqs.len(),
        reqs[k].commands.contains(name),
    ensures
        required_commands(reqs).contains(name),
    decreases reqs.len(),
{
    if k < reqs.len() - 1 {
        assert(reqs.drop_last()[k] == reqs[k]);
        lemma_required_commands_has(reqs.drop_last(), k, name);
    } else {
        assert(seq_set(reqs.last().commands).contains(name));
    }
}

/// After a feature that counts, no enum or command named in one of its
/// `<remove>` blocks for the wanted profile is wanted, whatever was wanted
/// before it; and so after the last of a list of features, when it counts.
pub proof fn law_removed_names_not_wanted(
    d: (Set<Seq<char>>, Set<Seq<char>>),
    fs: Seq<SpecFeature>,
    api: Api,
    filter: SpecFilter,
    k: int,
    name: Seq<char>,
)
    requires
        fs.len() > 0,
        feature_applies(fs.last(), api, filter.version),
        0 <= k < fs.last().removes.len(),
        fs.last().removes[k].profile == filter.profile,
    ensures
        fs.last().removes[k].enums.contains(name) ==> !apply_feature(d, fs.last(), api, filter).0.contains(name),
        fs.last().removes[k].commands.contains(name) ==> !apply_feature(d, fs.last(), api, filter).1.contains(name),
        fs.last().removes[k].enums.contains(name) ==> !fold_features(fs, api, filter).0.contains(name),
        fs.last().removes[k].commands.contains(name) ==> !fold_features(fs, api, filter).1.contains(name),
{
    let f = fs.last();
    if f.removes[k].enums.contains(name) {
        lemma_removed_enums_has(f.removes, filter.profile, k, name);
    }
    if f.removes[k].commands.contains(name) {
        lemma_removed_commands_has(f.removes, filter.profile, k, name);
    }
}

/// After a feature that counts, every enum and command named in one of its
/// `<require>` blocks is wanted, unless one of its `<remove>` blocks for the
/// wanted profile names it.
pub proof fn law_required_names_wanted(
    d: (Set<Seq<char>>, Set<Seq<char>>),
    f: SpecFeature,
    api: Api,
    filter: SpecFilter,
    k: int,
    name: Seq<char>,
)
    requires
        feature_applies(f, api, filter.version),
        0 <= k < f.requires.len(),
    ensures
        f.requires[k].enums.contains(name)
            && (forall|j: int| 0 <= j < f.removes.len() && (#[trigger] f.removes[j]).profile == filter.profile
                ==> !f.removes[j].enums.contains(name))
            ==> apply_feature(d, f, api, filter).0.contains(name),
        f.requires[k].commands.contains(name)
            && (forall|j: int| 0 <= j < f.removes.len() && (#[trigger] f.removes[j]).profile == filter.profile
                ==> !f.removes[j].commands.contains(name))
            ==> apply_feature(d, f, api, filter).1.contains(name),
{
    if f.requires[k].enums.contains(name) && (forall|j: int| 0 <= j < f.removes.len()
        && (#[trigger] f.removes[j]).profile == filter.profile ==> !f.removes[j].enums.contains(name)) {
        lemma_required_enums_has(f.requires, k, name);
        lemma_removed_enums_lacks(f.removes, filter.profile, name);
    }
    if f.requires[k].commands.contains(name) && (forall|j: int| 0 <= j < f.removes.len()
        && (#[trigger] f.removes[j]).profile == filter.profile ==> !f.removes[j].commands.contains(name)) {
        lemma_required_commands_has(f.requires, k, name);
        lemma_removed_commands_lacks(f.removes, filter.profile, name);
    }
}

/// An enum whose name under the enum prefix of any API is wanted is
/// selected; a selected enum is one of those read, wanted under the prefix
/// of some API.
pub proof fn law_enums_wanted_under_api_prefix(desired: Set<Seq<char>>, es: Seq<SpecEnum>)
    ensures
        forall|api: Api, e: SpecEnum| es.contains(e) && desired.contains(#[trigger] enum_prefix(api) + e.ident)
            ==> #[trigger] select_enums(desired, es).contains(e),
        forall|e: SpecEnum| #[trigger] select_enums(desired, es).contains(e)
            ==> es.contains(e) && exists|api: Api| desired.contains(#[trigger] enum_prefix(api) + e.ident),
{
    law_selected_enums(desired, es);
    assert forall|api: Api, e: SpecEnum| es.contains(e) && desired.contains(#[trigger] enum_prefix(api) + e.ident)
        implies #[trigger] select_enums(desired, es).contains(e) by {
        let j = choose|j: int| 0 <= j < es.len() && es[j] == e;
        assert(enum_desired(desired, es[j]));
    }
    assert forall|e: SpecEnum| #[trigger] select_enums(desired, es).contains(e)
        implies es.contains(e) && exists|api: Api| desired.contains(#[trigger] enum_prefix(api) + e.ident) by {
        let sel = select_enums(desired, es);
        let i = choose|i: int| 0 <= i < sel.len() && sel[i] == e;
        assert(enum_desired(desired, sel[i]));
        if desired.contains("GL_"@ + e.ident) {
            assert(enum_prefix(Api::Gl) == "GL_"@);
        } else if desired.contains("WGL_"@ + e.ident) {
            assert(enum_prefix(Api::Wgl) == "WGL_"@);
        } else if desired.contains("GLX_"@ + e.ident) {
            assert(enum_prefix(Api::Glx) == "GLX_"@);
        } else {
            assert(enum_prefix(Api::Egl) == "EGL_"@);
        }
    }
}

/// A command whose name under the command prefix of any API is wanted is
/// selected; a selected command is one of those read, wanted under the
/// prefix of some API.
pub proof fn law_cmds_wanted_under_api_prefix(desired: Set<Seq<char>>, cs: Seq<SpecCmd>)
    ensures
        forall|api: Api, c: SpecCmd| cs.contains(c) && desired.contains(#[trigger] cmd_prefix(api) + c.proto.ident)
            ==> #[trigger] select_cmds(desired, cs).contains(c),
        forall|c: SpecCmd| #[trigger] select_cmds(desired, cs).contains(c)
            ==> cs.contains(c) && exists|api: Api| desired.contains(#[trigger] cmd_prefix(api) + c.proto.ident),
{
    law_selected_cmds(desired, cs);
    assert forall|api: Api, c: SpecCmd| cs.contains(c) && desired.contains(#[trigger] cmd_prefix(api) + c.proto.ident)
        implies #[trigger] select_cmds(desired, cs).contains(c) by {
        let j = choose|j: int| 0 <= j < cs.len() && cs[j] == c;
        assert(cmd_desired(desired, cs[j]));
    }
    assert forall|c: SpecCmd| #[trigger] select_cmds(desired, cs).contains(c)
        implies cs.contains(c) && exists|api: Api| desired.contains(#[trigger] cmd_prefix(api) + c.proto.ident) by {
        let sel = select_cmds(desired, cs);
        let i = choose|i: int| 0 <= i < sel.len() && sel[i] == c;
        assert(cmd_desired(desired, sel[i]));
        if desired.contains("gl"@ + c.proto.ident) {
            assert(cmd_prefix(Api::Gl) == "gl"@);
        } else if desired.contains("wgl"@ + c.proto.ident) {
            assert(cmd_prefix(Api::Wgl) == "wgl"@);
        } else if desired.contains("glX"@ + c.proto.ident) {
            assert(cmd_prefix(Api::Glx) == "glX"@);
        } else {
            assert(cmd_prefix(Api::Egl) == "egl"@);
        }
    }
}

/// When every piece names an API, the list read has one API per piece, in
/// order, after those already held.
pub proof fn law_apis_one_per_piece(pieces: Seq<Seq<char>>, acc: Seq<Api>)
    requires
        forall|i: int| 0 <= i < pieces.len() ==> (#[trigger] spec_api_from_str(pieces[i])) is Ok,
    ensures
        spec_apis(pieces, acc) is Ok,
        spec_apis(pieces, acc)->Ok_0.len() == acc.len() + pieces.len(),
        forall|i: int| 0 <= i < acc.len() ==> spec_apis(pieces, acc)->Ok_0[i] == acc[i],
        forall|i: int| 0 <= i < pieces.len()
            ==> spec_api_from_str(#[trigger] pieces[i]) == Ok::<Api, ()>(spec_apis(pieces, acc)->Ok_0[acc.len() + i]),
    decreases pieces.len(),
{
    if pieces.len() > 0 {
        assert(spec_api_from_str(pieces[0]) is Ok);
        let a = spec_api_from_str(pieces[0])->Ok_0;
        let rest = pieces.drop_first();
        assert forall|i: int| 0 <= i < rest.len() implies (#[trigger] spec_api_from_str(rest[i])) is Ok by {
            assert(rest[i] == pieces[i + 1]);
            assert(spec_api_from_str(pieces[i + 1]) is Ok);
        }
        law_apis_one_per_piece(rest, acc.push(a));
        assert(spec_apis(pieces, acc) == spec_apis(rest, acc.push(a)));
        let s = spec_apis(pieces, acc)->Ok_0;
        assert(s[acc.len() as int] == acc.push(a)[acc.len() as int]);
        assert forall|i: int| 0 <= i < acc.len() implies s[i] == acc[i] by {
            assert(s[i] == acc.push(a)[i]);
        }
        assert forall|i: int| 0 <= i < pieces.len()
            implies spec_api_from_str(#[trigger] pieces[i]) == Ok::<Api, ()>(s[acc.len() + i]) by {
            if i > 0 {
                assert(pieces[i] == rest[i - 1]);
                assert(spec_api_from_str(rest[i - 1]) == Ok::<Api, ()>(s[acc.len() + 1 + (i - 1)]));
            }
        }
    }
}

/// The first piece that names no API is the error.
pub proof fn law_apis_first_unknown(pieces: Seq<Seq<char>>, acc: Seq<Api>, k: int)
    requires
        0 <= k < pieces.len(),
        spec_api_from_str(pieces[k]) is Err,
        forall|i: int| 0 <= i < k ==> (#[trigger] spec_api_from_str(pieces[i])) is Ok,
    ensures
        spec_apis(pieces, acc) == Err::<Seq<Api>, SpecError>(SpecError::UnknownApi(pieces[k])),
    decreases k,
{
    if k > 0 {
        let rest = pieces.drop_first();
        assert(spec_api_from_str(pieces[0]) is Ok);
        assert forall|i: int| 0 <= i < k - 1 implies (#[trigger] spec_api_from_str(rest[i])) is Ok by {
            assert(rest[i] == pieces[i + 1]);
            assert(spec_api_from_str(pieces[i + 1]) is Ok);
        }
        assert(rest[k - 1] == pieces[k]);
        law_apis_first_unknown(rest, acc.push(spec_api_from_str(pieces[0])->Ok_0), k - 1);
    }
}

proof fn lemma_apis_ok_all(pieces: Seq<Seq<char>>, acc: Seq<Api>)
    requires
        spec_apis(pieces, acc) is Ok,
    ensures
        forall|i: int| 0 <= i < pieces.len() ==> (#[trigger] spec_api_from_str(pieces[i])) is Ok,
    decreases pieces.len(),
{
    if pieces.len() > 0 {
        let rest = pieces.drop_first();
        lemma_apis_ok_all(rest, acc.push(spec_api_from_str(pieces[0])->Ok_0));
        assert forall|i: int| 0 <= i < pieces.len() implies (#[trigger] spec_api_from_str(pieces[i])) is Ok by {
            if i > 0 {
                assert(pieces[i] == rest[i - 1]);
            }
        }
    }
}

/// An extension read lists, as supported, exactly the APIs named by the
/// `|`-separated pieces of its `supported` attribute, one per piece, in
/// order.
pub proof fn law_extension_supports_each_listed_api(
    attrs: Seq<(Seq<char>, Seq<char>)>,
    evs: Seq<SpecEvent>,
    pos: int,
)
    requires
        spec_extension(attrs, evs, pos) is Ok,
    ensures
        ({
            let x: SpecExtension = spec_extension(attrs, evs, pos)->Ok_0.0;
            let pieces = spec_split(spec_required_attribute(attrs, "supported"@)->Ok_0, '|');
            &&& x.supported.len() == pieces.len()
            &&& forall|i: int| 0 <= i < pieces.len()
                ==> spec_api_from_str(#[trigger] pieces[i]) == Ok::<Api, ()>(x.supported[i])
        }),
{
    let pieces = spec_split(spec_required_attribute(attrs, "supported"@)->Ok_0, '|');
    lemma_apis_ok_all(pieces, Seq::empty());
    law_apis_one_per_piece(pieces, Seq::empty());
}

/// The parameters of a command are those already read followed by those
/// that its remaining elements give: whatever had been read before, the
/// same ones follow it, and the rest of the command is the same.
pub proof fn law_cmd_params_accumulate(
    api: Api,
    evs: Seq<SpecEvent>,
    pos: int,
    proto: SpecBinding,
    params: Seq<SpecBinding>,
    params2: Seq<SpecBinding>,
    alias: Option<Seq<char>>,
    vecequiv: Option<Seq<char>>,
    glx: Option<SpecGlxOpcode>,
)
    requires
        spec_cmd_rest(api, evs, pos, proto, params, alias, vecequiv, glx) is Ok,
    ensures
        ({
            let (c, p) = spec_cmd_rest(api, evs, pos, proto, params, alias, vecequiv, glx)->Ok_0;
            &&& params.len() <= c.params.len()
            &&& c.params.subrange(0, params.len() as int) == params
            &&& spec_cmd_rest(api, evs, pos, proto, params2, alias, vecequiv, glx)
                == Ok::<(SpecCmd, int), SpecError>((
                SpecCmd { params: params2 + c.params.subrange(params.len() as int, c.params.len() as int), ..c },
                p,
            ))
        }),
    decreases evs.len() - pos,
{
    let (e, p) = spec_next(evs, pos)->Ok_0;
    let c = spec_cmd_rest(api, evs, pos, proto, params, alias, vecequiv, glx)->Ok_0.0;
    match e {
        SpecEvent::StartElement { name, attributes } => {
            if name == "param"@ {
                let (b, p2) = spec_consume_binding(evs, p, "param"@)->Ok_0;
                law_cmd_params_accumulate(api, evs, p2, proto, params.push(b), params2.push(b), alias, vecequiv, glx);
                let n = params.len() as int;
                assert(c.params.subrange(0, n + 1)[n] == b);
                assert(c.params[n] == b);
                assert(c.params.subrange(n, c.params.len() as int)
                    =~= seq![b] + c.params.subrange(n + 1, c.params.len() as int));
                assert(params2 + c.params.subrange(n, c.params.len() as int)
                    =~= params2.push(b) + c.params.subrange(n + 1, c.params.len() as int));
                assert(c.params.subrange(0, n) =~= params.push(b).subrange(0, n));
            } else if name == "alias"@ {
                let p3 = crate::block_laws::end_of(crate::parse::spec_consume_end_element(evs, p, "alias"@));
                law_cmd_params_accumulate(api, evs, p3, proto, params, params2,
                    crate::parse::spec_trim_cmd_opt(api, crate::xml_events::spec_get_attribute(attributes, "name"@)),
                    vecequiv, glx);
            } else if name == "vecequiv"@ {
                let p3 = crate::block_laws::end_of(crate::parse::spec_consume_end_element(evs, p, "vecequiv"@));
                law_cmd_params_accumulate(api, evs, p3, proto, params, params2, alias,
                    crate::xml_events::spec_get_attribute(attributes, "vecequiv"@), glx);
            } else {
                let ty = spec_required_attribute(attributes, "type"@)->Ok_0;
                let opcode = spec_required_attribute(attributes, "opcode"@)->Ok_0;
                let p3 = crate::block_laws::end_of(crate::parse::spec_consume_end_element(evs, p, "glx"@));
                law_cmd_params_accumulate(api, evs, p3, proto, params, params2, alias, vecequiv,
                    Some(SpecGlxOpcode { ty, opcode, name: crate::xml_events::spec_get_attribute(attributes, "name"@) }));
            }
        },
        _ => {
            assert(c.params.subrange(0, params.len() as int) =~= params);
            assert(params2 + c.params.subrange(params.len() as int, c.params.len() as int) =~= params2);
        },
    }
}

/// A `<param>` element read next in a command gives the parameter that
/// follows those already read: nothing read is lost, and the new one
/// comes next, in order.
pub proof fn law_param_read_in_order(
    api: Api,
    evs: Seq<SpecEvent>,
    pos: int,
    proto: SpecBinding,
    params: Seq<SpecBinding>,
    alias: Option<Seq<char>>,
    vecequiv: Option<Seq<char>>,
    glx: Option<SpecGlxOpcode>,
    attributes: Seq<(Seq<char>, Seq<char>)>,
    p: int,
    b: SpecBinding,
    p2: int,
)
    requires
        spec_next(evs, pos) == Ok::<(SpecEvent, int), SpecError>(
            (SpecEvent::StartElement { name: "param"@, attributes }, p),
        ),
        spec_consume_binding(evs, p, "param"@) == Ok::<(SpecBinding, int), SpecError>((b, p2)),
        spec_cmd_rest(api, evs, pos, proto, params, alias, vecequiv, glx) is Ok,
    ensures
        ({
            let c = spec_cmd_rest(api, evs, pos, proto, params, alias, vecequiv, glx)->Ok_0.0;
            &&& c.params.len() > params.len()
            &&& c.params.subrange(0, params.len() as int) == params
            &&& c.params[params.len() as int] == b
        }),
{
    law_cmd_params_accumulate(api, evs, p2, proto, params.push(b), params.push(b), alias, vecequiv, glx);
    let c = spec_cmd_rest(api, evs, pos, proto, params, alias, vecequiv, glx)->Ok_0.0;
    let n = params.len() as int;
    assert(c.params.subrange(0, n + 1)[n] == b);
    assert(c.params.subrange(0, n) =~= params.push(b).subrange(0, n));
}

/// Two strings that agree before index `i` and differ at it are ordered as
/// their characters at `i` are.
pub proof fn law_lex_le_first_difference(a: Seq<char>, b: Seq<char>, i: int)
    requires
        0 <= i < a.len(),
        i < b.len(),
        a[i] != b[i],
        forall|j: int| 0 <= j < i ==> a[j] == b[j],
    ensures
        lex_le(a, b) == (a[i] < b[i]),
    decreases i,
{
    if i > 0 {
        assert(a[0] == b[0]);
        assert forall|j: int| 0 <= j < i - 1 implies a.drop_first()[j] == b.drop_first()[j] by {
            assert(a[j + 1] == b[j + 1]);
        }
        law_lex_le_first_difference(a.drop_first(), b.drop_first(), i - 1);
    }
}

/// A string comes no later than any string it is a prefix of, and a longer
/// string never comes before its own prefix.
pub proof fn law_lex_le_prefix(a: Seq<char>, b: Seq<char>)
    requires
        a.len() <= b.len(),
        forall|j: int| 0 <= j < a.len() ==> a[j] == b[j],
    ensures
        lex_le(a, b),
        a.len() < b.len() ==> !lex_le(b, a),
    decreases a.len(),
{
    if a.len() > 0 {
        assert(a[0] == b[0]);
        assert forall|j: int| 0 <= j < a.drop_first().len() implies a.drop_first()[j] == b.drop_first()[j] by {
            assert(a[j + 1] == b[j + 1]);
        }
        law_lex_le_prefix(a.drop_first(), b.drop_first());
    }
}

/// The names that a block reads of its `one` and `two` children follow
/// those already read, whatever those were.
pub proof fn law_two_accumulate(
    evs: Seq<SpecEvent>,
    pos: int,
    one: Seq<char>,
    two: Seq<char>,
    end: Seq<char>,
    ones: Seq<Seq<char>>,
    twos: Seq<Seq<char>>,
    ones2: Seq<Seq<char>>,
    twos2: Seq<Seq<char>>,
)
    requires
        spec_consume_two(evs, pos, one, two, end, ones, twos) is Ok,
    ensures
        ({
            let ((o, t), p) = spec_consume_two(evs, pos, one, two, end, ones, twos)->Ok_0;
            &&& ones.len() <= o.len()
            &&& twos.len() <= t.len()
            &&& o.subrange(0, ones.len() as int) == ones
            &&& t.subrange(0, twos.len() as int) == twos
            &&& spec_consume_two(evs, pos, one, two, end, ones2, twos2)
                == Ok::<((Seq<Seq<char>>, Seq<Seq<char>>), int), SpecError>((
                (ones2 + o.subrange(ones.len() as int, o.len() as int),
                 twos2 + t.subrange(twos.len() as int, t.len() as int)),
                p,
            ))
        }),
    decreases evs.len() - pos,
{
    let (e, p) = spec_next(evs, pos)->Ok_0;
    let ((o, t), _) = spec_consume_two(evs, pos, one, two, end, ones, twos)->Ok_0;
    let n = ones.len() as int;
    let m = twos.len() as int;
    match e {
        SpecEvent::StartElement { name, attributes } => {
            if one == name {
                let v = spec_required_attribute(attributes, "name"@)->Ok_0;
                law_two_accumulate(evs, p, one, two, end, ones.push(v), twos, ones2.push(v), twos2);
                assert(o.subrange(0, n + 1)[n] == v);
                assert(o.subrange(n, o.len() as int) =~= seq![v] + o.subrange(n + 1, o.len() as int));
                assert(ones2 + o.subrange(n, o.len() as int) =~= ones2.push(v) + o.subrange(n + 1, o.len() as int));
                assert(o.subrange(0, n) =~= ones.push(v).subrange(0, n));
            } else if "type"@ == name {
                law_two_accumulate(evs, p, one, two, end, ones, twos, ones2, twos2);
            } else {
                let v = spec_required_attribute(attributes, "name"@)->Ok_0;
                law_two_accumulate(evs, p, one, two, end, ones, twos.push(v), ones2, twos2.push(v));
                assert(t.subrange(0, m + 1)[m] == v);
                assert(t.subrange(m, t.len() as int) =~= seq![v] + t.subrange(m + 1, t.len() as int));
                assert(twos2 + t.subrange(m, t.len() as int) =~= twos2.push(v) + t.subrange(m + 1, t.len() as int));
                assert(t.subrange(0, m) =~= twos.push(v).subrange(0, m));
            }
        },
        SpecEvent::EndElement { name } => {
            if one == name || two == name || "type"@ == name {
                law_two_accumulate(evs, p, one, two, end, ones, twos, ones2, twos2);
            } else {
                assert(o.subrange(0, n) =~= ones);
                assert(t.subrange(0, m) =~= twos);
                assert(ones2 + o.subrange(n, o.len() as int) =~= ones2);
                assert(twos2 + t.subrange(m, t.len() as int) =~= twos2);
            }
        },
        _ => {},
    }
}

/// A `one` child read next in a block gives its name after the names
/// already read of that kind; a `two` child (of another name than `one`
/// and than `type`) likewise among the `two` names.
pub proof fn law_two_reads_in_order(
    evs: Seq<SpecEvent>,
    pos: int,
    one: Seq<char>,
    two: Seq<char>,
    end: Seq<char>,
    ones: Seq<Seq<char>>,
    twos: Seq<Seq<char>>,
    name: Seq<char>,
    attributes: Seq<(Seq<char>, Seq<char>)>,
    p: int,
)
    requires
        spec_next(evs, pos) == Ok::<(SpecEvent, int), SpecError>((SpecEvent::StartElement { name, attributes }, p)),
        name == one || (name == two && two != one && two != "type"@),
        spec_consume_two(evs, pos, one, two, end, ones, twos) is Ok,
    ensures
        ({
            let ((o, t), _) = spec_consume_two(evs, pos, one, two, end, ones, twos)->Ok_0;
            let v = spec_required_attribute(attributes, "name"@)->Ok_0;
            &&& name == one ==> o.len() > ones.len() && o.subrange(0, ones.len() as int) == ones && o[ones.len() as int] == v
            &&& name != one ==> t.len() > twos.len() && t.subrange(0, twos.len() as int) == twos && t[twos.len() as int] == v
        }),
{
    let v = spec_required_attribute(attributes, "name"@)->Ok_0;
    let ((o, t), _) = spec_consume_two(evs, pos, one, two, end, ones, twos)->Ok_0;
    let n = ones.len() as int;
    let m = twos.len() as int;
    if name == one {
        law_two_accumulate(evs, p, one, two, end, ones.push(v), twos, ones.push(v), twos);
        assert(o.subrange(0, n + 1)[n] == v);
        assert(o.subrange(0, n) =~= ones.push(v).subrange(0, n));
    } else {
        law_two_accumulate(evs, p, one, two, end, ones, twos.push(v), ones, twos.push(v));
        assert(t.subrange(0, m + 1)[m] == v);
        assert(t.subrange(0, m) =~= twos.push(v).subrange(0, m));
    }
}

/// The enums that an `<enums>` element reads follow those already read,
/// whatever those were.
pub proof fn law_enums_accumulate(api: Api, evs: Seq<SpecEvent>, pos: int, acc: Seq<SpecEnum>, acc2: Seq<SpecEnum>)
    requires
        spec_consume_enums(api, evs, pos, acc) is Ok,
    ensures
        ({
            let (es, p) = spec_consume_enums(api, evs, pos, acc)->Ok_0;
            &&& acc.len() <= es.len()
            &&& es.subrange(0, acc.len() as int) == acc
            &&& spec_consume_enums(api, evs, pos, acc2)
                == Ok::<(Seq<SpecEnum>, int), SpecError>((acc2 + es.subrange(acc.len() as int, es.len() as int), p))
        }),
    decreases evs.len() - pos,
{
    let (e, p) = spec_next(evs, pos)->Ok_0;
    let es = spec_consume_enums(api, evs, pos, acc)->Ok_0.0;
    let n = acc.len() as int;
    match e {
        SpecEvent::Characters(_) | SpecEvent::Comment(_) => {
            law_enums_accumulate(api, evs, p, acc, acc2);
        },
        SpecEvent::StartElement { name, attributes } => {
            if name == "unused"@ {
                let p2 = crate::block_laws::end_of(spec_skip_to_end(evs, p, "unused"@));
                law_enums_accumulate(api, evs, p2, acc, acc2);
            } else {
                let en = spec_enum_from(api, attributes)->Ok_0;
                let p2 = crate::block_laws::end_of(crate::parse::spec_consume_end_element(evs, p, "enum"@));
                law_enums_accumulate(api, evs, p2, acc.push(en), acc2.push(en));
                assert(es.subrange(0, n + 1)[n] == en);
                assert(es.subrange(n, es.len() as int) =~= seq![en] + es.subrange(n + 1, es.len() as int));
                assert(acc2 + es.subrange(n, es.len() as int) =~= acc2.push(en) + es.subrange(n + 1, es.len() as int));
                assert(es.subrange(0, n) =~= acc.push(en).subrange(0, n));
            }
        },
        _ => {
            assert(es.subrange(0, n) =~= acc);
            assert(acc2 + es.subrange(n, es.len() as int) =~= acc2);
        },
    }
}

/// An `<enum>` element read next gives its enum after those already read.
pub proof fn law_enum_read_in_order(
    api: Api,
    evs: Seq<SpecEvent>,
    pos: int,
    acc: Seq<SpecEnum>,
    attributes: Seq<(Seq<char>, Seq<char>)>,
    p: int,
)
    requires
        spec_next(evs, pos) == Ok::<(SpecEvent, int), SpecError>(
            (SpecEvent::StartElement { name: "enum"@, attributes }, p),
        ),
        spec_consume_enums(api, evs, pos, acc) is Ok,
    ensures
        ({
            let es = spec_consume_enums(api, evs, pos, acc)->Ok_0.0;
            &&& es.len() > acc.len()
            &&& es.subrange(0, acc.len() as int) == acc
            &&& es[acc.len() as int] == spec_enum_from(api, attributes)->Ok_0
        }),
{
    reveal_strlit("enum");
    reveal_strlit("unused");
    assert("enum"@.len() != "unused"@.len());
    let en = spec_enum_from(api, attributes)->Ok_0;
    let p2 = crate::block_laws::end_of(crate::parse::spec_consume_end_element(evs, p, "enum"@));
    law_enums_accumulate(api, evs, p2, acc.push(en), acc.push(en));
    let es = spec_consume_enums(api, evs, pos, acc)->Ok_0.0;
    let n = acc.len() as int;
    assert(es.subrange(0, n + 1)[n] == en);
    assert(es.subrange(0, n) =~= acc.push(en).subrange(0, n));
}

/// The enum that an `<enum>` element defines has the element's value, alias
/// and type, and its name is the element's name: the API's enum prefix
/// followed by the identifier, where the name carries that prefix.
pub proof fn law_enum_fields(api: Api, attrs: Seq<(Seq<char>, Seq<char>)>)
    requires
        spec_enum_from(api, attrs) is Ok,
    ensures
        ({
            let e = spec_enum_from(api, attrs)->Ok_0;
            let name = crate::xml_events::spec_get_attribute(attrs, "name"@)->Some_0;
            &&& crate::xml_events::spec_get_attribute(attrs, "name"@) is Some
            &&& crate::xml_events::spec_get_attribute(attrs, "value"@) == Some(e.value)
            &&& e.alias == crate::xml_events::spec_get_attribute(attrs, "alias"@)
            &&& e.ty == crate::xml_events::spec_get_attribute(attrs, "type"@)
            &&& starts_with(name, enum_prefix(api)) ==> enum_prefix(api) + e.ident == name
            &&& !starts_with(name, enum_prefix(api)) ==> e.ident == name
        }),
{
    let e = spec_enum_from(api, attrs)->Ok_0;
    let name = crate::xml_events::spec_get_attribute(attrs, "name"@)->Some_0;
    if starts_with(name, enum_prefix(api)) {
        assert(enum_prefix(api) + e.ident =~= name);
    }
}

/// Filing a command under the command it aliases puts its name last among
/// those filed under that command and changes nothing else; a command with
/// no alias is filed nowhere.
pub proof fn law_alias_filed_last(aliases: Map<Seq<char>, Seq<Seq<char>>>, c: SpecCmd)
    ensures
        c.alias matches Some(v) ==> {
            &&& file_alias(aliases, c).contains_key(v)
            &&& file_alias(aliases, c)[v] == values_of(aliases, v).push(c.proto.ident)
            &&& forall|k: Seq<char>| k != v ==> values_of(#[trigger] file_alias(aliases, c), k) == values_of(aliases, k)
        },
        c.alias is None ==> file_alias(aliases, c) == aliases,
{
}

} // verus!
