//! Reading a stretch of events does not depend on where it stands: moved
//! `k` places on, in another stream, the same events read the same.
//! From this, a `<remove>` block for a profile other than the wanted one,
//! put in between the parts of a feature of a document, changes nothing of
//! the registry selected from it.
use vstd::prelude::*;
use crate::api::{Api, cmd_prefix};
use crate::event_laws::ignorable;
use crate::parse::{Step, SpecError, SpecParsed, SpecRequire, SpecRemove, SpecFeature, SpecExtension, spec_next,
    spec_consume_characters, spec_consume_start_element, spec_consume_end_element, spec_skip_to_end,
    spec_consume_enums, spec_enum_from, spec_binding_type, spec_binding_suffix, spec_consume_binding, spec_cmd_rest,
    spec_consume_cmd, spec_consume_cmds, spec_consume_two, spec_require, spec_remove, spec_feature_parts,
    spec_feature, spec_extension_requires, spec_extension, spec_consume_extensions, spec_read_registry,
    spec_parse_events, spec_required_attribute, spec_trim_cmd_opt, file_alias, empty_parsed};
use crate::registry::{SpecBinding, SpecEnum, SpecCmd, SpecGlxOpcode};
use crate::select::{SpecFilter, spec_select};
use crate::text::spec_trim_str;
use crate::xml_events::{SpecEvent, spec_get_attribute};

verus! {

/// Events `lo..hi` of `evs` stand `k` places on in `evs2`.
pub open spec fn agree(evs: Seq<SpecEvent>, evs2: Seq<SpecEvent>, lo: int, hi: int, k: int) -> bool {
    &&& 0 <= lo + k
    &&& hi + k <= evs2.len()
    &&& forall|i: int| lo <= i < hi ==> evs2[i + k] == #[trigger] evs[i]
}

/// Where a successful step stops.
pub open spec fn end_of<T>(r: Step<T>) -> int {
    match r {
        Ok((_, p)) => p,
        Err(_) => 0,
    }
}

/// A step result with its position moved `k` places on.
pub open spec fn moved_by<T>(r: Step<T>, k: int) -> Step<T> {
    match r {
        Ok((v, p)) => Ok((v, p + k)),
        Err(e) => Err(e),
    }
}

proof fn mv_next(evs: Seq<SpecEvent>, evs2: Seq<SpecEvent>, k: int, pos: int)
    requires
        0 <= pos,
        spec_next(evs, pos) is Ok,
    ensures
        pos < end_of(spec_next(evs, pos)) <= evs.len(),
        agree(evs, evs2, pos, end_of(spec_next(evs, pos)), k) ==> spec_next(evs2, pos + k) == moved_by(spec_next(evs, pos), k),
    decreases evs.len() - pos,
{
    if pos < evs.len() && ignorable(evs[pos]) {
        mv_next(evs, evs2, k, pos + 1);
    }
    if agree(evs, evs2, pos, end_of(spec_next(evs, pos)), k) {
        assert(evs2[pos + k] == evs[pos]);
    }
}

proof fn mv_characters(evs: Seq<SpecEvent>, evs2: Seq<SpecEvent>, k: int, pos: int)
    requires
        0 <= pos,
        spec_consume_characters(evs, pos) is Ok,
    ensures
        pos < end_of(spec_consume_characters(evs, pos)) <= evs.len(),
        agree(evs, evs2, pos, end_of(spec_consume_characters(evs, pos)), k)
            ==> spec_consume_characters(evs2, pos + k) == moved_by(spec_consume_characters(evs, pos), k),
{
    mv_next(evs, evs2, k, pos);
}

proof fn mv_start(evs: Seq<SpecEvent>, evs2: Seq<SpecEvent>, k: int, pos: int, n: Seq<char>)
    requires
        0 <= pos,
        spec_consume_start_element(evs, pos, n) is Ok,
    ensures
        pos < end_of(spec_consume_start_element(evs, pos, n)) <= evs.len(),
        agree(evs, evs2, pos, end_of(spec_consume_start_element(evs, pos, n)), k)
            ==> spec_consume_start_element(evs2, pos + k, n) == moved_by(spec_consume_start_element(evs, pos, n), k),
{
    mv_next(evs, evs2, k, pos);
}

proof fn mv_end(evs: Seq<SpecEvent>, evs2: Seq<SpecEvent>, k: int, pos: int, n: Seq<char>)
    requires
        0 <= pos,
        spec_consume_end_element(evs, pos, n) is Ok,
    ensures
        pos < end_of(spec_consume_end_element(evs, pos, n)) <= evs.len(),
        agree(evs, evs2, pos, end_of(spec_consume_end_element(evs, pos, n)), k)
            ==> spec_consume_end_element(evs2, pos + k, n) == moved_by(spec_consume_end_element(evs, pos, n), k),
{
    mv_next(evs, evs2, k, pos);
}

proof fn mv_skip(evs: Seq<SpecEvent>, evs2: Seq<SpecEvent>, k: int, pos: int, n: Seq<char>)
    requires
        0 <= pos,
        spec_skip_to_end(evs, pos, n) is Ok,
    ensures
        pos < end_of(spec_skip_to_end(evs, pos, n)) <= evs.len(),
        agree(evs, evs2, pos, end_of(spec_skip_to_end(evs, pos, n)), k)
            ==> spec_skip_to_end(evs2, pos + k, n) == moved_by(spec_skip_to_end(evs, pos, n), k),
    decreases evs.len() - pos,
{
    mv_next(evs, evs2, k, pos);
    let (e, p) = spec_next(evs, pos)->Ok_0;
    match e {
        SpecEvent::EndElement { name } => {
            if name != n {
                mv_skip(evs, evs2, k, p, n);
            }
        },
        _ => {
            mv_skip(evs, evs2, k, p, n);
        },
    }
}

proof fn mv_enums(api: Api, evs: Seq<SpecEvent>, evs2: Seq<SpecEvent>, k: int, pos: int, acc: Seq<SpecEnum>)
    requires
        0 <= pos,
        spec_consume_enums(api, evs, pos, acc) is Ok,
    ensures
        pos < end_of(spec_consume_enums(api, evs, pos, acc)) <= evs.len(),
        agree(evs, evs2, pos, end_of(spec_consume_enums(api, evs, pos, acc)), k)
            ==> spec_consume_enums(api, evs2, pos + k, acc) == moved_by(spec_consume_enums(api, evs, pos, acc), k),
    decreases evs.len() - pos,
{
    mv_next(evs, evs2, k, pos);
    let (e, p) = spec_next(evs, pos)->Ok_0;
    match e {
        SpecEvent::Characters(_) | SpecEvent::Comment(_) => {
            mv_enums(api, evs, evs2, k, p, acc);
        },
        SpecEvent::StartElement { name, attributes } => {
            if name == "unused"@ {
                let p2 = end_of(spec_skip_to_end(evs, p, "unused"@));
                mv_enums(api, evs, evs2, k, p2, acc);
                mv_skip(evs, evs2, k, p, "unused"@);
            } else {
                let en = spec_enum_from(api, attributes)->Ok_0;
                let p2 = end_of(spec_consume_end_element(evs, p, "enum"@));
                mv_enums(api, evs, evs2, k, p2, acc.push(en));
                mv_end(evs, evs2, k, p, "enum"@);
            }
        },
        _ => {},
    }
}

proof fn mv_binding_type(evs: Seq<SpecEvent>, evs2: Seq<SpecEvent>, k: int, pos: int, ty: Seq<char>)
    requires
        0 <= pos,
        spec_binding_type(evs, pos, ty) is Ok,
    ensures
        pos < end_of(spec_binding_type(evs, pos, ty)) <= evs.len(),
        agree(evs, evs2, pos, end_of(spec_binding_type(evs, pos, ty)), k)
            ==> spec_binding_type(evs2, pos + k, ty) == moved_by(spec_binding_type(evs, pos, ty), k),
    decreases evs.len() - pos,
{
    mv_next(evs, evs2, k, pos);
    let (e, p) = spec_next(evs, pos)->Ok_0;
    match e {
        SpecEvent::Characters(ch) => {
            mv_binding_type(evs, evs2, k, p, ty + ch);
        },
        SpecEvent::StartElement { name, .. } => {
            if name == "ptype"@ {
                mv_binding_type(evs, evs2, k, p, ty);
            }
        },
        SpecEvent::EndElement { .. } => {
            mv_binding_type(evs, evs2, k, p, ty);
        },
        _ => {},
    }
}

proof fn mv_binding_suffix(evs: Seq<SpecEvent>, evs2: Seq<SpecEvent>, k: int, pos: int, outside: Seq<char>, ty: Seq<char>)
    requires
        0 <= pos,
        spec_binding_suffix(evs, pos, outside, ty) is Ok,
    ensures
        pos < end_of(spec_binding_suffix(evs, pos, outside, ty)) <= evs.len(),
        agree(evs, evs2, pos, end_of(spec_binding_suffix(evs, pos, outside, ty)), k)
            ==> spec_binding_suffix(evs2, pos + k, outside, ty) == moved_by(spec_binding_suffix(evs, pos, outside, ty), k),
    decreases evs.len() - pos,
{
    mv_next(evs, evs2, k, pos);
    let (e, p) = spec_next(evs, pos)->Ok_0;
    if let SpecEvent::Characters(ch) = e {
        mv_binding_suffix(evs, evs2, k, p, outside, ty + ch);
    }
}

proof fn mv_binding(evs: Seq<SpecEvent>, evs2: Seq<SpecEvent>, k: int, pos: int, outside: Seq<char>)
    requires
        0 <= pos,
        spec_consume_binding(evs, pos, outside) is Ok,
    ensures
        pos < end_of(spec_consume_binding(evs, pos, outside)) <= evs.len(),
        agree(evs, evs2, pos, end_of(spec_consume_binding(evs, pos, outside)), k)
            ==> spec_consume_binding(evs2, pos + k, outside) == moved_by(spec_consume_binding(evs, pos, outside), k),
{
    let (ty, p1) = spec_binding_type(evs, pos, Seq::empty())->Ok_0;
    mv_binding_type(evs, evs2, k, pos, Seq::empty());
    let p2 = end_of(spec_consume_characters(evs, p1));
    mv_characters(evs, evs2, k, p1);
    let p3 = end_of(spec_consume_end_element(evs, p2, "name"@));
    mv_end(evs, evs2, k, p2, "name"@);
    mv_binding_suffix(evs, evs2, k, p3, outside, ty);
}

proof fn mv_cmd_rest(
    api: Api,
    evs: Seq<SpecEvent>,
    evs2: Seq<SpecEvent>,
    k: int,
    pos: int,
    proto: SpecBinding,
    params: Seq<SpecBinding>,
    alias: Option<Seq<char>>,
    vecequiv: Option<Seq<char>>,
    glx: Option<SpecGlxOpcode>,
)
    requires
        0 <= pos,
        spec_cmd_rest(api, evs, pos, proto, params, alias, vecequiv, glx) is Ok,
    ensures
        pos < end_of(spec_cmd_rest(api, evs, pos, proto, params, alias, vecequiv, glx)) <= evs.len(),
        agree(evs, evs2, pos, end_of(spec_cmd_rest(api, evs, pos, proto, params, alias, vecequiv, glx)), k)
            ==> spec_cmd_rest(api, evs2, pos + k, proto, params, alias, vecequiv, glx)
            == moved_by(spec_cmd_rest(api, evs, pos, proto, params, alias, vecequiv, glx), k),
    decreases evs.len() - pos,
{
    mv_next(evs, evs2, k, pos);
    let (e, p) = spec_next(evs, pos)->Ok_0;
    if let SpecEvent::StartElement { name, attributes } = e {
        if name == "param"@ {
            let (b, p2) = spec_consume_binding(evs, p, "param"@)->Ok_0;
            mv_cmd_rest(api, evs, evs2, k, p2, proto, params.push(b), alias, vecequiv, glx);
            mv_binding(evs, evs2, k, p, "param"@);
        } else if name == "alias"@ {
            let p2 = end_of(spec_consume_end_element(evs, p, "alias"@));
            mv_cmd_rest(api, evs, evs2, k, p2, proto, params,
                spec_trim_cmd_opt(api, spec_get_attribute(attributes, "name"@)), vecequiv, glx);
            mv_end(evs, evs2, k, p, "alias"@);
        } else if name == "vecequiv"@ {
            let p2 = end_of(spec_consume_end_element(evs, p, "vecequiv"@));
            mv_cmd_rest(api, evs, evs2, k, p2, proto, params, alias, spec_get_attribute(attributes, "vecequiv"@), glx);
            mv_end(evs, evs2, k, p, "vecequiv"@);
        } else {
            let ty = spec_required_attribute(attributes, "type"@)->Ok_0;
            let opcode = spec_required_attribute(attributes, "opcode"@)->Ok_0;
            let p2 = end_of(spec_consume_end_element(evs, p, "glx"@));
            mv_cmd_rest(api, evs, evs2, k, p2, proto, params, alias, vecequiv,
                Some(SpecGlxOpcode { ty, opcode, name: spec_get_attribute(attributes, "name"@) }));
            mv_end(evs, evs2, k, p, "glx"@);
        }
    }
}

proof fn mv_cmd(api: Api, evs: Seq<SpecEvent>, evs2: Seq<SpecEvent>, k: int, pos: int)
    requires
        0 <= pos,
        spec_consume_cmd(api, evs, pos) is Ok,
    ensures
        pos < end_of(spec_consume_cmd(api, evs, pos)) <= evs.len(),
        agree(evs, evs2, pos, end_of(spec_consume_cmd(api, evs, pos)), k)
            ==> spec_consume_cmd(api, evs2, pos + k) == moved_by(spec_consume_cmd(api, evs, pos), k),
{
    mv_start(evs, evs2, k, pos, "proto"@);
    let p1 = end_of(spec_consume_start_element(evs, pos, "proto"@));
    mv_binding(evs, evs2, k, p1, "proto"@);
    let (b, p2) = spec_consume_binding(evs, p1, "proto"@)->Ok_0;
    mv_cmd_rest(api, evs, evs2, k, p2, SpecBinding { ident: spec_trim_str(b.ident, cmd_prefix(api)), ty: b.ty },
        Seq::empty(), None, None, None);
}

proof fn mv_cmds(
    api: Api,
    evs: Seq<SpecEvent>,
    evs2: Seq<SpecEvent>,
    k: int,
    pos: int,
    cmds: Seq<SpecCmd>,
    aliases: Map<Seq<char>, Seq<Seq<char>>>,
)
    requires
        0 <= pos,
        spec_consume_cmds(api, evs, pos, cmds, aliases) is Ok,
    ensures
        pos < end_of(spec_consume_cmds(api, evs, pos, cmds, aliases)) <= evs.len(),
        agree(evs, evs2, pos, end_of(spec_consume_cmds(api, evs, pos, cmds, aliases)), k)
            ==> spec_consume_cmds(api, evs2, pos + k, cmds, aliases) == moved_by(spec_consume_cmds(api, evs, pos, cmds, aliases), k),
    decreases evs.len() - pos,
{
    mv_next(evs, evs2, k, pos);
    let (e, p) = spec_next(evs, pos)->Ok_0;
    if let SpecEvent::StartElement { .. } = e {
        let (c, p2) = spec_consume_cmd(api, evs, p)->Ok_0;
        mv_cmds(api, evs, evs2, k, p2, cmds.push(c), file_alias(aliases, c));
        mv_cmd(api, evs, evs2, k, p);
    }
}

proof fn mv_two(
    evs: Seq<SpecEvent>,
    evs2: Seq<SpecEvent>,
    k: int,
    pos: int,
    one: Seq<char>,
    two: Seq<char>,
    end: Seq<char>,
    ones: Seq<Seq<char>>,
    twos: Seq<Seq<char>>,
)
    requires
        0 <= pos,
        spec_consume_two(evs, pos, one, two, end, ones, twos) is Ok,
    ensures
        pos < end_of(spec_consume_two(evs, pos, one, two, end, ones, twos)) <= evs.len(),
        agree(evs, evs2, pos, end_of(spec_consume_two(evs, pos, one, two, end, ones, twos)), k)
            ==> spec_consume_two(evs2, pos + k, one, two, end, ones, twos)
            == moved_by(spec_consume_two(evs, pos, one, two, end, ones, twos), k),
    decreases evs.len() - pos,
{
    mv_next(evs, evs2, k, pos);
    let (e, p) = spec_next(evs, pos)->Ok_0;
    match e {
        SpecEvent::StartElement { name, attributes } => {
            if one == name {
                let v = spec_required_attribute(attributes, "name"@)->Ok_0;
                mv_two(evs, evs2, k, p, one, two, end, ones.push(v), twos);
            } else if "type"@ == name {
                mv_two(evs, evs2, k, p, one, two, end, ones, twos);
            } else {
                let v = spec_required_attribute(attributes, "name"@)->Ok_0;
                mv_two(evs, evs2, k, p, one, two, end, ones, twos.push(v));
            }
        },
        SpecEvent::EndElement { name } => {
            if one == name || two == name || "type"@ == name {
                mv_two(evs, evs2, k, p, one, two, end, ones, twos);
            }
        },
        _ => {},
    }
}

proof fn mv_require(evs: Seq<SpecEvent>, evs2: Seq<SpecEvent>, k: int, pos: int)
    requires
        0 <= pos,
        spec_require(evs, pos) is Ok,
    ensures
        pos < end_of(spec_require(evs, pos)) <= evs.len(),
        agree(evs, evs2, pos, end_of(spec_require(evs, pos)), k) ==> spec_require(evs2, pos + k) == moved_by(spec_require(evs, pos), k),
{
    mv_two(evs, evs2, k, pos, "enum"@, "command"@, "require"@, Seq::empty(), Seq::empty());
}

proof fn mv_remove(attrs: Seq<(Seq<char>, Seq<char>)>, evs: Seq<SpecEvent>, evs2: Seq<SpecEvent>, k: int, pos: int)
    requires
        0 <= pos,
        spec_remove(attrs, evs, pos) is Ok,
    ensures
        pos < end_of(spec_remove(attrs, evs, pos)) <= evs.len(),
        agree(evs, evs2, pos, end_of(spec_remove(attrs, evs, pos)), k)
            ==> spec_remove(attrs, evs2, pos + k) == moved_by(spec_remove(attrs, evs, pos), k),
{
    mv_two(evs, evs2, k, pos, "enum"@, "command"@, "remove"@, Seq::empty(), Seq::empty());
}

proof fn mv_parts(evs: Seq<SpecEvent>, evs2: Seq<SpecEvent>, k: int, pos: int, reqs: Seq<SpecRequire>, rems: Seq<SpecRemove>)
    requires
        0 <= pos,
        spec_feature_parts(evs, pos, reqs, rems) is Ok,
    ensures
        pos < end_of(spec_feature_parts(evs, pos, reqs, rems)) <= evs.len(),
        agree(evs, evs2, pos, end_of(spec_feature_parts(evs, pos, reqs, rems)), k)
            ==> spec_feature_parts(evs2, pos + k, reqs, rems) == moved_by(spec_feature_parts(evs, pos, reqs, rems), k),
    decreases evs.len() - pos,
{
    mv_next(evs, evs2, k, pos);
    let (e, p) = spec_next(evs, pos)->Ok_0;
    match e {
        SpecEvent::StartElement { name, attributes } => {
            if "require"@ == name {
                let (x, p2) = spec_require(evs, p)->Ok_0;
                mv_parts(evs, evs2, k, p2, reqs.push(x), rems);
                mv_require(evs, evs2, k, p);
            } else if "type"@ == name {
                mv_parts(evs, evs2, k, p, reqs, rems);
            } else {
                let (x, p2) = spec_remove(attributes, evs, p)->Ok_0;
                mv_parts(evs, evs2, k, p2, reqs, rems.push(x));
                mv_remove(attributes, evs, evs2, k, p);
            }
        },
        SpecEvent::EndElement { name } => {
            if "require"@ == name || "remove"@ == name || "type"@ == name {
                mv_parts(evs, evs2, k, p, reqs, rems);
            }
        },
        _ => {},
    }
}

proof fn mv_feature(attrs: Seq<(Seq<char>, Seq<char>)>, evs: Seq<SpecEvent>, evs2: Seq<SpecEvent>, k: int, pos: int)
    requires
        0 <= pos,
        spec_feature(attrs, evs, pos) is Ok,
    ensures
        pos < end_of(spec_feature(attrs, evs, pos)) <= evs.len(),
        agree(evs, evs2, pos, end_of(spec_feature(attrs, evs, pos)), k)
            ==> spec_feature(attrs, evs2, pos + k) == moved_by(spec_feature(attrs, evs, pos), k),
{
    mv_parts(evs, evs2, k, pos, Seq::empty(), Seq::empty());
}

proof fn mv_ext_requires(evs: Seq<SpecEvent>, evs2: Seq<SpecEvent>, k: int, pos: int, reqs: Seq<SpecRequire>)
    requires
        0 <= pos,
        spec_extension_requires(evs, pos, reqs) is Ok,
    ensures
        pos < end_of(spec_extension_requires(evs, pos, reqs)) <= evs.len(),
        agree(evs, evs2, pos, end_of(spec_extension_requires(evs, pos, reqs)), k)
            ==> spec_extension_requires(evs2, pos + k, reqs) == moved_by(spec_extension_requires(evs, pos, reqs), k),
    decreases evs.len() - pos,
{
    mv_next(evs, evs2, k, pos);
    let (e, p) = spec_next(evs, pos)->Ok_0;
    if let SpecEvent::StartElement { .. } = e {
        let (x, p2) = spec_require(evs, p)->Ok_0;
        mv_ext_requires(evs, evs2, k, p2, reqs.push(x));
        mv_require(evs, evs2, k, p);
    }
}

proof fn mv_extension(attrs: Seq<(Seq<char>, Seq<char>)>, evs: Seq<SpecEvent>, evs2: Seq<SpecEvent>, k: int, pos: int)
    requires
        0 <= pos,
        spec_extension(attrs, evs, pos) is Ok,
    ensures
        pos < end_of(spec_extension(attrs, evs, pos)) <= evs.len(),
        agree(evs, evs2, pos, end_of(spec_extension(attrs, evs, pos)), k)
            ==> spec_extension(attrs, evs2, pos + k) == moved_by(spec_extension(attrs, evs, pos), k),
{
    mv_ext_requires(evs, evs2, k, pos, Seq::empty());
}

proof fn mv_extensions(evs: Seq<SpecEvent>, evs2: Seq<SpecEvent>, k: int, pos: int, exts: Seq<SpecExtension>)
    requires
        0 <= pos,
        spec_consume_extensions(evs, pos, exts) is Ok,
    ensures
        pos < end_of(spec_consume_extensions(evs, pos, exts)) <= evs.len(),
        agree(evs, evs2, pos, end_of(spec_consume_extensions(evs, pos, exts)), k)
            ==> spec_consume_extensions(evs2, pos + k, exts) == moved_by(spec_consume_extensions(evs, pos, exts), k),
    decreases evs.len() - pos,
{
    mv_next(evs, evs2, k, pos);
    let (e, p) = spec_next(evs, pos)->Ok_0;
    if let SpecEvent::StartElement { attributes, .. } = e {
        let (x, p2) = spec_extension(attributes, evs, p)->Ok_0;
        mv_extensions(evs, evs2, k, p2, exts.push(x));
        mv_extension(attributes, evs, evs2, k, p);
    }
}

proof fn mv_registry(api: Api, evs: Seq<SpecEvent>, evs2: Seq<SpecEvent>, k: int, pos: int, st: SpecParsed)
    requires
        0 <= pos,
        spec_read_registry(api, evs, pos, st) is Ok,
    ensures
        pos < end_of(spec_read_registry(api, evs, pos, st)) <= evs.len(),
        agree(evs, evs2, pos, end_of(spec_read_registry(api, evs, pos, st)), k)
            ==> spec_read_registry(api, evs2, pos + k, st) == moved_by(spec_read_registry(api, evs, pos, st), k),
    decreases evs.len() - pos,
{
    mv_next(evs, evs2, k, pos);
    let (e, p) = spec_next(evs, pos)->Ok_0;
    match e {
        SpecEvent::Characters(_) | SpecEvent::Comment(_) => {
            mv_registry(api, evs, evs2, k, p, st);
        },
        SpecEvent::StartElement { name, attributes } => {
            if name == "comment"@ || name == "types"@ || name == "groups"@ {
                let p2 = end_of(spec_skip_to_end(evs, p, name));
                mv_registry(api, evs, evs2, k, p2, st);
                mv_skip(evs, evs2, k, p, name);
            } else if name == "enums"@ {
                let (es, p2) = spec_consume_enums(api, evs, p, Seq::empty())->Ok_0;
                mv_registry(api, evs, evs2, k, p2, SpecParsed { enums: st.enums + es, ..st });
                mv_enums(api, evs, evs2, k, p, Seq::empty());
            } else if name == "commands"@ {
                let ((cs, al), p2) = spec_consume_cmds(api, evs, p, Seq::empty(), Map::empty())->Ok_0;
                mv_registry(api, evs, evs2, k, p2,
                    SpecParsed { cmds: st.cmds + cs, aliases: crate::registry::merged(st.aliases, al), ..st });
                mv_cmds(api, evs, evs2, k, p, Seq::empty(), Map::empty());
            } else if name == "feature"@ {
                let (f, p2) = spec_feature(attributes, evs, p)->Ok_0;
                mv_registry(api, evs, evs2, k, p2, SpecParsed { features: st.features.push(f), ..st });
                mv_feature(attributes, evs, evs2, k, p);
            } else {
                let (xs, p2) = spec_consume_extensions(evs, p, Seq::empty())->Ok_0;
                mv_registry(api, evs, evs2, k, p2, SpecParsed { extensions: st.extensions + xs, ..st });
                mv_extensions(evs, evs2, k, p, Seq::empty());
            }
        },
        _ => {},
    }
}

/// `evs` with the events `b` put in at position `q`.
pub open spec fn insert_block(evs: Seq<SpecEvent>, q: int, b: Seq<SpecEvent>) -> Seq<SpecEvent> {
    evs.subrange(0, q) + b + evs.subrange(q, evs.len() as int)
}

/// `b` is a whole `<remove>` block, which reads as `r`.
pub open spec fn is_remove_block(b: Seq<SpecEvent>, r: SpecRemove) -> bool {
    &&& b.len() > 0
    &&& b[0] matches SpecEvent::StartElement { name, attributes }
        && name == "remove"@
        && spec_remove(attributes, b, 1) == Ok::<(SpecRemove, int), SpecError>((r, b.len() as int))
}

/// Position `q` lies in the gap, from `pos`, before the next part of a
/// feature whose parts are read from `pos`, or before a later one: right
/// after the start tag, between two parts, or before the end tag.
pub open spec fn parts_gap(evs: Seq<SpecEvent>, pos: int, q: int) -> bool
    decreases evs.len() - pos,
{
    pos <= q && match spec_next(evs, pos) {
        Err(_) => false,
        Ok((e, p)) => q < p || (pos < p <= evs.len() && match e {
            SpecEvent::StartElement { name, attributes } => if "require"@ == name {
                match spec_require(evs, p) {
                    Ok((_, p2)) => pos < p2 <= evs.len() && parts_gap(evs, p2, q),
                    Err(_) => false,
                }
            } else if "type"@ == name {
                parts_gap(evs, p, q)
            } else if "remove"@ == name {
                match spec_remove(attributes, evs, p) {
                    Ok((_, p2)) => pos < p2 <= evs.len() && parts_gap(evs, p2, q),
                    Err(_) => false,
                }
            } else {
                false
            },
            SpecEvent::EndElement { name } => ("require"@ == name || "remove"@ == name || "type"@ == name)
                && parts_gap(evs, p, q),
            _ => false,
        }),
    }
}

/// Where a successful step stops, if it succeeds.
pub open spec fn ok_end<T>(r: Step<T>) -> Option<int> {
    match r {
        Ok((_, p)) => Some(p),
        Err(_) => None,
    }
}

/// Where the child of `<registry>` named `name`, whose start tag has been
/// read, ends, if it is read.
pub open spec fn element_end(
    api: Api,
    evs: Seq<SpecEvent>,
    p: int,
    name: Seq<char>,
    attributes: Seq<(Seq<char>, Seq<char>)>,
) -> Option<int> {
    if name == "comment"@ || name == "types"@ || name == "groups"@ {
        ok_end(spec_skip_to_end(evs, p, name))
    } else if name == "enums"@ {
        ok_end(spec_consume_enums(api, evs, p, Seq::empty()))
    } else if name == "commands"@ {
        ok_end(spec_consume_cmds(api, evs, p, Seq::empty(), Map::empty()))
    } else if name == "feature"@ {
        ok_end(spec_feature(attributes, evs, p))
    } else if name == "extensions"@ {
        ok_end(spec_consume_extensions(evs, p, Seq::empty()))
    } else {
        None
    }
}

/// Position `q` lies in a gap between the parts of a `<feature>` among the
/// children of `<registry>` read from `pos`.
pub open spec fn registry_gap(api: Api, evs: Seq<SpecEvent>, pos: int, q: int) -> bool
    decreases evs.len() - pos,
{
    pos <= q && match spec_next(evs, pos) {
        Err(_) => false,
        Ok((e, p)) => pos < p <= evs.len() && match e {
            SpecEvent::Characters(_) | SpecEvent::Comment(_) => registry_gap(api, evs, p, q),
            SpecEvent::StartElement { name, attributes } => (name == "feature"@ && parts_gap(evs, p, q))
                || match element_end(api, evs, p, name, attributes) {
                Some(p2) => pos < p2 <= evs.len() && registry_gap(api, evs, p2, q),
                None => false,
            },
            _ => false,
        },
    }
}

/// Position `q` of a registry document lies in a gap between the parts of
/// one of its features: right after the start tag of a `<feature>`,
/// between two of its blocks, or before its end tag.
pub open spec fn feature_gap(api: Api, evs: Seq<SpecEvent>, q: int) -> bool {
    match spec_consume_start_element(evs, 0, "registry"@) {
        Ok((_, p)) => registry_gap(api, evs, p, q),
        Err(_) => false,
    }
}

proof fn lemma_insert_facts(evs: Seq<SpecEvent>, q: int, b: Seq<SpecEvent>)
    requires
        0 <= q <= evs.len(),
    ensures
        insert_block(evs, q, b).len() == evs.len() + b.len(),
        forall|i: int| 0 <= i < q ==> insert_block(evs, q, b)[i] == #[trigger] evs[i],
        forall|i: int| 0 <= i < b.len() ==> insert_block(evs, q, b)[i + q] == #[trigger] b[i],
        forall|i: int| q <= i < evs.len() ==> insert_block(evs, q, b)[i + b.len()] == #[trigger] evs[i],
{
}

proof fn lemma_strings()
    ensures
        "require"@ != "remove"@,
        "type"@ != "remove"@,
        "feature"@ != "remove"@,
        "feature"@ != "comment"@,
        "feature"@ != "types"@,
        "feature"@ != "groups"@,
        "feature"@ != "enums"@,
        "feature"@ != "commands"@,
{
    reveal_strlit("require");
    reveal_strlit("remove");
    reveal_strlit("type");
    reveal_strlit("feature");
    reveal_strlit("comment");
    reveal_strlit("types");
    reveal_strlit("groups");
    reveal_strlit("enums");
    reveal_strlit("commands");
    assert("feature"@[0] != "comment"@[0]);
    assert("feature"@.len() != "types"@.len());
    assert("feature"@.len() != "groups"@.len());
    assert("feature"@.len() != "enums"@.len());
    assert("feature"@.len() != "commands"@.len());
    assert("require"@.len() != "remove"@.len());
    assert("type"@.len() != "remove"@.len());
    assert("feature"@.len() != "remove"@.len());
}

/// Reading from `pos` in the gap before the next event at or after `q`:
/// the longer stream reaches the first event put in at `q`, and the
/// original one reads the same from `q` as from `pos`.
proof fn lemma_gap_next(evs: Seq<SpecEvent>, evs2: Seq<SpecEvent>, pos: int, q: int)
    requires
        0 <= pos <= q < end_of(spec_next(evs, pos)),
        spec_next(evs, pos) is Ok,
        q < evs2.len(),
        forall|i: int| 0 <= i < q ==> evs2[i] == #[trigger] evs[i],
        evs2[q] is StartElement,
    ensures
        spec_next(evs2, pos) == Ok::<(SpecEvent, int), SpecError>((evs2[q], q + 1)),
        spec_next(evs, q) == spec_next(evs, pos),
    decreases q - pos,
{
    if pos < q {
        assert(evs2[pos] == evs[pos]);
        lemma_gap_next(evs, evs2, pos + 1, q);
    }
}

proof fn lemma_parts_from_gap(evs: Seq<SpecEvent>, pos: int, q: int, reqs: Seq<SpecRequire>, rems: Seq<SpecRemove>)
    requires
        0 <= pos <= q < end_of(spec_next(evs, pos)),
        spec_next(evs, pos) is Ok,
        spec_next(evs, q) == spec_next(evs, pos),
    ensures
        spec_feature_parts(evs, q, reqs, rems) == spec_feature_parts(evs, pos, reqs, rems),
{
    mv_next(evs, evs, 0, pos);
    let (e, p) = spec_next(evs, pos)->Ok_0;
    if let SpecEvent::StartElement { name, attributes } = e {
        if spec_require(evs, p) is Ok {
            mv_require(evs, evs, 0, p);
        }
        if spec_remove(attributes, evs, p) is Ok {
            mv_remove(attributes, evs, evs, 0, p);
        }
    }
}

/// The removes that the parts of a feature read follow those already held,
/// whatever those are.
proof fn acc_parts(evs: Seq<SpecEvent>, pos: int, reqs: Seq<SpecRequire>, rems: Seq<SpecRemove>, rems2: Seq<SpecRemove>)
    requires
        0 <= pos,
        spec_feature_parts(evs, pos, reqs, rems) is Ok,
    ensures
        ({
            let ((rq, m), e) = spec_feature_parts(evs, pos, reqs, rems)->Ok_0;
            &&& rems.len() <= m.len()
            &&& m.subrange(0, rems.len() as int) == rems
            &&& spec_feature_parts(evs, pos, reqs, rems2)
                == Ok::<((Seq<SpecRequire>, Seq<SpecRemove>), int), SpecError>(
                ((rq, rems2 + m.subrange(rems.len() as int, m.len() as int)), e),
            )
        }),
    decreases evs.len() - pos,
{
    mv_next(evs, evs, 0, pos);
    let (e, p) = spec_next(evs, pos)->Ok_0;
    let m = spec_feature_parts(evs, pos, reqs, rems)->Ok_0.0.1;
    match e {
        SpecEvent::StartElement { name, attributes } => {
            if "require"@ == name {
                let (x, p2) = spec_require(evs, p)->Ok_0;
                acc_parts(evs, p2, reqs.push(x), rems, rems2);
            } else if "type"@ == name {
                acc_parts(evs, p, reqs, rems, rems2);
            } else {
                let (x, p2) = spec_remove(attributes, evs, p)->Ok_0;
                acc_parts(evs, p2, reqs, rems.push(x), rems2.push(x));
                let n = rems.len() as int;
                assert(m.subrange(0, n + 1)[n] == x);
                assert(m[n] == x);
                assert(m.subrange(n, m.len() as int) =~= seq![x] + m.subrange(n + 1, m.len() as int));
                assert(m.subrange(0, rems.len() as int) =~= rems.push(x).subrange(0, rems.len() as int));
                assert(rems2 + m.subrange(rems.len() as int, m.len() as int)
                    =~= rems2.push(x) + m.subrange(rems.len() + 1int, m.len() as int));
            }
        },
        SpecEvent::EndElement { name } => {
            if "require"@ == name || "remove"@ == name || "type"@ == name {
                acc_parts(evs, p, reqs, rems, rems2);
            } else {
                assert(rems2 + m.subrange(rems.len() as int, m.len() as int) =~= rems2);
            }
        },
        _ => {},
    }
}

/// A `<remove>` block put in at a gap of the parts read from `pos` is read
/// with them: the removes read gain it at some place, and the end moves on
/// by the length of the block.
proof fn lemma_parts_insert(
    evs: Seq<SpecEvent>,
    b: Seq<SpecEvent>,
    r: SpecRemove,
    q: int,
    pos: int,
    reqs: Seq<SpecRequire>,
    rems: Seq<SpecRemove>,
) -> (i: int)
    requires
        0 <= pos,
        q <= evs.len(),
        parts_gap(evs, pos, q),
        spec_feature_parts(evs, pos, reqs, rems) is Ok,
        is_remove_block(b, r),
    ensures
        ({
            let ((rq, m), e) = spec_feature_parts(evs, pos, reqs, rems)->Ok_0;
            &&& 0 <= i <= m.len()
            &&& spec_feature_parts(insert_block(evs, q, b), pos, reqs, rems)
                == Ok::<((Seq<SpecRequire>, Seq<SpecRemove>), int), SpecError>(
                ((rq, m.insert(i, r)), e + b.len()),
            )
        }),
    decreases evs.len() - pos,
{
    let evs2 = insert_block(evs, q, b);
    let k = b.len() as int;
    lemma_insert_facts(evs, q, b);
    lemma_strings();
    mv_next(evs, evs2, 0, pos);
    let (e, p) = spec_next(evs, pos)->Ok_0;
    let ((rq, m), fin) = spec_feature_parts(evs, pos, reqs, rems)->Ok_0;
    if q < p {
        assert(evs2[q] == b[0]);
        lemma_gap_next(evs, evs2, pos, q);
        let a = b[0]->StartElement_attributes;
        mv_remove(a, b, evs2, q, 1);
        assert(agree(b, evs2, 1, k, q));
        lemma_parts_from_gap(evs, pos, q, reqs, rems);
        acc_parts(evs, q, reqs, rems, rems.push(r));
        mv_parts(evs, evs2, k, q, reqs, rems.push(r));
        assert(agree(evs, evs2, q, fin, k));
        assert(m.insert(rems.len() as int, r) =~= rems.push(r) + m.subrange(rems.len() as int, m.len() as int)) by {
            assert(m =~= m.subrange(0, rems.len() as int) + m.subrange(rems.len() as int, m.len() as int));
        }
        rems.len() as int
    } else {
        assert(agree(evs, evs2, pos, p, 0));
        reveal_with_fuel(parts_gap, 2);
        match e {
            SpecEvent::StartElement { name, attributes } => {
                if "require"@ == name {
                    let (x, p2) = spec_require(evs, p)->Ok_0;
                    mv_require(evs, evs2, 0, p);
                    assert(agree(evs, evs2, p, p2, 0));
                    lemma_parts_insert(evs, b, r, q, p2, reqs.push(x), rems)
                } else if "type"@ == name {
                    lemma_parts_insert(evs, b, r, q, p, reqs, rems)
                } else {
                    let (x, p2) = spec_remove(attributes, evs, p)->Ok_0;
                    mv_remove(attributes, evs, evs2, 0, p);
                    assert(agree(evs, evs2, p, p2, 0));
                    lemma_parts_insert(evs, b, r, q, p2, reqs, rems.push(x))
                }
            },
            _ => lemma_parts_insert(evs, b, r, q, p, reqs, rems),
        }
    }
}

/// What was read, with feature `j` replaced by `g`.
pub open spec fn with_feature(st: SpecParsed, j: int, g: SpecFeature) -> SpecParsed {
    SpecParsed { features: st.features.update(j, g), ..st }
}

/// Reading the children of `<registry>` keeps the features already held
/// and never looks at them.
proof fn upd_registry(api: Api, evs: Seq<SpecEvent>, pos: int, st: SpecParsed, j: int, g: SpecFeature)
    requires
        0 <= pos,
        spec_read_registry(api, evs, pos, st) is Ok,
        0 <= j < st.features.len(),
    ensures
        ({
            let (fin, e) = spec_read_registry(api, evs, pos, st)->Ok_0;
            &&& j < fin.features.len()
            &&& fin.features[j] == st.features[j]
            &&& spec_read_registry(api, evs, pos, with_feature(st, j, g))
                == Ok::<(SpecParsed, int), SpecError>((with_feature(fin, j, g), e))
        }),
    decreases evs.len() - pos,
{
    mv_next(evs, evs, 0, pos);
    let (e, p) = spec_next(evs, pos)->Ok_0;
    match e {
        SpecEvent::Characters(_) | SpecEvent::Comment(_) => {
            upd_registry(api, evs, p, st, j, g);
        },
        SpecEvent::StartElement { name, attributes } => {
            if name == "comment"@ || name == "types"@ || name == "groups"@ {
                let p2 = end_of(spec_skip_to_end(evs, p, name));
                upd_registry(api, evs, p2, st, j, g);
            } else if name == "enums"@ {
                let (es, p2) = spec_consume_enums(api, evs, p, Seq::empty())->Ok_0;
                upd_registry(api, evs, p2, SpecParsed { enums: st.enums + es, ..st }, j, g);
            } else if name == "commands"@ {
                let ((cs, al), p2) = spec_consume_cmds(api, evs, p, Seq::empty(), Map::empty())->Ok_0;
                upd_registry(api, evs, p2,
                    SpecParsed { cmds: st.cmds + cs, aliases: crate::registry::merged(st.aliases, al), ..st }, j, g);
            } else if name == "feature"@ {
                let (f, p2) = spec_feature(attributes, evs, p)->Ok_0;
                let st1 = SpecParsed { features: st.features.push(f), ..st };
                upd_registry(api, evs, p2, st1, j, g);
                assert(with_feature(st, j, g).features.push(f) =~= st1.features.update(j, g));
            } else {
                let (xs, p2) = spec_consume_extensions(evs, p, Seq::empty())->Ok_0;
                upd_registry(api, evs, p2, SpecParsed { extensions: st.extensions + xs, ..st }, j, g);
            }
        },
        _ => {},
    }
}

/// Selection does not change when feature `j` gains a remove for another
/// profile at place `i`.
proof fn lemma_select_with_remove(api: Api, filter: SpecFilter, parsed: SpecParsed, j: int, i: int, r: SpecRemove)
    requires
        0 <= j < parsed.features.len(),
        0 <= i <= parsed.features[j].removes.len(),
        r.profile != filter.profile,
    ensures
        spec_select(
            api,
            filter,
            with_feature(parsed, j, SpecFeature { removes: parsed.features[j].removes.insert(i, r), ..parsed.features[j] }),
        ) == spec_select(api, filter, parsed),
{
    let fs = parsed.features;
    let f = fs[j];
    let before = f.removes.subrange(0, i);
    let after = f.removes.subrange(i, f.removes.len() as int);
    let g = SpecFeature { removes: f.removes.insert(i, r), ..f };
    let fs2 = fs.update(j, g);
    assert(f.removes =~= before + after);
    assert(f.removes.insert(i, r) =~= before + seq![r] + after);
    crate::laws::law_other_profile_remove_ignored(
        fs.subrange(0, j), f, fs.subrange(j + 1, fs.len() as int), before, r, after, api, filter);
    assert(fs =~= fs.subrange(0, j) + seq![f] + fs.subrange(j + 1, fs.len() as int));
    assert(fs2 =~= fs.subrange(0, j) + seq![g] + fs.subrange(j + 1, fs.len() as int));
    assert forall|x: int| 0 <= x < fs.len() implies fs2[x].number == fs[x].number by {}
    if crate::select::version_found(fs, filter.version) {
        let x = choose|x: int| 0 <= x < fs.len() && #[trigger] fs[x].number == filter.version;
        assert(fs2[x].number == filter.version);
    }
    if crate::select::version_found(fs2, filter.version) {
        let x = choose|x: int| 0 <= x < fs2.len() && #[trigger] fs2[x].number == filter.version;
        assert(fs[x].number == filter.version);
    }
}

/// A gap of a feature's parts lies before the end of the feature.
proof fn lemma_gap_inside(evs: Seq<SpecEvent>, pos: int, q: int, reqs: Seq<SpecRequire>, rems: Seq<SpecRemove>)
    requires
        0 <= pos,
        parts_gap(evs, pos, q),
        spec_feature_parts(evs, pos, reqs, rems) is Ok,
    ensures
        q < end_of(spec_feature_parts(evs, pos, reqs, rems)),
    decreases evs.len() - pos,
{
    mv_next(evs, evs, 0, pos);
    let (e, p) = spec_next(evs, pos)->Ok_0;
    match e {
        SpecEvent::StartElement { name, attributes } => {
            if "require"@ == name {
                let (x, p2) = spec_require(evs, p)->Ok_0;
                mv_require(evs, evs, 0, p);
                mv_parts(evs, evs, 0, p2, reqs.push(x), rems);
                if !(q < p) {
                    lemma_gap_inside(evs, p2, q, reqs.push(x), rems);
                }
            } else if "type"@ == name {
                mv_parts(evs, evs, 0, p, reqs, rems);
                if !(q < p) {
                    lemma_gap_inside(evs, p, q, reqs, rems);
                }
            } else {
                let (x, p2) = spec_remove(attributes, evs, p)->Ok_0;
                mv_remove(attributes, evs, evs, 0, p);
                mv_parts(evs, evs, 0, p2, reqs, rems.push(x));
                if !(q < p) {
                    lemma_gap_inside(evs, p2, q, reqs, rems.push(x));
                }
            }
        },
        SpecEvent::EndElement { name } => {
            if "require"@ == name || "remove"@ == name || "type"@ == name {
                mv_parts(evs, evs, 0, p, reqs, rems);
                if !(q < p) {
                    lemma_gap_inside(evs, p, q, reqs, rems);
                }
            }
        },
        _ => {},
    }
}

/// A `<remove>` block put in at a gap of a feature's parts is read with
/// the feature, at some place among its removes.
proof fn lemma_feature_read_insert(
    evs: Seq<SpecEvent>,
    b: Seq<SpecEvent>,
    r: SpecRemove,
    q: int,
    p: int,
    attributes: Seq<(Seq<char>, Seq<char>)>,
) -> (i: int)
    requires
        0 <= p,
        q <= evs.len(),
        parts_gap(evs, p, q),
        spec_feature(attributes, evs, p) is Ok,
        is_remove_block(b, r),
    ensures
        ({
            let (f, p2) = spec_feature(attributes, evs, p)->Ok_0;
            &&& 0 <= i <= f.removes.len()
            &&& spec_feature(attributes, insert_block(evs, q, b), p)
                == Ok::<(SpecFeature, int), SpecError>(
                (SpecFeature { removes: f.removes.insert(i, r), ..f }, p2 + b.len()),
            )
        }),
{
    lemma_parts_insert(evs, b, r, q, p, Seq::empty(), Seq::empty())
}

/// Reading the children of `<registry>` at a `<feature>` goes on after it
/// with the feature added.
proof fn lemma_registry_feature_step(
    api: Api,
    evs: Seq<SpecEvent>,
    pos: int,
    st: SpecParsed,
    p: int,
    attributes: Seq<(Seq<char>, Seq<char>)>,
    f: SpecFeature,
    p2: int,
)
    requires
        spec_next(evs, pos) == Ok::<(SpecEvent, int), SpecError>(
            (SpecEvent::StartElement { name: "feature"@, attributes }, p),
        ),
        spec_feature(attributes, evs, p) == Ok::<(SpecFeature, int), SpecError>((f, p2)),
        pos < p2 <= evs.len(),
    ensures
        spec_read_registry(api, evs, pos, st)
            == spec_read_registry(api, evs, p2, SpecParsed { features: st.features.push(f), ..st }),
{
    lemma_strings();
}

/// The `<remove>` block stands in the feature whose start tag ends at `p`.
#[verifier::spinoff_prover]
#[verifier::rlimit(100)]
proof fn lemma_feature_insert(
    api: Api,
    evs: Seq<SpecEvent>,
    b: Seq<SpecEvent>,
    r: SpecRemove,
    q: int,
    pos: int,
    p: int,
    attributes: Seq<(Seq<char>, Seq<char>)>,
    st: SpecParsed,
    filter: SpecFilter,
)
    requires
        0 <= pos,
        q <= evs.len(),
        spec_next(evs, pos) == Ok::<(SpecEvent, int), SpecError>(
            (SpecEvent::StartElement { name: "feature"@, attributes }, p),
        ),
        parts_gap(evs, p, q),
        spec_feature(attributes, evs, p) is Ok,
        spec_read_registry(api, evs, end_of(spec_feature(attributes, evs, p)),
            SpecParsed { features: st.features.push(spec_feature(attributes, evs, p)->Ok_0.0), ..st }) is Ok,
        is_remove_block(b, r),
        r.profile != filter.profile,
    ensures
        spec_read_registry(api, insert_block(evs, q, b), pos, st) is Ok,
        spec_select(api, filter, spec_read_registry(api, insert_block(evs, q, b), pos, st)->Ok_0.0)
            == spec_select(api, filter, spec_read_registry(api, evs, pos, st)->Ok_0.0),
{
    let evs2 = insert_block(evs, q, b);
    let k = b.len() as int;
    mv_next(evs, evs2, 0, pos);
    let (f, p2) = spec_feature(attributes, evs, p)->Ok_0;
    mv_feature(attributes, evs, evs, 0, p);
    lemma_gap_inside(evs, p, q, Seq::empty(), Seq::empty());
    let st1 = SpecParsed { features: st.features.push(f), ..st };
    lemma_registry_feature_step(api, evs, pos, st, p, attributes, f, p2);
    let (fin, e2) = spec_read_registry(api, evs, p2, st1)->Ok_0;
    mv_registry(api, evs, evs2, k, p2, st1);
    assert(spec_next(evs2, pos) == spec_next(evs, pos)) by {
        lemma_insert_facts(evs, q, b);
        assert(agree(evs, evs2, pos, p, 0));
    }
    assert(spec_read_registry(api, evs2, p2 + k, st1) == Ok::<(SpecParsed, int), SpecError>((fin, e2 + k))) by {
        lemma_insert_facts(evs, q, b);
        assert(agree(evs, evs2, p2, e2, k));
    }
    let i = lemma_feature_read_insert(evs, b, r, q, p, attributes);
    let f2 = SpecFeature { removes: f.removes.insert(i, r), ..f };
    let j = st.features.len() as int;
    let st2 = SpecParsed { features: st.features.push(f2), ..st };
    lemma_registry_feature_step(api, evs2, pos, st, p, attributes, f2, p2 + k);
    upd_registry(api, evs2, p2 + k, st1, j, f2);
    assert(with_feature(st1, j, f2).features =~= st2.features);
    assert(with_feature(st1, j, f2) == st2);
    lemma_select_with_remove(api, filter, fin, j, i, r);
}

/// A child of `<registry>` that lies wholly before `q` reads the same in
/// both streams; the result is where reading goes on, and with what.
#[verifier::spinoff_prover]
#[verifier::rlimit(80)]
proof fn lemma_element_before(
    api: Api,
    evs: Seq<SpecEvent>,
    evs2: Seq<SpecEvent>,
    q: int,
    pos: int,
    st: SpecParsed,
) -> (res: (int, SpecParsed))
    requires
        0 <= pos,
        q <= evs.len() <= evs2.len(),
        forall|i: int| 0 <= i < q ==> evs2[i] == #[trigger] evs[i],
        registry_gap(api, evs, pos, q),
        spec_read_registry(api, evs, pos, st) is Ok,
        !(spec_next(evs, pos) matches Ok((SpecEvent::StartElement { name, .. }, p))
            && name == "feature"@ && parts_gap(evs, p, q)),
    ensures
        pos < res.0,
        registry_gap(api, evs, res.0, q),
        spec_read_registry(api, evs, pos, st) == spec_read_registry(api, evs, res.0, res.1),
        spec_read_registry(api, evs2, pos, st) == spec_read_registry(api, evs2, res.0, res.1),
{
    reveal_with_fuel(registry_gap, 2);
    mv_next(evs, evs2, 0, pos);
    let (e, p) = spec_next(evs, pos)->Ok_0;
    match e {
        SpecEvent::StartElement { name, attributes } => {
            if name == "comment"@ || name == "types"@ || name == "groups"@ {
                let p2 = end_of(spec_skip_to_end(evs, p, name));
                mv_skip(evs, evs2, 0, p, name);
                assert(agree(evs, evs2, pos, p2, 0));
                (p2, st)
            } else if name == "enums"@ {
                let (es, p2) = spec_consume_enums(api, evs, p, Seq::empty())->Ok_0;
                mv_enums(api, evs, evs2, 0, p, Seq::empty());
                assert(agree(evs, evs2, pos, p2, 0));
                (p2, SpecParsed { enums: st.enums + es, ..st })
            } else if name == "commands"@ {
                let ((cs, al), p2) = spec_consume_cmds(api, evs, p, Seq::empty(), Map::empty())->Ok_0;
                mv_cmds(api, evs, evs2, 0, p, Seq::empty(), Map::empty());
                assert(agree(evs, evs2, pos, p2, 0));
                (p2, SpecParsed { cmds: st.cmds + cs, aliases: crate::registry::merged(st.aliases, al), ..st })
            } else if name == "feature"@ {
                let (f, p2) = spec_feature(attributes, evs, p)->Ok_0;
                mv_feature(attributes, evs, evs2, 0, p);
                assert(agree(evs, evs2, pos, p2, 0));
                (p2, SpecParsed { features: st.features.push(f), ..st })
            } else {
                let (xs, p2) = spec_consume_extensions(evs, p, Seq::empty())->Ok_0;
                mv_extensions(evs, evs2, 0, p, Seq::empty());
                assert(agree(evs, evs2, pos, p2, 0));
                (p2, SpecParsed { extensions: st.extensions + xs, ..st })
            }
        },
        _ => {
            assert(agree(evs, evs2, pos, p, 0));
            (p, st)
        },
    }
}

proof fn lemma_registry_insert(
    api: Api,
    evs: Seq<SpecEvent>,
    b: Seq<SpecEvent>,
    r: SpecRemove,
    q: int,
    pos: int,
    st: SpecParsed,
    filter: SpecFilter,
)
    requires
        0 <= pos,
        q <= evs.len(),
        registry_gap(api, evs, pos, q),
        spec_read_registry(api, evs, pos, st) is Ok,
        is_remove_block(b, r),
        r.profile != filter.profile,
    ensures
        spec_read_registry(api, insert_block(evs, q, b), pos, st) is Ok,
        spec_select(api, filter, spec_read_registry(api, insert_block(evs, q, b), pos, st)->Ok_0.0)
            == spec_select(api, filter, spec_read_registry(api, evs, pos, st)->Ok_0.0),
    decreases evs.len() - pos,
{
    let evs2 = insert_block(evs, q, b);
    lemma_insert_facts(evs, q, b);
    if spec_next(evs, pos) matches Ok((SpecEvent::StartElement { name, attributes }, p))
        && name == "feature"@ && parts_gap(evs, p, q) {
        let (e, p) = spec_next(evs, pos)->Ok_0;
        let attributes = e->StartElement_attributes;
        assert(spec_feature(attributes, evs, p) is Ok) by { lemma_strings(); }
        mv_feature(attributes, evs, evs, 0, p);
        lemma_registry_feature_step(api, evs, pos, st, p, attributes, spec_feature(attributes, evs, p)->Ok_0.0,
            end_of(spec_feature(attributes, evs, p)));
        lemma_feature_insert(api, evs, b, r, q, pos, p, attributes, st, filter);
    } else {
        let (p2, st2) = lemma_element_before(api, evs, evs2, q, pos, st);
        lemma_registry_insert(api, evs, b, r, q, p2, st2, filter);
    }
}

/// A `<remove>` block for a profile other than the wanted one, put in
/// between the parts of any feature of a registry document that parses,
/// changes nothing of the registry selected from it.
pub proof fn law_remove_block_for_other_profile_ignored(
    evs: Seq<SpecEvent>,
    q: int,
    b: Seq<SpecEvent>,
    r: SpecRemove,
    api: Api,
    filter: SpecFilter,
)
    requires
        0 <= q <= evs.len(),
        feature_gap(api, evs, q),
        is_remove_block(b, r),
        r.profile != filter.profile,
        spec_parse_events(evs, api, filter) is Ok,
    ensures
        spec_parse_events(insert_block(evs, q, b), api, filter) == spec_parse_events(evs, api, filter),
{
    let evs2 = insert_block(evs, q, b);
    lemma_insert_facts(evs, q, b);
    mv_start(evs, evs2, 0, 0, "registry"@);
    let p0 = end_of(spec_consume_start_element(evs, 0, "registry"@));
    assert(agree(evs, evs2, 0, p0, 0));
    lemma_registry_insert(api, evs, b, r, q, p0, empty_parsed(), filter);
}

} // verus!
