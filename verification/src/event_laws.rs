//! Comments, whitespace and document starts carry no meaning in a registry:
//! putting one anywhere in the event stream leaves the result unchanged.
use vstd::prelude::*;
use crate::api::Api;
use crate::parse::{Step, SpecError, SpecParsed, spec_next, spec_consume_characters, spec_consume_start_element,
    spec_consume_end_element, spec_skip_to_end, spec_consume_enums, spec_enum_from, spec_binding_type,
    spec_binding_suffix, spec_consume_binding, spec_cmd_rest, spec_consume_cmd, spec_consume_cmds,
    spec_consume_two, spec_require, spec_remove, spec_feature_parts, spec_feature, spec_extension_requires,
    spec_extension, spec_consume_extensions, spec_read_registry, spec_parse_events, spec_required_attribute,
    spec_trim_cmd_opt, file_alias, empty_parsed, SpecRequire, SpecRemove, SpecExtension};
use crate::registry::{SpecBinding, SpecEnum, SpecCmd, SpecGlxOpcode, merged};
use crate::xml_events::spec_get_attribute;
use crate::select::SpecFilter;
use crate::xml_events::SpecEvent;

verus! {

/// An event that the grammar passes over wherever it stands.
pub open spec fn ignorable(e: SpecEvent) -> bool {
    e is StartDocument || e is Comment || e is Whitespace
}

/// `evs2` is `evs` with the ignorable event `ign` put in at position `q`.
pub open spec fn inserted(evs: Seq<SpecEvent>, evs2: Seq<SpecEvent>, q: int, ign: SpecEvent) -> bool {
    &&& 0 <= q <= evs.len()
    &&& ignorable(ign)
    &&& evs2 == evs.insert(q, ign)
}

/// Where position `p` of the original stream lies in the longer one.
pub open spec fn shift(p: int, q: int) -> int {
    if p <= q {
        p
    } else {
        p + 1
    }
}

/// Positions `p` of the original stream and `p2` of the longer one at which
/// reading gives the same: the same place, or, at the insertion point,
/// either side of the inserted event.
pub open spec fn corresponds(p: int, p2: int, q: int) -> bool {
    p2 == shift(p, q) || (p == q && p2 == q + 1)
}

/// A step result with its position moved into the longer stream.
pub open spec fn shifted<T>(r: Step<T>, q: int) -> Step<T> {
    match r {
        Ok((v, p)) => Ok((v, shift(p, q))),
        Err(e) => Err(e),
    }
}

proof fn lemma_next(evs: Seq<SpecEvent>, evs2: Seq<SpecEvent>, q: int, ign: SpecEvent, pos: int, p2: int)
    requires
        inserted(evs, evs2, q, ign),
        corresponds(pos, p2, q),
    ensures
        spec_next(evs2, p2) == shifted(spec_next(evs, pos), q),
    decreases evs.len() - pos, if p2 == q && pos == q { 1int } else { 0int },
{
    if pos < 0 {
    } else if pos == q && p2 == q {
        assert(evs2[q] == ign);
        lemma_next(evs, evs2, q, ign, pos, q + 1);
    } else if pos >= evs.len() {
    } else if pos < q {
        assert(evs2[pos] == evs[pos]);
        if ignorable(evs[pos]) {
            lemma_next(evs, evs2, q, ign, pos + 1, pos + 1);
        }
    } else {
        assert(p2 == pos + 1);
        assert(evs2[pos + 1] == evs[pos]);
        if ignorable(evs[pos]) {
            lemma_next(evs, evs2, q, ign, pos + 1, pos + 2);
        }
    }
}

proof fn lemma_characters(evs: Seq<SpecEvent>, evs2: Seq<SpecEvent>, q: int, ign: SpecEvent, pos: int, p2: int)
    requires
        inserted(evs, evs2, q, ign),
        corresponds(pos, p2, q),
    ensures
        spec_consume_characters(evs2, p2) == shifted(spec_consume_characters(evs, pos), q),
{
    lemma_next(evs, evs2, q, ign, pos, p2);
}

proof fn lemma_start_element(
    evs: Seq<SpecEvent>,
    evs2: Seq<SpecEvent>,
    q: int,
    ign: SpecEvent,
    pos: int,
    p2: int,
    n: Seq<char>,
)
    requires
        inserted(evs, evs2, q, ign),
        corresponds(pos, p2, q),
    ensures
        spec_consume_start_element(evs2, p2, n) == shifted(spec_consume_start_element(evs, pos, n), q),
{
    lemma_next(evs, evs2, q, ign, pos, p2);
}

proof fn lemma_end_element(
    evs: Seq<SpecEvent>,
    evs2: Seq<SpecEvent>,
    q: int,
    ign: SpecEvent,
    pos: int,
    p2: int,
    n: Seq<char>,
)
    requires
        inserted(evs, evs2, q, ign),
        corresponds(pos, p2, q),
    ensures
        spec_consume_end_element(evs2, p2, n) == shifted(spec_consume_end_element(evs, pos, n), q),
{
    lemma_next(evs, evs2, q, ign, pos, p2);
}

proof fn lemma_skip(
    evs: Seq<SpecEvent>,
    evs2: Seq<SpecEvent>,
    q: int,
    ign: SpecEvent,
    pos: int,
    p2: int,
    n: Seq<char>,
)
    requires
        inserted(evs, evs2, q, ign),
        corresponds(pos, p2, q),
    ensures
        spec_skip_to_end(evs2, p2, n) == shifted(spec_skip_to_end(evs, pos, n), q),
    decreases evs.len() - pos,
{
    lemma_next(evs, evs2, q, ign, pos, p2);
    if let Ok((_, p)) = spec_next(evs, pos) {
        if pos < p <= evs.len() {
            lemma_skip(evs, evs2, q, ign, p, shift(p, q), n);
        }
    }
}

proof fn lemma_enums(
    api: Api,
    evs: Seq<SpecEvent>,
    evs2: Seq<SpecEvent>,
    q: int,
    ign: SpecEvent,
    pos: int,
    p2: int,
    acc: Seq<SpecEnum>,
)
    requires
        inserted(evs, evs2, q, ign),
        corresponds(pos, p2, q),
    ensures
        spec_consume_enums(api, evs2, p2, acc) == shifted(spec_consume_enums(api, evs, pos, acc), q),
    decreases evs.len() - pos,
{
    lemma_next(evs, evs2, q, ign, pos, p2);
    if let Ok((e, p)) = spec_next(evs, pos) {
        match e {
            SpecEvent::Characters(_) | SpecEvent::Comment(_) => {
                if pos < p <= evs.len() {
                    lemma_enums(api, evs, evs2, q, ign, p, shift(p, q), acc);
                }
            },
            SpecEvent::StartElement { name, attributes } => {
                if name == "unused"@ {
                    lemma_skip(evs, evs2, q, ign, p, shift(p, q), "unused"@);
                    if let Ok((_, p3)) = spec_skip_to_end(evs, p, "unused"@) {
                        if pos < p3 <= evs.len() {
                            lemma_enums(api, evs, evs2, q, ign, p3, shift(p3, q), acc);
                        }
                    }
                } else if name == "enum"@ {
                    if let Ok(en) = spec_enum_from(api, attributes) {
                        lemma_end_element(evs, evs2, q, ign, p, shift(p, q), "enum"@);
                        if let Ok((_, p3)) = spec_consume_end_element(evs, p, "enum"@) {
                            if pos < p3 <= evs.len() {
                                lemma_enums(api, evs, evs2, q, ign, p3, shift(p3, q), acc.push(en));
                            }
                        }
                    }
                }
            },
            _ => {},
        }
    }
}

proof fn lemma_binding_type(
    evs: Seq<SpecEvent>,
    evs2: Seq<SpecEvent>,
    q: int,
    ign: SpecEvent,
    pos: int,
    p2: int,
    ty: Seq<char>,
)
    requires
        inserted(evs, evs2, q, ign),
        corresponds(pos, p2, q),
    ensures
        spec_binding_type(evs2, p2, ty) == shifted(spec_binding_type(evs, pos, ty), q),
    decreases evs.len() - pos,
{
    lemma_next(evs, evs2, q, ign, pos, p2);
    if let Ok((e, p)) = spec_next(evs, pos) {
        if pos < p <= evs.len() {
            match e {
                SpecEvent::Characters(ch) => {
                    lemma_binding_type(evs, evs2, q, ign, p, shift(p, q), ty + ch);
                },
                _ => {
                    lemma_binding_type(evs, evs2, q, ign, p, shift(p, q), ty);
                },
            }
        }
    }
}

proof fn lemma_binding_suffix(
    evs: Seq<SpecEvent>,
    evs2: Seq<SpecEvent>,
    q: int,
    ign: SpecEvent,
    pos: int,
    p2: int,
    outside: Seq<char>,
    ty: Seq<char>,
)
    requires
        inserted(evs, evs2, q, ign),
        corresponds(pos, p2, q),
    ensures
        spec_binding_suffix(evs2, p2, outside, ty) == shifted(spec_binding_suffix(evs, pos, outside, ty), q),
    decreases evs.len() - pos,
{
    lemma_next(evs, evs2, q, ign, pos, p2);
    if let Ok((e, p)) = spec_next(evs, pos) {
        if pos < p <= evs.len() {
            if let SpecEvent::Characters(ch) = e {
                lemma_binding_suffix(evs, evs2, q, ign, p, shift(p, q), outside, ty + ch);
            }
        }
    }
}

proof fn lemma_binding(
    evs: Seq<SpecEvent>,
    evs2: Seq<SpecEvent>,
    q: int,
    ign: SpecEvent,
    pos: int,
    p2: int,
    outside: Seq<char>,
)
    requires
        inserted(evs, evs2, q, ign),
        corresponds(pos, p2, q),
    ensures
        spec_consume_binding(evs2, p2, outside) == shifted(spec_consume_binding(evs, pos, outside), q),
{
    lemma_binding_type(evs, evs2, q, ign, pos, p2, Seq::empty());
    if let Ok((ty, p1)) = spec_binding_type(evs, pos, Seq::empty()) {
        lemma_characters(evs, evs2, q, ign, p1, shift(p1, q));
        if let Ok((_, p3)) = spec_consume_characters(evs, p1) {
            lemma_end_element(evs, evs2, q, ign, p3, shift(p3, q), "name"@);
            if let Ok((_, p4)) = spec_consume_end_element(evs, p3, "name"@) {
                lemma_binding_suffix(evs, evs2, q, ign, p4, shift(p4, q), outside, ty);
            }
        }
    }
}

proof fn lemma_cmd_rest(
    api: Api,
    evs: Seq<SpecEvent>,
    evs2: Seq<SpecEvent>,
    q: int,
    ign: SpecEvent,
    pos: int,
    p2: int,
    proto: SpecBinding,
    params: Seq<SpecBinding>,
    alias: Option<Seq<char>>,
    vecequiv: Option<Seq<char>>,
    glx: Option<SpecGlxOpcode>,
)
    requires
        inserted(evs, evs2, q, ign),
        corresponds(pos, p2, q),
    ensures
        spec_cmd_rest(api, evs2, p2, proto, params, alias, vecequiv, glx)
            == shifted(spec_cmd_rest(api, evs, pos, proto, params, alias, vecequiv, glx), q),
    decreases evs.len() - pos,
{
    lemma_next(evs, evs2, q, ign, pos, p2);
    if let Ok((e, p)) = spec_next(evs, pos) {
        if let SpecEvent::StartElement { name, attributes } = e {
            if name == "param"@ {
                lemma_binding(evs, evs2, q, ign, p, shift(p, q), "param"@);
                if let Ok((b, p3)) = spec_consume_binding(evs, p, "param"@) {
                    if pos < p3 <= evs.len() {
                        lemma_cmd_rest(api, evs, evs2, q, ign, p3, shift(p3, q), proto, params.push(b), alias, vecequiv, glx);
                    }
                }
            } else if name == "alias"@ {
                lemma_end_element(evs, evs2, q, ign, p, shift(p, q), "alias"@);
                if let Ok((_, p3)) = spec_consume_end_element(evs, p, "alias"@) {
                    if pos < p3 <= evs.len() {
                        lemma_cmd_rest(api, evs, evs2, q, ign, p3, shift(p3, q), proto, params,
                            spec_trim_cmd_opt(api, spec_get_attribute(attributes, "name"@)), vecequiv, glx);
                    }
                }
            } else if name == "vecequiv"@ {
                lemma_end_element(evs, evs2, q, ign, p, shift(p, q), "vecequiv"@);
                if let Ok((_, p3)) = spec_consume_end_element(evs, p, "vecequiv"@) {
                    if pos < p3 <= evs.len() {
                        lemma_cmd_rest(api, evs, evs2, q, ign, p3, shift(p3, q), proto, params, alias,
                            spec_get_attribute(attributes, "vecequiv"@), glx);
                    }
                }
            } else if name == "glx"@ {
                if let Ok(ty) = spec_required_attribute(attributes, "type"@) {
                    if let Ok(opcode) = spec_required_attribute(attributes, "opcode"@) {
                        lemma_end_element(evs, evs2, q, ign, p, shift(p, q), "glx"@);
                        if let Ok((_, p3)) = spec_consume_end_element(evs, p, "glx"@) {
                            if pos < p3 <= evs.len() {
                                lemma_cmd_rest(api, evs, evs2, q, ign, p3, shift(p3, q), proto, params, alias, vecequiv,
                                    Some(SpecGlxOpcode { ty, opcode, name: spec_get_attribute(attributes, "name"@) }));
                            }
                        }
                    }
                }
            }
        }
    }
}

proof fn lemma_cmd(api: Api, evs: Seq<SpecEvent>, evs2: Seq<SpecEvent>, q: int, ign: SpecEvent, pos: int, p2: int)
    requires
        inserted(evs, evs2, q, ign),
        corresponds(pos, p2, q),
    ensures
        spec_consume_cmd(api, evs2, p2) == shifted(spec_consume_cmd(api, evs, pos), q),
{
    lemma_start_element(evs, evs2, q, ign, pos, p2, "proto"@);
    if let Ok((_, p1)) = spec_consume_start_element(evs, pos, "proto"@) {
        lemma_binding(evs, evs2, q, ign, p1, shift(p1, q), "proto"@);
        if let Ok((b, p3)) = spec_consume_binding(evs, p1, "proto"@) {
            lemma_cmd_rest(api, evs, evs2, q, ign, p3, shift(p3, q),
                SpecBinding { ident: crate::text::spec_trim_str(b.ident, crate::api::cmd_prefix(api)), ty: b.ty },
                Seq::empty(), None, None, None);
        }
    }
}

proof fn lemma_cmds(
    api: Api,
    evs: Seq<SpecEvent>,
    evs2: Seq<SpecEvent>,
    q: int,
    ign: SpecEvent,
    pos: int,
    p2: int,
    cmds: Seq<SpecCmd>,
    aliases: Map<Seq<char>, Seq<Seq<char>>>,
)
    requires
        inserted(evs, evs2, q, ign),
        corresponds(pos, p2, q),
    ensures
        spec_consume_cmds(api, evs2, p2, cmds, aliases) == shifted(spec_consume_cmds(api, evs, pos, cmds, aliases), q),
    decreases evs.len() - pos,
{
    lemma_next(evs, evs2, q, ign, pos, p2);
    if let Ok((e, p)) = spec_next(evs, pos) {
        if let SpecEvent::StartElement { name, .. } = e {
            if name == "command"@ {
                lemma_cmd(api, evs, evs2, q, ign, p, shift(p, q));
                if let Ok((c, p3)) = spec_consume_cmd(api, evs, p) {
                    if pos < p3 <= evs.len() {
                        lemma_cmds(api, evs, evs2, q, ign, p3, shift(p3, q), cmds.push(c), file_alias(aliases, c));
                    }
                }
            }
        }
    }
}

proof fn lemma_two(
    evs: Seq<SpecEvent>,
    evs2: Seq<SpecEvent>,
    q: int,
    ign: SpecEvent,
    pos: int,
    p2: int,
    one: Seq<char>,
    two: Seq<char>,
    end: Seq<char>,
    ones: Seq<Seq<char>>,
    twos: Seq<Seq<char>>,
)
    requires
        inserted(evs, evs2, q, ign),
        corresponds(pos, p2, q),
    ensures
        spec_consume_two(evs2, p2, one, two, end, ones, twos)
            == shifted(spec_consume_two(evs, pos, one, two, end, ones, twos), q),
    decreases evs.len() - pos,
{
    lemma_next(evs, evs2, q, ign, pos, p2);
    if let Ok((e, p)) = spec_next(evs, pos) {
        if pos < p <= evs.len() {
            match e {
                SpecEvent::StartElement { name, attributes } => {
                    if one == name {
                        if let Ok(v) = spec_required_attribute(attributes, "name"@) {
                            lemma_two(evs, evs2, q, ign, p, shift(p, q), one, two, end, ones.push(v), twos);
                        }
                    } else if "type"@ == name {
                        lemma_two(evs, evs2, q, ign, p, shift(p, q), one, two, end, ones, twos);
                    } else if two == name {
                        if let Ok(v) = spec_required_attribute(attributes, "name"@) {
                            lemma_two(evs, evs2, q, ign, p, shift(p, q), one, two, end, ones, twos.push(v));
                        }
                    }
                },
                _ => {
                    lemma_two(evs, evs2, q, ign, p, shift(p, q), one, two, end, ones, twos);
                },
            }
        }
    }
}

proof fn lemma_require(evs: Seq<SpecEvent>, evs2: Seq<SpecEvent>, q: int, ign: SpecEvent, pos: int, p2: int)
    requires
        inserted(evs, evs2, q, ign),
        corresponds(pos, p2, q),
    ensures
        spec_require(evs2, p2) == shifted(spec_require(evs, pos), q),
{
    lemma_two(evs, evs2, q, ign, pos, p2, "enum"@, "command"@, "require"@, Seq::empty(), Seq::empty());
}

proof fn lemma_remove(
    attrs: Seq<(Seq<char>, Seq<char>)>,
    evs: Seq<SpecEvent>,
    evs2: Seq<SpecEvent>,
    q: int,
    ign: SpecEvent,
    pos: int,
    p2: int,
)
    requires
        inserted(evs, evs2, q, ign),
        corresponds(pos, p2, q),
    ensures
        spec_remove(attrs, evs2, p2) == shifted(spec_remove(attrs, evs, pos), q),
{
    lemma_two(evs, evs2, q, ign, pos, p2, "enum"@, "command"@, "remove"@, Seq::empty(), Seq::empty());
}

proof fn lemma_feature_parts(
    evs: Seq<SpecEvent>,
    evs2: Seq<SpecEvent>,
    q: int,
    ign: SpecEvent,
    pos: int,
    p2: int,
    reqs: Seq<SpecRequire>,
    rems: Seq<SpecRemove>,
)
    requires
        inserted(evs, evs2, q, ign),
        corresponds(pos, p2, q),
    ensures
        spec_feature_parts(evs2, p2, reqs, rems) == shifted(spec_feature_parts(evs, pos, reqs, rems), q),
    decreases evs.len() - pos,
{
    lemma_next(evs, evs2, q, ign, pos, p2);
    if let Ok((e, p)) = spec_next(evs, pos) {
        if pos < p <= evs.len() {
            match e {
                SpecEvent::StartElement { name, attributes } => {
                    if "require"@ == name {
                        lemma_require(evs, evs2, q, ign, p, shift(p, q));
                        if let Ok((r, p3)) = spec_require(evs, p) {
                            if pos < p3 <= evs.len() {
                                lemma_feature_parts(evs, evs2, q, ign, p3, shift(p3, q), reqs.push(r), rems);
                            }
                        }
                    } else if "type"@ == name {
                        lemma_feature_parts(evs, evs2, q, ign, p, shift(p, q), reqs, rems);
                    } else if "remove"@ == name {
                        lemma_remove(attributes, evs, evs2, q, ign, p, shift(p, q));
                        if let Ok((r, p3)) = spec_remove(attributes, evs, p) {
                            if pos < p3 <= evs.len() {
                                lemma_feature_parts(evs, evs2, q, ign, p3, shift(p3, q), reqs, rems.push(r));
                            }
                        }
                    }
                },
                _ => {
                    lemma_feature_parts(evs, evs2, q, ign, p, shift(p, q), reqs, rems);
                },
            }
        }
    }
}

proof fn lemma_feature(
    attrs: Seq<(Seq<char>, Seq<char>)>,
    evs: Seq<SpecEvent>,
    evs2: Seq<SpecEvent>,
    q: int,
    ign: SpecEvent,
    pos: int,
    p2: int,
)
    requires
        inserted(evs, evs2, q, ign),
        corresponds(pos, p2, q),
    ensures
        spec_feature(attrs, evs2, p2) == shifted(spec_feature(attrs, evs, pos), q),
{
    lemma_feature_parts(evs, evs2, q, ign, pos, p2, Seq::empty(), Seq::empty());
}

proof fn lemma_extension_requires(
    evs: Seq<SpecEvent>,
    evs2: Seq<SpecEvent>,
    q: int,
    ign: SpecEvent,
    pos: int,
    p2: int,
    reqs: Seq<SpecRequire>,
)
    requires
        inserted(evs, evs2, q, ign),
        corresponds(pos, p2, q),
    ensures
        spec_extension_requires(evs2, p2, reqs) == shifted(spec_extension_requires(evs, pos, reqs), q),
    decreases evs.len() - pos,
{
    lemma_next(evs, evs2, q, ign, pos, p2);
    if let Ok((e, p)) = spec_next(evs, pos) {
        if let SpecEvent::StartElement { name, .. } = e {
            if name == "require"@ {
                lemma_require(evs, evs2, q, ign, p, shift(p, q));
                if let Ok((r, p3)) = spec_require(evs, p) {
                    if pos < p3 <= evs.len() {
                        lemma_extension_requires(evs, evs2, q, ign, p3, shift(p3, q), reqs.push(r));
                    }
                }
            }
        }
    }
}

proof fn lemma_extension(
    attrs: Seq<(Seq<char>, Seq<char>)>,
    evs: Seq<SpecEvent>,
    evs2: Seq<SpecEvent>,
    q: int,
    ign: SpecEvent,
    pos: int,
    p2: int,
)
    requires
        inserted(evs, evs2, q, ign),
        corresponds(pos, p2, q),
    ensures
        spec_extension(attrs, evs2, p2) == shifted(spec_extension(attrs, evs, pos), q),
{
    lemma_extension_requires(evs, evs2, q, ign, pos, p2, Seq::empty());
}

proof fn lemma_extensions(
    evs: Seq<SpecEvent>,
    evs2: Seq<SpecEvent>,
    q: int,
    ign: SpecEvent,
    pos: int,
    p2: int,
    exts: Seq<SpecExtension>,
)
    requires
        inserted(evs, evs2, q, ign),
        corresponds(pos, p2, q),
    ensures
        spec_consume_extensions(evs2, p2, exts) == shifted(spec_consume_extensions(evs, pos, exts), q),
    decreases evs.len() - pos,
{
    lemma_next(evs, evs2, q, ign, pos, p2);
    if let Ok((e, p)) = spec_next(evs, pos) {
        if let SpecEvent::StartElement { name, attributes } = e {
            if name == "extension"@ {
                lemma_extension(attributes, evs, evs2, q, ign, p, shift(p, q));
                if let Ok((x, p3)) = spec_extension(attributes, evs, p) {
                    if pos < p3 <= evs.len() {
                        lemma_extensions(evs, evs2, q, ign, p3, shift(p3, q), exts.push(x));
                    }
                }
            }
        }
    }
}

proof fn lemma_read_registry(
    api: Api,
    evs: Seq<SpecEvent>,
    evs2: Seq<SpecEvent>,
    q: int,
    ign: SpecEvent,
    pos: int,
    p2: int,
    st: SpecParsed,
)
    requires
        inserted(evs, evs2, q, ign),
        corresponds(pos, p2, q),
    ensures
        spec_read_registry(api, evs2, p2, st) == shifted(spec_read_registry(api, evs, pos, st), q),
    decreases evs.len() - pos,
{
    lemma_next(evs, evs2, q, ign, pos, p2);
    if let Ok((e, p)) = spec_next(evs, pos) {
        match e {
            SpecEvent::Characters(_) | SpecEvent::Comment(_) => {
                if pos < p <= evs.len() {
                    lemma_read_registry(api, evs, evs2, q, ign, p, shift(p, q), st);
                }
            },
            SpecEvent::StartElement { name, attributes } => {
                if name == "comment"@ || name == "types"@ || name == "groups"@ {
                    lemma_skip(evs, evs2, q, ign, p, shift(p, q), name);
                    if let Ok((_, p3)) = spec_skip_to_end(evs, p, name) {
                        if pos < p3 <= evs.len() {
                            lemma_read_registry(api, evs, evs2, q, ign, p3, shift(p3, q), st);
                        }
                    }
                } else if name == "enums"@ {
                    lemma_enums(api, evs, evs2, q, ign, p, shift(p, q), Seq::empty());
                    if let Ok((es, p3)) = spec_consume_enums(api, evs, p, Seq::empty()) {
                        if pos < p3 <= evs.len() {
                            lemma_read_registry(api, evs, evs2, q, ign, p3, shift(p3, q),
                                SpecParsed { enums: st.enums + es, ..st });
                        }
                    }
                } else if name == "commands"@ {
                    lemma_cmds(api, evs, evs2, q, ign, p, shift(p, q), Seq::empty(), Map::empty());
                    if let Ok(((cs, al), p3)) = spec_consume_cmds(api, evs, p, Seq::empty(), Map::empty()) {
                        if pos < p3 <= evs.len() {
                            lemma_read_registry(api, evs, evs2, q, ign, p3, shift(p3, q),
                                SpecParsed { cmds: st.cmds + cs, aliases: merged(st.aliases, al), ..st });
                        }
                    }
                } else if name == "feature"@ {
                    lemma_feature(attributes, evs, evs2, q, ign, p, shift(p, q));
                    if let Ok((f, p3)) = spec_feature(attributes, evs, p) {
                        if pos < p3 <= evs.len() {
                            lemma_read_registry(api, evs, evs2, q, ign, p3, shift(p3, q),
                                SpecParsed { features: st.features.push(f), ..st });
                        }
                    }
                } else if name == "extensions"@ {
                    lemma_extensions(evs, evs2, q, ign, p, shift(p, q), Seq::empty());
                    if let Ok((xs, p3)) = spec_consume_extensions(evs, p, Seq::empty()) {
                        if pos < p3 <= evs.len() {
                            lemma_read_registry(api, evs, evs2, q, ign, p3, shift(p3, q),
                                SpecParsed { extensions: st.extensions + xs, ..st });
                        }
                    }
                }
            },
            _ => {},
        }
    }
}

/// Putting a comment, whitespace or document start anywhere in the event
/// stream of a document leaves what is parsed from it unchanged: the same
/// registry, or the same error.
pub proof fn law_ignorable_event_changes_nothing(
    evs: Seq<SpecEvent>,
    q: int,
    ign: SpecEvent,
    api: Api,
    filter: SpecFilter,
)
    requires
        0 <= q <= evs.len(),
        ignorable(ign),
    ensures
        spec_parse_events(evs.insert(q, ign), api, filter) == spec_parse_events(evs, api, filter),
{
    let evs2 = evs.insert(q, ign);
    lemma_start_element(evs, evs2, q, ign, 0, 0, "registry"@);
    if let Ok((_, p)) = spec_consume_start_element(evs, 0, "registry"@) {
        lemma_read_registry(api, evs, evs2, q, ign, p, shift(p, q), empty_parsed());
    }
}

/// `evs` with an empty `<type>` element, whose attributes are `attributes`,
/// put in at position `q`: its start at `q` and its end just after.
pub open spec fn with_type_element(
    evs: Seq<SpecEvent>,
    q: int,
    attributes: Seq<(Seq<char>, Seq<char>)>,
) -> Seq<SpecEvent> {
    evs.insert(q, SpecEvent::StartElement { name: "type"@, attributes }).insert(
        q + 1,
        SpecEvent::EndElement { name: "type"@ },
    )
}

/// A step result whose position, where it lies past `q`, is moved two
/// places on, past an element put in at `q`.
pub open spec fn moved_past<T>(r: Step<T>, q: int) -> Step<T> {
    match r {
        Ok((v, p)) => Ok((v, if p <= q { p } else { p + 2 })),
        Err(e) => Err(e),
    }
}

proof fn lemma_next_bounds(evs: Seq<SpecEvent>, pos: int)
    requires
        0 <= pos,
    ensures
        spec_next(evs, pos) matches Ok((_, p)) ==> pos < p <= evs.len(),
    decreases evs.len() - pos,
{
    if pos < evs.len() && ignorable(evs[pos]) {
        lemma_next_bounds(evs, pos + 1);
    }
}

/// Reading from `pos`, at or before the place `q` of the `<type>` element:
/// either it reads the same event, found before `q`, or it reaches the
/// element, and the original stream reads from `pos` what it reads from `q`.
proof fn lemma_next_before_type(
    evs: Seq<SpecEvent>,
    q: int,
    attributes: Seq<(Seq<char>, Seq<char>)>,
    pos: int,
)
    requires
        0 <= pos <= q <= evs.len(),
    ensures
        ({
            let evs2 = with_type_element(evs, q, attributes);
            ||| spec_next(evs2, pos) == spec_next(evs, pos) && (spec_next(evs, pos) matches Ok((_, p)) ==> p <= q)
            ||| spec_next(evs2, pos) == Ok::<(SpecEvent, int), SpecError>(
                (SpecEvent::StartElement { name: "type"@, attributes }, q + 1),
            ) && spec_next(evs, pos) == spec_next(evs, q)
        }),
    decreases q - pos,
{
    let evs2 = with_type_element(evs, q, attributes);
    if pos < q {
        assert(evs2[pos] == evs[pos]);
        if ignorable(evs[pos]) {
            lemma_next_before_type(evs, q, attributes, pos + 1);
        }
    } else {
        assert(evs2[q] == SpecEvent::StartElement { name: "type"@, attributes });
    }
}

/// From a place at or after `q`, the longer stream reads what the original
/// reads, two places on.
proof fn lemma_next_after_type(
    evs: Seq<SpecEvent>,
    q: int,
    attributes: Seq<(Seq<char>, Seq<char>)>,
    p: int,
)
    requires
        0 <= q <= p,
        q <= evs.len(),
    ensures
        spec_next(with_type_element(evs, q, attributes), p + 2) == moved_past(spec_next(evs, p), q),
    decreases evs.len() - p,
{
    let evs2 = with_type_element(evs, q, attributes);
    lemma_next_bounds(evs, p);
    if p < evs.len() {
        assert(evs2[p + 2] == evs[p]);
        if ignorable(evs[p]) {
            lemma_next_after_type(evs, q, attributes, p + 1);
        }
    }
}

proof fn lemma_two_after_type(
    evs: Seq<SpecEvent>,
    q: int,
    attributes: Seq<(Seq<char>, Seq<char>)>,
    p: int,
    one: Seq<char>,
    two: Seq<char>,
    end: Seq<char>,
    ones: Seq<Seq<char>>,
    twos: Seq<Seq<char>>,
)
    requires
        0 <= q <= p,
        q <= evs.len(),
    ensures
        spec_consume_two(with_type_element(evs, q, attributes), p + 2, one, two, end, ones, twos)
            == moved_past(spec_consume_two(evs, p, one, two, end, ones, twos), q),
    decreases evs.len() - p,
{
    lemma_next_after_type(evs, q, attributes, p);
    lemma_next_bounds(evs, p);
    if let Ok((e, r)) = spec_next(evs, p) {
        match e {
            SpecEvent::StartElement { name, attributes: a } => {
                if one == name {
                    if let Ok(v) = spec_required_attribute(a, "name"@) {
                        lemma_two_after_type(evs, q, attributes, r, one, two, end, ones.push(v), twos);
                    }
                } else if "type"@ == name {
                    lemma_two_after_type(evs, q, attributes, r, one, two, end, ones, twos);
                } else if two == name {
                    if let Ok(v) = spec_required_attribute(a, "name"@) {
                        lemma_two_after_type(evs, q, attributes, r, one, two, end, ones, twos.push(v));
                    }
                }
            },
            _ => {
                lemma_two_after_type(evs, q, attributes, r, one, two, end, ones, twos);
            },
        }
    }
}

proof fn lemma_two_type(
    evs: Seq<SpecEvent>,
    q: int,
    attributes: Seq<(Seq<char>, Seq<char>)>,
    pos: int,
    one: Seq<char>,
    two: Seq<char>,
    end: Seq<char>,
    ones: Seq<Seq<char>>,
    twos: Seq<Seq<char>>,
)
    requires
        0 <= pos <= q <= evs.len(),
        one != "type"@,
        two != "type"@,
    ensures
        spec_consume_two(with_type_element(evs, q, attributes), pos, one, two, end, ones, twos)
            == moved_past(spec_consume_two(evs, pos, one, two, end, ones, twos), q),
    decreases evs.len() - pos,
{
    let evs2 = with_type_element(evs, q, attributes);
    lemma_next_before_type(evs, q, attributes, pos);
    lemma_next_bounds(evs, pos);
    lemma_next_bounds(evs, q);
    if spec_next(evs2, pos) == spec_next(evs, pos) && (spec_next(evs, pos) matches Ok((_, p)) ==> p <= q) {
        if let Ok((e, p)) = spec_next(evs, pos) {
            match e {
                SpecEvent::StartElement { name, attributes: a } => {
                    if one == name {
                        if let Ok(v) = spec_required_attribute(a, "name"@) {
                            lemma_two_type(evs, q, attributes, p, one, two, end, ones.push(v), twos);
                        }
                    } else if "type"@ == name {
                        lemma_two_type(evs, q, attributes, p, one, two, end, ones, twos);
                    } else if two == name {
                        if let Ok(v) = spec_required_attribute(a, "name"@) {
                            lemma_two_type(evs, q, attributes, p, one, two, end, ones, twos.push(v));
                        }
                    }
                },
                _ => {
                    lemma_two_type(evs, q, attributes, p, one, two, end, ones, twos);
                },
            }
        }
    } else {
        assert(evs2[q + 1] == SpecEvent::EndElement { name: "type"@ });
        assert(spec_next(evs2, q + 1) == Ok::<(SpecEvent, int), SpecError>(
            (SpecEvent::EndElement { name: "type"@ }, q + 2),
        ));
        lemma_two_after_type(evs, q, attributes, q, one, two, end, ones, twos);
        assert(spec_consume_two(evs2, q + 1, one, two, end, ones, twos)
            == spec_consume_two(evs2, q + 2, one, two, end, ones, twos));
        assert(spec_consume_two(evs, pos, one, two, end, ones, twos)
            == spec_consume_two(evs, q, one, two, end, ones, twos));
    }
}

/// An empty `<type>` element, with any attributes, put in anywhere after
/// the start of a `<require>` or `<remove>` block changes nothing of what
/// the block reads: the same names, or the same error, and the same end,
/// two places on where the element stands before it.
pub proof fn law_type_element_in_block_ignored(
    evs: Seq<SpecEvent>,
    pos: int,
    q: int,
    attributes: Seq<(Seq<char>, Seq<char>)>,
    remove_attributes: Seq<(Seq<char>, Seq<char>)>,
)
    requires
        0 <= pos <= q <= evs.len(),
    ensures
        spec_require(with_type_element(evs, q, attributes), pos) == moved_past(spec_require(evs, pos), q),
        spec_remove(remove_attributes, with_type_element(evs, q, attributes), pos)
            == moved_past(spec_remove(remove_attributes, evs, pos), q),
{
    reveal_strlit("type");
    reveal_strlit("enum");
    reveal_strlit("command");
    assert("enum"@ != "type"@) by {
        assert("enum"@[0] != "type"@[0]);
    }
    assert("command"@.len() != "type"@.len());
    lemma_two_type(evs, q, attributes, pos, "enum"@, "command"@, "require"@, Seq::empty(), Seq::empty());
    lemma_two_type(evs, q, attributes, pos, "enum"@, "command"@, "remove"@, Seq::empty(), Seq::empty());
}

proof fn lemma_strings_differ()
    ensures
        "enum"@ != "type"@,
        "command"@ != "type"@,
        "require"@ != "type"@,
        "remove"@ != "type"@,
        "feature"@ != "type"@,
{
    reveal_strlit("type");
    reveal_strlit("enum");
    reveal_strlit("command");
    reveal_strlit("require");
    reveal_strlit("remove");
    reveal_strlit("feature");
    assert("enum"@[0] != "type"@[0]);
    assert("command"@.len() != "type"@.len());
    assert("require"@.len() != "type"@.len());
    assert("remove"@.len() != "type"@.len());
    assert("feature"@.len() != "type"@.len());
}

proof fn lemma_two_bounds(
    evs: Seq<SpecEvent>,
    pos: int,
    one: Seq<char>,
    two: Seq<char>,
    end: Seq<char>,
    ones: Seq<Seq<char>>,
    twos: Seq<Seq<char>>,
)
    requires
        0 <= pos,
    ensures
        spec_consume_two(evs, pos, one, two, end, ones, twos) matches Ok((_, r)) ==> pos < r <= evs.len(),
    decreases evs.len() - pos,
{
    lemma_next_bounds(evs, pos);
    if let Ok((e, p)) = spec_next(evs, pos) {
        if pos < p <= evs.len() {
            match e {
                SpecEvent::StartElement { name, attributes } => {
                    if one == name {
                        if let Ok(v) = spec_required_attribute(attributes, "name"@) {
                            lemma_two_bounds(evs, p, one, two, end, ones.push(v), twos);
                        }
                    } else if "type"@ == name {
                        lemma_two_bounds(evs, p, one, two, end, ones, twos);
                    } else if two == name {
                        if let Ok(v) = spec_required_attribute(attributes, "name"@) {
                            lemma_two_bounds(evs, p, one, two, end, ones, twos.push(v));
                        }
                    }
                },
                _ => {
                    lemma_two_bounds(evs, p, one, two, end, ones, twos);
                },
            }
        }
    }
}

proof fn lemma_parts_after_type(
    evs: Seq<SpecEvent>,
    q: int,
    attributes: Seq<(Seq<char>, Seq<char>)>,
    p: int,
    reqs: Seq<SpecRequire>,
    rems: Seq<SpecRemove>,
)
    requires
        0 <= q <= p,
        q <= evs.len(),
    ensures
        spec_feature_parts(with_type_element(evs, q, attributes), p + 2, reqs, rems)
            == moved_past(spec_feature_parts(evs, p, reqs, rems), q),
    decreases evs.len() - p,
{
    lemma_next_after_type(evs, q, attributes, p);
    lemma_next_bounds(evs, p);
    if let Ok((e, r)) = spec_next(evs, p) {
        if p < r <= evs.len() {
            match e {
                SpecEvent::StartElement { name, attributes: a } => {
                    if "require"@ == name {
                        lemma_two_after_type(evs, q, attributes, r, "enum"@, "command"@, "require"@, Seq::empty(), Seq::empty());
                        if let Ok((x, r2)) = spec_require(evs, r) {
                            if p < r2 <= evs.len() {
                                lemma_parts_after_type(evs, q, attributes, r2, reqs.push(x), rems);
                            }
                        }
                    } else if "type"@ == name {
                        lemma_parts_after_type(evs, q, attributes, r, reqs, rems);
                    } else if "remove"@ == name {
                        lemma_two_after_type(evs, q, attributes, r, "enum"@, "command"@, "remove"@, Seq::empty(), Seq::empty());
                        if let Ok((x, r2)) = spec_remove(a, evs, r) {
                            if p < r2 <= evs.len() {
                                lemma_parts_after_type(evs, q, attributes, r2, reqs, rems.push(x));
                            }
                        }
                    }
                },
                _ => {
                    lemma_parts_after_type(evs, q, attributes, r, reqs, rems);
                },
            }
        }
    }
}

proof fn lemma_parts_type(
    evs: Seq<SpecEvent>,
    q: int,
    attributes: Seq<(Seq<char>, Seq<char>)>,
    pos: int,
    reqs: Seq<SpecRequire>,
    rems: Seq<SpecRemove>,
)
    requires
        0 <= pos <= q <= evs.len(),
    ensures
        spec_feature_parts(with_type_element(evs, q, attributes), pos, reqs, rems)
            == moved_past(spec_feature_parts(evs, pos, reqs, rems), q),
    decreases evs.len() - pos,
{
    let evs2 = with_type_element(evs, q, attributes);
    lemma_strings_differ();
    lemma_next_before_type(evs, q, attributes, pos);
    lemma_next_bounds(evs, pos);
    lemma_next_bounds(evs, q);
    if spec_next(evs2, pos) == spec_next(evs, pos) && (spec_next(evs, pos) matches Ok((_, p)) ==> p <= q) {
        if let Ok((e, p)) = spec_next(evs, pos) {
            match e {
                SpecEvent::StartElement { name, attributes: a } => {
                    if "require"@ == name {
                        lemma_two_type(evs, q, attributes, p, "enum"@, "command"@, "require"@, Seq::empty(), Seq::empty());
                        if let Ok((x, p2)) = spec_require(evs, p) {
                            if pos < p2 <= evs.len() {
                                if p2 <= q {
                                    lemma_parts_type(evs, q, attributes, p2, reqs.push(x), rems);
                                } else {
                                    lemma_parts_after_type(evs, q, attributes, p2, reqs.push(x), rems);
                                }
                            }
                        }
                    } else if "type"@ == name {
                        lemma_parts_type(evs, q, attributes, p, reqs, rems);
                    } else if "remove"@ == name {
                        lemma_two_type(evs, q, attributes, p, "enum"@, "command"@, "remove"@, Seq::empty(), Seq::empty());
                        if let Ok((x, p2)) = spec_remove(a, evs, p) {
                            if pos < p2 <= evs.len() {
                                if p2 <= q {
                                    lemma_parts_type(evs, q, attributes, p2, reqs, rems.push(x));
                                } else {
                                    lemma_parts_after_type(evs, q, attributes, p2, reqs, rems.push(x));
                                }
                            }
                        }
                    }
                },
                _ => {
                    lemma_parts_type(evs, q, attributes, p, reqs, rems);
                },
            }
        }
    } else {
        assert(evs2[q + 1] == SpecEvent::EndElement { name: "type"@ });
        assert(spec_next(evs2, q + 1) == Ok::<(SpecEvent, int), SpecError>(
            (SpecEvent::EndElement { name: "type"@ }, q + 2),
        ));
        lemma_parts_after_type(evs, q, attributes, q, reqs, rems);
        if let Ok((e, p)) = spec_next(evs, q) {
            lemma_two_bounds(evs, p, "enum"@, "command"@, "require"@, Seq::empty(), Seq::empty());
            lemma_two_bounds(evs, p, "enum"@, "command"@, "remove"@, Seq::empty(), Seq::empty());
        }
        assert(spec_feature_parts(evs2, q + 1, reqs, rems) == spec_feature_parts(evs2, q + 2, reqs, rems));
        assert(spec_feature_parts(evs, pos, reqs, rems) == spec_feature_parts(evs, q, reqs, rems));
    }
}

/// An empty `<type>` element, with any attributes, put in anywhere after
/// the start tag of a `<feature>`, between its blocks or inside one,
/// changes nothing of the feature read: the same feature, or the same
/// error, and the same end, two places on where the element stands before
/// it.
pub proof fn law_type_element_in_feature_ignored(
    feature_attributes: Seq<(Seq<char>, Seq<char>)>,
    evs: Seq<SpecEvent>,
    pos: int,
    q: int,
    attributes: Seq<(Seq<char>, Seq<char>)>,
)
    requires
        0 <= pos <= q <= evs.len(),
    ensures
        spec_feature(feature_attributes, with_type_element(evs, q, attributes), pos)
            == moved_past(spec_feature(feature_attributes, evs, pos), q),
{
    lemma_parts_type(evs, q, attributes, pos, Seq::empty(), Seq::empty());
}

/// `evs` with empty `<type>` elements put in one after another: each pair
/// gives the place, in the stream as it stands by then, and the attributes.
pub open spec fn with_type_elements(
    evs: Seq<SpecEvent>,
    ins: Seq<(int, Seq<(Seq<char>, Seq<char>)>)>,
) -> Seq<SpecEvent>
    decreases ins.len(),
{
    if ins.len() == 0 {
        evs
    } else {
        with_type_element(with_type_elements(evs, ins.drop_last()), ins.last().0, ins.last().1)
    }
}

/// Each element of `ins` is put in at or after `pos`, within the stream as
/// it stands by then.
pub open spec fn inserted_after(
    evs: Seq<SpecEvent>,
    pos: int,
    ins: Seq<(int, Seq<(Seq<char>, Seq<char>)>)>,
) -> bool
    decreases ins.len(),
{
    ins.len() == 0 || {
        &&& inserted_after(evs, pos, ins.drop_last())
        &&& pos <= ins.last().0 <= with_type_elements(evs, ins.drop_last()).len()
    }
}

/// What a reader gives, without the place where it stopped.
pub open spec fn step_value<T>(r: Step<T>) -> Result<T, SpecError> {
    match r {
        Ok((v, _)) => Ok(v),
        Err(e) => Err(e),
    }
}

/// Any number of empty `<type>` elements put in after the start of a
/// block read by `consume_two`, whose child names are not `type`, change
/// nothing of the names it reads, or of its error.
pub proof fn law_type_elements_in_two_ignored(
    evs: Seq<SpecEvent>,
    pos: int,
    ins: Seq<(int, Seq<(Seq<char>, Seq<char>)>)>,
    one: Seq<char>,
    two: Seq<char>,
    end: Seq<char>,
    ones: Seq<Seq<char>>,
    twos: Seq<Seq<char>>,
)
    requires
        0 <= pos,
        inserted_after(evs, pos, ins),
        one != "type"@,
        two != "type"@,
    ensures
        step_value(spec_consume_two(with_type_elements(evs, ins), pos, one, two, end, ones, twos))
            == step_value(spec_consume_two(evs, pos, one, two, end, ones, twos)),
    decreases ins.len(),
{
    if ins.len() > 0 {
        law_type_elements_in_two_ignored(evs, pos, ins.drop_last(), one, two, end, ones, twos);
        lemma_two_type(with_type_elements(evs, ins.drop_last()), ins.last().0, ins.last().1, pos, one, two, end, ones, twos);
    }
}

/// Any number of empty `<type>` elements put in after the start tag of a
/// `<feature>`, between its blocks or inside them, change nothing of the
/// feature read, or of its error.
pub proof fn law_type_elements_in_feature_ignored(
    feature_attributes: Seq<(Seq<char>, Seq<char>)>,
    evs: Seq<SpecEvent>,
    pos: int,
    ins: Seq<(int, Seq<(Seq<char>, Seq<char>)>)>,
)
    requires
        0 <= pos,
        inserted_after(evs, pos, ins),
    ensures
        step_value(spec_feature(feature_attributes, with_type_elements(evs, ins), pos))
            == step_value(spec_feature(feature_attributes, evs, pos)),
    decreases ins.len(),
{
    if ins.len() > 0 {
        law_type_elements_in_feature_ignored(feature_attributes, evs, pos, ins.drop_last());
        law_type_element_in_feature_ignored(
            feature_attributes,
            with_type_elements(evs, ins.drop_last()),
            pos,
            ins.last().0,
            ins.last().1,
        );
    }
}

} // verus!
