//! The registry grammar over XML events, the selection of the wanted
//! features and extensions, and the parser that carries both out.
use vstd::prelude::*;
use crate::api::{Api, Profile, api_from_str, profile_from_str, spec_api_from_str, spec_profile_from_str, enum_prefix, cmd_prefix, trim_enum_prefix, trim_cmd_prefix};
use crate::registry::{Registry, SpecRegistry, strings_view, Enum, SpecEnum, enums_view, Binding, SpecBinding, bindings_view,
    Cmd, SpecCmd, cmds_view, GlxOpcode, SpecGlxOpcode, glx_view, AliasMap, values_of, merged, merge_map};
use crate::text::{string_is, spec_trim_str, split_char, spec_split};
use crate::select::{Filter, SpecFilter, spec_select, select, try_select};
use crate::xml_events::{EventStream, SpecEvent, XmlEvent, Attribute, attrs_view, clone_attributes, get_attribute, spec_get_attribute, opt_view, xml_event_stream, read_events};

verus! {

/// Why a registry could not be read.
#[derive(Debug)]
pub enum RegistryError {
    /// The XML reader reported an error; its message.
    Xml(String),
    /// The document ended where the grammar wants more.
    EndOfDocument,
    /// An event that the grammar does not allow where it stands.
    Unexpected(XmlEvent),
    /// An element lacks an attribute that the grammar requires; its name.
    MissingAttribute(String),
    /// An `api` or `supported` attribute names no known API.
    UnknownApi(String),
    /// A `profile` attribute names no known profile.
    UnknownProfile(String),
    /// No feature has the requested version number.
    VersionNotFound(String),
    /// A requested extension does not support the API.
    UnsupportedExtension { extension: String, api: Api },
}

/// The model of [`RegistryError`].
pub enum SpecError {
    Xml(Seq<char>),
    EndOfDocument,
    Unexpected(SpecEvent),
    MissingAttribute(Seq<char>),
    UnknownApi(Seq<char>),
    UnknownProfile(Seq<char>),
    VersionNotFound(Seq<char>),
    UnsupportedExtension { extension: Seq<char>, api: Api },
}

impl View for RegistryError {
    type V = SpecError;

    open spec fn view(&self) -> SpecError {
        match self {
            RegistryError::Xml(m) => SpecError::Xml(m@),
            RegistryError::EndOfDocument => SpecError::EndOfDocument,
            RegistryError::Unexpected(e) => SpecError::Unexpected(e@),
            RegistryError::MissingAttribute(a) => SpecError::MissingAttribute(a@),
            RegistryError::UnknownApi(a) => SpecError::UnknownApi(a@),
            RegistryError::UnknownProfile(p) => SpecError::UnknownProfile(p@),
            RegistryError::VersionNotFound(v) => SpecError::VersionNotFound(v@),
            RegistryError::UnsupportedExtension { extension, api } =>
                SpecError::UnsupportedExtension { extension: extension@, api: *api },
        }
    }
}

/// The result of reading from position `pos` of an event sequence: a value
/// and the position after it, or an error.
///
/// The grammar below reads forward: each reader that succeeds returns a
/// position past the one it started at and within the sequence; the
/// contracts of the parser's methods, which equal these readers, carry
/// that bound. The checks `pos < p <= evs.len()` in the recursive
/// definitions restate it, which is what makes the recursion finite.
pub type Step<T> = Result<(T, int), SpecError>;

/// The model of an executable step result, its value taken through `f`.
pub open spec fn outcome<T, U>(r: Result<(T, usize), RegistryError>, f: spec_fn(T) -> U) -> Step<U> {
    match r {
        Ok((v, p)) => Ok((f(v), p as int)),
        Err(e) => Err(e@),
    }
}

/// The next event from `pos` that the grammar looks at: document starts,
/// comments and whitespace are passed over; the end of the document and
/// reader errors are errors.
pub open spec fn spec_next(evs: Seq<SpecEvent>, pos: int) -> Step<SpecEvent>
    decreases evs.len() - pos,
{
    if pos < 0 || pos >= evs.len() {
        Err(SpecError::EndOfDocument)
    } else {
        match evs[pos] {
            SpecEvent::StartDocument | SpecEvent::Comment(_) | SpecEvent::Whitespace(_) =>
                spec_next(evs, pos + 1),
            SpecEvent::EndDocument => Err(SpecError::EndOfDocument),
            SpecEvent::Error(m) => Err(SpecError::Xml(m)),
            e => Ok((e, pos + 1)),
        }
    }
}

/// Text content.
pub open spec fn spec_consume_characters(evs: Seq<SpecEvent>, pos: int) -> Step<Seq<char>> {
    match spec_next(evs, pos) {
        Ok((SpecEvent::Characters(ch), p)) => Ok((ch, p)),
        Ok((e, _)) => Err(SpecError::Unexpected(e)),
        Err(e) => Err(e),
    }
}

/// The start of an element named `n`; its attributes.
pub open spec fn spec_consume_start_element(
    evs: Seq<SpecEvent>,
    pos: int,
    n: Seq<char>,
) -> Step<Seq<(Seq<char>, Seq<char>)>> {
    match spec_next(evs, pos) {
        Ok((e, p)) => match e {
            SpecEvent::StartElement { name, attributes } => if name == n {
                Ok((attributes, p))
            } else {
                Err(SpecError::Unexpected(e))
            },
            _ => Err(SpecError::Unexpected(e)),
        },
        Err(e) => Err(e),
    }
}

/// The end of an element named `n`.
pub open spec fn spec_consume_end_element(evs: Seq<SpecEvent>, pos: int, n: Seq<char>) -> Step<()> {
    match spec_next(evs, pos) {
        Ok((e, p)) => match e {
            SpecEvent::EndElement { name } => if name == n {
                Ok(((), p))
            } else {
                Err(SpecError::Unexpected(e))
            },
            _ => Err(SpecError::Unexpected(e)),
        },
        Err(e) => Err(e),
    }
}

/// Everything up to and including the first end of an element named `n`.
pub open spec fn spec_skip_to_end(evs: Seq<SpecEvent>, pos: int, n: Seq<char>) -> Step<()>
    decreases evs.len() - pos,
{
    match spec_next(evs, pos) {
        Ok((e, p)) => match e {
            SpecEvent::EndElement { name } => if name == n {
                Ok(((), p))
            } else if pos < p <= evs.len() {
                spec_skip_to_end(evs, p, n)
            } else {
                Err(SpecError::EndOfDocument)
            },
            _ => if pos < p <= evs.len() {
                spec_skip_to_end(evs, p, n)
            } else {
                Err(SpecError::EndOfDocument)
            },
        },
        Err(e) => Err(e),
    }
}

/// The model of an executable result, its value taken through `f`.
pub open spec fn result_view<T, U>(r: Result<T, RegistryError>, f: spec_fn(T) -> U) -> Result<U, SpecError> {
    match r {
        Ok(v) => Ok(f(v)),
        Err(e) => Err(e@),
    }
}

/// The model of an executable step that yields only a position.
pub open spec fn position_view(r: Result<usize, RegistryError>) -> Step<()> {
    match r {
        Ok(p) => Ok(((), p as int)),
        Err(e) => Err(e@),
    }
}

/// The value of a required attribute.
pub open spec fn spec_required_attribute(
    attrs: Seq<(Seq<char>, Seq<char>)>,
    name: Seq<char>,
) -> Result<Seq<char>, SpecError> {
    match spec_get_attribute(attrs, name) {
        Some(v) => Ok(v),
        None => Err(SpecError::MissingAttribute(name)),
    }
}

/// The enum that an `<enum>` element with attributes `attrs` defines.
pub open spec fn spec_enum_from(api: Api, attrs: Seq<(Seq<char>, Seq<char>)>) -> Result<SpecEnum, SpecError> {
    match spec_required_attribute(attrs, "name"@) {
        Err(e) => Err(e),
        Ok(name) => match spec_required_attribute(attrs, "value"@) {
            Err(e) => Err(e),
            Ok(value) => Ok(SpecEnum {
                ident: spec_trim_str(name, enum_prefix(api)),
                value,
                alias: spec_get_attribute(attrs, "alias"@),
                ty: spec_get_attribute(attrs, "type"@),
            }),
        },
    }
}

/// The enums of an `<enums>` element whose start has been read, after
/// those in `acc`; up to and including the end of the element.
pub open spec fn spec_consume_enums(api: Api, evs: Seq<SpecEvent>, pos: int, acc: Seq<SpecEnum>) -> Step<Seq<SpecEnum>>
    decreases evs.len() - pos,
{
    match spec_next(evs, pos) {
        Err(e) => Err(e),
        Ok((e, p)) => match e {
            SpecEvent::Characters(_) | SpecEvent::Comment(_) => if pos < p <= evs.len() {
                spec_consume_enums(api, evs, p, acc)
            } else {
                Err(SpecError::EndOfDocument)
            },
            SpecEvent::StartElement { name, attributes } => if name == "unused"@ {
                match spec_skip_to_end(evs, p, "unused"@) {
                    Err(e) => Err(e),
                    Ok((_, p2)) => if pos < p2 <= evs.len() {
                        spec_consume_enums(api, evs, p2, acc)
                    } else {
                        Err(SpecError::EndOfDocument)
                    },
                }
            } else if name == "enum"@ {
                match spec_enum_from(api, attributes) {
                    Err(e) => Err(e),
                    Ok(en) => match spec_consume_end_element(evs, p, "enum"@) {
                        Err(e) => Err(e),
                        Ok((_, p2)) => if pos < p2 <= evs.len() {
                            spec_consume_enums(api, evs, p2, acc.push(en))
                        } else {
                            Err(SpecError::EndOfDocument)
                        },
                    },
                }
            } else {
                Err(SpecError::Unexpected(e))
            },
            SpecEvent::EndElement { name } => if name == "enums"@ {
                Ok((acc, p))
            } else {
                Err(SpecError::Unexpected(e))
            },
            _ => Err(SpecError::Unexpected(e)),
        },
    }
}

/// The type text of a binding up to its `<name>` element.
pub open spec fn spec_binding_type(evs: Seq<SpecEvent>, pos: int, ty: Seq<char>) -> Step<Seq<char>>
    decreases evs.len() - pos,
{
    match spec_next(evs, pos) {
        Err(e) => Err(e),
        Ok((e, p)) => match e {
            SpecEvent::Characters(ch) => if pos < p <= evs.len() {
                spec_binding_type(evs, p, ty + ch)
            } else {
                Err(SpecError::EndOfDocument)
            },
            SpecEvent::StartElement { name, .. } => if name == "ptype"@ {
                if pos < p <= evs.len() {
                    spec_binding_type(evs, p, ty)
                } else {
                    Err(SpecError::EndOfDocument)
                }
            } else if name == "name"@ {
                Ok((ty, p))
            } else {
                Err(SpecError::Unexpected(e))
            },
            SpecEvent::EndElement { name } => if name == "ptype"@ {
                if pos < p <= evs.len() {
                    spec_binding_type(evs, p, ty)
                } else {
                    Err(SpecError::EndOfDocument)
                }
            } else {
                Err(SpecError::Unexpected(e))
            },
            _ => Err(SpecError::Unexpected(e)),
        },
    }
}

/// The type text of a binding after its `<name>` element, up to and
/// including the end of the element `outside`.
pub open spec fn spec_binding_suffix(evs: Seq<SpecEvent>, pos: int, outside: Seq<char>, ty: Seq<char>) -> Step<Seq<char>>
    decreases evs.len() - pos,
{
    match spec_next(evs, pos) {
        Err(e) => Err(e),
        Ok((e, p)) => match e {
            SpecEvent::Characters(ch) => if pos < p <= evs.len() {
                spec_binding_suffix(evs, p, outside, ty + ch)
            } else {
                Err(SpecError::EndOfDocument)
            },
            SpecEvent::EndElement { name } => if name == outside {
                Ok((ty, p))
            } else {
                Err(SpecError::Unexpected(e))
            },
            _ => Err(SpecError::Unexpected(e)),
        },
    }
}

/// A binding: type text around a `<name>` element, inside the element
/// `outside` whose start has been read.
pub open spec fn spec_consume_binding(evs: Seq<SpecEvent>, pos: int, outside: Seq<char>) -> Step<SpecBinding> {
    match spec_binding_type(evs, pos, Seq::empty()) {
        Err(e) => Err(e),
        Ok((ty, p1)) => match spec_consume_characters(evs, p1) {
            Err(e) => Err(e),
            Ok((ident, p2)) => match spec_consume_end_element(evs, p2, "name"@) {
                Err(e) => Err(e),
                Ok((_, p3)) => match spec_binding_suffix(evs, p3, outside, ty) {
                    Err(e) => Err(e),
                    Ok((ty2, p4)) => Ok((SpecBinding { ident, ty: ty2 }, p4)),
                },
            },
        },
    }
}

/// An optional name with the command prefix of `api` dropped.
pub open spec fn spec_trim_cmd_opt(api: Api, o: Option<Seq<char>>) -> Option<Seq<char>> {
    match o {
        Some(t) => Some(spec_trim_str(t, cmd_prefix(api))),
        None => None,
    }
}

/// The rest of a `<command>` element after its prototype.
pub open spec fn spec_cmd_rest(
    api: Api,
    evs: Seq<SpecEvent>,
    pos: int,
    proto: SpecBinding,
    params: Seq<SpecBinding>,
    alias: Option<Seq<char>>,
    vecequiv: Option<Seq<char>>,
    glx: Option<SpecGlxOpcode>,
) -> Step<SpecCmd>
    decreases evs.len() - pos,
{
    match spec_next(evs, pos) {
        Err(e) => Err(e),
        Ok((e, p)) => match e {
            SpecEvent::StartElement { name, attributes } => if name == "param"@ {
                match spec_consume_binding(evs, p, "param"@) {
                    Err(e) => Err(e),
                    Ok((b, p2)) => if pos < p2 <= evs.len() {
                        spec_cmd_rest(api, evs, p2, proto, params.push(b), alias, vecequiv, glx)
                    } else {
                        Err(SpecError::EndOfDocument)
                    },
                }
            } else if name == "alias"@ {
                match spec_consume_end_element(evs, p, "alias"@) {
                    Err(e) => Err(e),
                    Ok((_, p2)) => if pos < p2 <= evs.len() {
                        spec_cmd_rest(api, evs, p2, proto, params,
                            spec_trim_cmd_opt(api, spec_get_attribute(attributes, "name"@)), vecequiv, glx)
                    } else {
                        Err(SpecError::EndOfDocument)
                    },
                }
            } else if name == "vecequiv"@ {
                match spec_consume_end_element(evs, p, "vecequiv"@) {
                    Err(e) => Err(e),
                    Ok((_, p2)) => if pos < p2 <= evs.len() {
                        spec_cmd_rest(api, evs, p2, proto, params, alias,
                            spec_get_attribute(attributes, "vecequiv"@), glx)
                    } else {
                        Err(SpecError::EndOfDocument)
                    },
                }
            } else if name == "glx"@ {
                match spec_required_attribute(attributes, "type"@) {
                    Err(e) => Err(e),
                    Ok(ty) => match spec_required_attribute(attributes, "opcode"@) {
                        Err(e) => Err(e),
                        Ok(opcode) => match spec_consume_end_element(evs, p, "glx"@) {
                            Err(e) => Err(e),
                            Ok((_, p2)) => if pos < p2 <= evs.len() {
                                spec_cmd_rest(api, evs, p2, proto, params, alias, vecequiv,
                                    Some(SpecGlxOpcode { ty, opcode, name: spec_get_attribute(attributes, "name"@) }))
                            } else {
                                Err(SpecError::EndOfDocument)
                            },
                        },
                    },
                }
            } else {
                Err(SpecError::Unexpected(e))
            },
            SpecEvent::EndElement { name } => if name == "command"@ {
                Ok((SpecCmd { proto, params, alias, vecequiv, glx }, p))
            } else {
                Err(SpecError::Unexpected(e))
            },
            _ => Err(SpecError::Unexpected(e)),
        },
    }
}

/// A `<command>` element whose start has been read.
pub open spec fn spec_consume_cmd(api: Api, evs: Seq<SpecEvent>, pos: int) -> Step<SpecCmd> {
    match spec_consume_start_element(evs, pos, "proto"@) {
        Err(e) => Err(e),
        Ok((_, p1)) => match spec_consume_binding(evs, p1, "proto"@) {
            Err(e) => Err(e),
            Ok((b, p2)) => spec_cmd_rest(
                api,
                evs,
                p2,
                SpecBinding { ident: spec_trim_str(b.ident, cmd_prefix(api)), ty: b.ty },
                Seq::empty(),
                None,
                None,
                None,
            ),
        },
    }
}

/// `aliases` with the command `c` filed under the command it is an alias
/// of, if any.
pub open spec fn file_alias(
    aliases: Map<Seq<char>, Seq<Seq<char>>>,
    c: SpecCmd,
) -> Map<Seq<char>, Seq<Seq<char>>> {
    match c.alias {
        Some(v) => aliases.insert(v, values_of(aliases, v).push(c.proto.ident)),
        None => aliases,
    }
}

/// The commands of a `<commands>` element whose start has been read, after
/// those in `cmds`, with their aliases filed in `aliases`.
pub open spec fn spec_consume_cmds(
    api: Api,
    evs: Seq<SpecEvent>,
    pos: int,
    cmds: Seq<SpecCmd>,
    aliases: Map<Seq<char>, Seq<Seq<char>>>,
) -> Step<(Seq<SpecCmd>, Map<Seq<char>, Seq<Seq<char>>>)>
    decreases evs.len() - pos,
{
    match spec_next(evs, pos) {
        Err(e) => Err(e),
        Ok((e, p)) => match e {
            SpecEvent::StartElement { name, .. } => if name == "command"@ {
                match spec_consume_cmd(api, evs, p) {
                    Err(e) => Err(e),
                    Ok((c, p2)) => if pos < p2 <= evs.len() {
                        spec_consume_cmds(api, evs, p2, cmds.push(c), file_alias(aliases, c))
                    } else {
                        Err(SpecError::EndOfDocument)
                    },
                }
            } else {
                Err(SpecError::Unexpected(e))
            },
            SpecEvent::EndElement { name } => if name == "commands"@ {
                Ok(((cmds, aliases), p))
            } else {
                Err(SpecError::Unexpected(e))
            },
            _ => Err(SpecError::Unexpected(e)),
        },
    }
}

/// A `<require>` block: the enums and commands that it brings in, by name.
#[derive(Debug)]
pub struct Require {
    pub enums: Vec<String>,
    pub commands: Vec<String>,
}

/// The model of [`Require`].
pub struct SpecRequire {
    pub enums: Seq<Seq<char>>,
    pub commands: Seq<Seq<char>>,
}

impl View for Require {
    type V = SpecRequire;

    open spec fn view(&self) -> SpecRequire {
        SpecRequire { enums: strings_view(self.enums@), commands: strings_view(self.commands@) }
    }
}

/// A `<remove>` block: the enums and commands that a profile drops, by name.
#[derive(Debug)]
pub struct Remove {
    pub profile: Profile,
    pub enums: Vec<String>,
    pub commands: Vec<String>,
}

/// The model of [`Remove`].
pub struct SpecRemove {
    pub profile: Profile,
    pub enums: Seq<Seq<char>>,
    pub commands: Seq<Seq<char>>,
}

impl View for Remove {
    type V = SpecRemove;

    open spec fn view(&self) -> SpecRemove {
        SpecRemove { profile: self.profile, enums: strings_view(self.enums@), commands: strings_view(self.commands@) }
    }
}

/// A `<feature>`: one version of one API.
#[derive(Debug)]
pub struct Feature {
    pub api: Api,
    pub name: String,
    pub number: String,
    pub requires: Vec<Require>,
    pub removes: Vec<Remove>,
}

/// The model of [`Feature`].
pub struct SpecFeature {
    pub api: Api,
    pub name: Seq<char>,
    pub number: Seq<char>,
    pub requires: Seq<SpecRequire>,
    pub removes: Seq<SpecRemove>,
}

impl View for Feature {
    type V = SpecFeature;

    open spec fn view(&self) -> SpecFeature {
        SpecFeature {
            api: self.api,
            name: self.name@,
            number: self.number@,
            requires: self.requires@.map_values(|r: Require| r@),
            removes: self.removes@.map_values(|r: Remove| r@),
        }
    }
}

/// An `<extension>`: its name, the APIs that it supports, and what it
/// brings in.
#[derive(Debug)]
pub struct Extension {
    pub name: String,
    pub supported: Vec<Api>,
    pub requires: Vec<Require>,
}

/// The model of [`Extension`].
pub struct SpecExtension {
    pub name: Seq<char>,
    pub supported: Seq<Api>,
    pub requires: Seq<SpecRequire>,
}

impl View for Extension {
    type V = SpecExtension;

    open spec fn view(&self) -> SpecExtension {
        SpecExtension {
            name: self.name@,
            supported: self.supported@,
            requires: self.requires@.map_values(|r: Require| r@),
        }
    }
}

/// The `name` attributes of the `one` and `two` elements up to the end of
/// the element `end`, after those in `ones` and `twos`; `<type>` elements
/// are passed over.
pub open spec fn spec_consume_two(
    evs: Seq<SpecEvent>,
    pos: int,
    one: Seq<char>,
    two: Seq<char>,
    end: Seq<char>,
    ones: Seq<Seq<char>>,
    twos: Seq<Seq<char>>,
) -> Step<(Seq<Seq<char>>, Seq<Seq<char>>)>
    decreases evs.len() - pos,
{
    match spec_next(evs, pos) {
        Err(e) => Err(e),
        Ok((e, p)) => if !(pos < p <= evs.len()) {
            Err(SpecError::EndOfDocument)
        } else {
            match e {
                SpecEvent::StartElement { name, attributes } => if one == name {
                    match spec_required_attribute(attributes, "name"@) {
                        Err(e) => Err(e),
                        Ok(v) => spec_consume_two(evs, p, one, two, end, ones.push(v), twos),
                    }
                } else if "type"@ == name {
                    spec_consume_two(evs, p, one, two, end, ones, twos)
                } else if two == name {
                    match spec_required_attribute(attributes, "name"@) {
                        Err(e) => Err(e),
                        Ok(v) => spec_consume_two(evs, p, one, two, end, ones, twos.push(v)),
                    }
                } else {
                    Err(SpecError::Unexpected(e))
                },
                SpecEvent::EndElement { name } => if one == name || two == name {
                    spec_consume_two(evs, p, one, two, end, ones, twos)
                } else if "type"@ == name {
                    spec_consume_two(evs, p, one, two, end, ones, twos)
                } else if end == name {
                    Ok(((ones, twos), p))
                } else {
                    Err(SpecError::Unexpected(e))
                },
                _ => Err(SpecError::Unexpected(e)),
            }
        },
    }
}

/// A `<require>` element whose start has been read.
pub open spec fn spec_require(evs: Seq<SpecEvent>, pos: int) -> Step<SpecRequire> {
    match spec_consume_two(evs, pos, "enum"@, "command"@, "require"@, Seq::empty(), Seq::empty()) {
        Err(e) => Err(e),
        Ok(((enums, commands), p)) => Ok((SpecRequire { enums, commands }, p)),
    }
}

/// A `<remove>` element with attributes `attrs` whose start has been read.
pub open spec fn spec_remove(attrs: Seq<(Seq<char>, Seq<char>)>, evs: Seq<SpecEvent>, pos: int) -> Step<SpecRemove> {
    match spec_required_attribute(attrs, "profile"@) {
        Err(e) => Err(e),
        Ok(pr) => match spec_profile_from_str(pr) {
            Err(_) => Err(SpecError::UnknownProfile(pr)),
            Ok(profile) => match spec_consume_two(evs, pos, "enum"@, "command"@, "remove"@, Seq::empty(), Seq::empty()) {
                Err(e) => Err(e),
                Ok(((enums, commands), p)) => Ok((SpecRemove { profile, enums, commands }, p)),
            },
        },
    }
}

/// The `<require>` and `<remove>` blocks of a `<feature>`, after those in
/// `reqs` and `rems`, up to and including its end.
pub open spec fn spec_feature_parts(
    evs: Seq<SpecEvent>,
    pos: int,
    reqs: Seq<SpecRequire>,
    rems: Seq<SpecRemove>,
) -> Step<(Seq<SpecRequire>, Seq<SpecRemove>)>
    decreases evs.len() - pos,
{
    match spec_next(evs, pos) {
        Err(e) => Err(e),
        Ok((e, p)) => if !(pos < p <= evs.len()) {
            Err(SpecError::EndOfDocument)
        } else {
            match e {
                SpecEvent::StartElement { name, attributes } => if "require"@ == name {
                    match spec_require(evs, p) {
                        Err(e) => Err(e),
                        Ok((r, p2)) => if pos < p2 <= evs.len() {
                            spec_feature_parts(evs, p2, reqs.push(r), rems)
                        } else {
                            Err(SpecError::EndOfDocument)
                        },
                    }
                } else if "type"@ == name {
                    spec_feature_parts(evs, p, reqs, rems)
                } else if "remove"@ == name {
                    match spec_remove(attributes, evs, p) {
                        Err(e) => Err(e),
                        Ok((r, p2)) => if pos < p2 <= evs.len() {
                            spec_feature_parts(evs, p2, reqs, rems.push(r))
                        } else {
                            Err(SpecError::EndOfDocument)
                        },
                    }
                } else {
                    Err(SpecError::Unexpected(e))
                },
                SpecEvent::EndElement { name } => if "require"@ == name || "remove"@ == name {
                    spec_feature_parts(evs, p, reqs, rems)
                } else if "type"@ == name {
                    spec_feature_parts(evs, p, reqs, rems)
                } else if "feature"@ == name {
                    Ok(((reqs, rems), p))
                } else {
                    Err(SpecError::Unexpected(e))
                },
                _ => Err(SpecError::Unexpected(e)),
            }
        },
    }
}

/// A `<feature>` element with attributes `attrs` whose start has been read.
pub open spec fn spec_feature(attrs: Seq<(Seq<char>, Seq<char>)>, evs: Seq<SpecEvent>, pos: int) -> Step<SpecFeature> {
    match spec_required_attribute(attrs, "api"@) {
        Err(e) => Err(e),
        Ok(a) => match spec_api_from_str(a) {
            Err(_) => Err(SpecError::UnknownApi(a)),
            Ok(api) => match spec_required_attribute(attrs, "name"@) {
                Err(e) => Err(e),
                Ok(name) => match spec_required_attribute(attrs, "number"@) {
                    Err(e) => Err(e),
                    Ok(number) => match spec_feature_parts(evs, pos, Seq::empty(), Seq::empty()) {
                        Err(e) => Err(e),
                        Ok(((reqs, removes), p)) => Ok((SpecFeature { api, name, number, requires: reqs, removes }, p)),
                    },
                },
            },
        },
    }
}

/// The APIs named by `pieces`, after those in `acc`; the first piece that
/// names none is the error.
pub open spec fn spec_apis(pieces: Seq<Seq<char>>, acc: Seq<Api>) -> Result<Seq<Api>, SpecError>
    decreases pieces.len(),
{
    if pieces.len() == 0 {
        Ok(acc)
    } else {
        match spec_api_from_str(pieces[0]) {
            Err(_) => Err(SpecError::UnknownApi(pieces[0])),
            Ok(a) => spec_apis(pieces.drop_first(), acc.push(a)),
        }
    }
}

/// The `<require>` blocks of an `<extension>`, after those in `reqs`, up to
/// and including its end.
pub open spec fn spec_extension_requires(evs: Seq<SpecEvent>, pos: int, reqs: Seq<SpecRequire>) -> Step<Seq<SpecRequire>>
    decreases evs.len() - pos,
{
    match spec_next(evs, pos) {
        Err(e) => Err(e),
        Ok((e, p)) => match e {
            SpecEvent::StartElement { name, .. } => if name == "require"@ {
                match spec_require(evs, p) {
                    Err(e) => Err(e),
                    Ok((r, p2)) => if pos < p2 <= evs.len() {
                        spec_extension_requires(evs, p2, reqs.push(r))
                    } else {
                        Err(SpecError::EndOfDocument)
                    },
                }
            } else {
                Err(SpecError::Unexpected(e))
            },
            SpecEvent::EndElement { name } => if name == "extension"@ {
                Ok((reqs, p))
            } else {
                Err(SpecError::Unexpected(e))
            },
            _ => Err(SpecError::Unexpected(e)),
        },
    }
}

/// An `<extension>` element with attributes `attrs` whose start has been
/// read.
pub open spec fn spec_extension(attrs: Seq<(Seq<char>, Seq<char>)>, evs: Seq<SpecEvent>, pos: int) -> Step<SpecExtension> {
    match spec_required_attribute(attrs, "name"@) {
        Err(e) => Err(e),
        Ok(name) => match spec_required_attribute(attrs, "supported"@) {
            Err(e) => Err(e),
            Ok(sup) => match spec_apis(spec_split(sup, '|'), Seq::empty()) {
                Err(e) => Err(e),
                Ok(supported) => match spec_extension_requires(evs, pos, Seq::empty()) {
                    Err(e) => Err(e),
                    Ok((reqs, p)) => Ok((SpecExtension { name, supported, requires: reqs }, p)),
                },
            },
        },
    }
}

/// The extensions of an `<extensions>` element whose start has been read,
/// after those in `exts`.
pub open spec fn spec_consume_extensions(evs: Seq<SpecEvent>, pos: int, exts: Seq<SpecExtension>) -> Step<Seq<SpecExtension>>
    decreases evs.len() - pos,
{
    match spec_next(evs, pos) {
        Err(e) => Err(e),
        Ok((e, p)) => match e {
            SpecEvent::StartElement { name, attributes } => if name == "extension"@ {
                match spec_extension(attributes, evs, p) {
                    Err(e) => Err(e),
                    Ok((x, p2)) => if pos < p2 <= evs.len() {
                        spec_consume_extensions(evs, p2, exts.push(x))
                    } else {
                        Err(SpecError::EndOfDocument)
                    },
                }
            } else {
                Err(SpecError::Unexpected(e))
            },
            SpecEvent::EndElement { name } => if name == "extensions"@ {
                Ok((exts, p))
            } else {
                Err(SpecError::Unexpected(e))
            },
            _ => Err(SpecError::Unexpected(e)),
        },
    }
}

/// Everything read from the registry document, before selection.
pub struct SpecParsed {
    pub enums: Seq<SpecEnum>,
    pub cmds: Seq<SpecCmd>,
    pub aliases: Map<Seq<char>, Seq<Seq<char>>>,
    pub features: Seq<SpecFeature>,
    pub extensions: Seq<SpecExtension>,
}

/// Nothing read yet.
pub open spec fn empty_parsed() -> SpecParsed {
    SpecParsed {
        enums: Seq::empty(),
        cmds: Seq::empty(),
        aliases: Map::empty(),
        features: Seq::empty(),
        extensions: Seq::empty(),
    }
}

/// The children of `<registry>`, after what `st` holds, up to and
/// including its end. Text, comments, `<comment>`, `<types>` and
/// `<groups>` are passed over.
pub open spec fn spec_read_registry(api: Api, evs: Seq<SpecEvent>, pos: int, st: SpecParsed) -> Step<SpecParsed>
    decreases evs.len() - pos,
{
    match spec_next(evs, pos) {
        Err(e) => Err(e),
        Ok((e, p)) => match e {
            SpecEvent::Characters(_) | SpecEvent::Comment(_) => if pos < p <= evs.len() {
                spec_read_registry(api, evs, p, st)
            } else {
                Err(SpecError::EndOfDocument)
            },
            SpecEvent::StartElement { name, attributes } => if name == "comment"@ || name == "types"@
                || name == "groups"@ {
                match spec_skip_to_end(evs, p, name) {
                    Err(e) => Err(e),
                    Ok((_, p2)) => if pos < p2 <= evs.len() {
                        spec_read_registry(api, evs, p2, st)
                    } else {
                        Err(SpecError::EndOfDocument)
                    },
                }
            } else if name == "enums"@ {
                match spec_consume_enums(api, evs, p, Seq::empty()) {
                    Err(e) => Err(e),
                    Ok((es, p2)) => if pos < p2 <= evs.len() {
                        spec_read_registry(api, evs, p2, SpecParsed { enums: st.enums + es, ..st })
                    } else {
                        Err(SpecError::EndOfDocument)
                    },
                }
            } else if name == "commands"@ {
                match spec_consume_cmds(api, evs, p, Seq::empty(), Map::empty()) {
                    Err(e) => Err(e),
                    Ok(((cs, al), p2)) => if pos < p2 <= evs.len() {
                        spec_read_registry(api, evs, p2,
                            SpecParsed { cmds: st.cmds + cs, aliases: merged(st.aliases, al), ..st })
                    } else {
                        Err(SpecError::EndOfDocument)
                    },
                }
            } else if name == "feature"@ {
                match spec_feature(attributes, evs, p) {
                    Err(e) => Err(e),
                    Ok((f, p2)) => if pos < p2 <= evs.len() {
                        spec_read_registry(api, evs, p2, SpecParsed { features: st.features.push(f), ..st })
                    } else {
                        Err(SpecError::EndOfDocument)
                    },
                }
            } else if name == "extensions"@ {
                match spec_consume_extensions(evs, p, Seq::empty()) {
                    Err(e) => Err(e),
                    Ok((xs, p2)) => if pos < p2 <= evs.len() {
                        spec_read_registry(api, evs, p2, SpecParsed { extensions: st.extensions + xs, ..st })
                    } else {
                        Err(SpecError::EndOfDocument)
                    },
                }
            } else {
                Err(SpecError::Unexpected(e))
            },
            SpecEvent::EndElement { name } => if name == "registry"@ {
                Ok((st, p))
            } else {
                Err(SpecError::Unexpected(e))
            },
            _ => Err(SpecError::Unexpected(e)),
        },
    }
}

/// The registry of `api` that `filter` selects from the event sequence of
/// a registry document.
pub open spec fn spec_parse_events(evs: Seq<SpecEvent>, api: Api, filter: SpecFilter) -> Result<SpecRegistry, SpecError> {
    match spec_consume_start_element(evs, 0, "registry"@) {
        Err(e) => Err(e),
        Ok((_, p)) => match spec_read_registry(api, evs, p, empty_parsed()) {
            Err(e) => Err(e),
            Ok((parsed, _)) => spec_select(api, filter, parsed),
        },
    }
}

/// The registry of `api` that `filter` selects from the document `input`.
pub open spec fn spec_parse(input: Seq<u8>, api: Api, filter: SpecFilter) -> Result<SpecRegistry, SpecError> {
    spec_parse_events(xml_event_stream(input), api, filter)
}

/// The events of one registry document, and the API whose names are
/// being read.
pub struct RegistryParser {
    api: Api,
    events: EventStream,
}

impl RegistryParser {
    /// Reads the registry document `src` and returns the registry of `api`
    /// that `filter` selects: the enums and commands that the features of
    /// `api` up to the wanted version require (less what they remove for
    /// the wanted profile) and that the requested extensions require, in
    /// document order, with the command aliases unless `filter` turns them
    /// off. The document must be one that the registry grammar accepts,
    /// with the wanted version and the requested extensions available for
    /// `api`; [`RegistryParser::check`] tells whether it is.
    pub fn parse(src: &[u8], api: Api, filter: Filter) -> (r: Registry)
        requires
            spec_parse(src@, api, filter@) is Ok,
        ensures
            spec_parse(src@, api, filter@) == Ok::<SpecRegistry, SpecError>(r@),
            r.aliases.wf(),
    {
        let events = read_events(src);
        Self::parse_events(events, api, filter)
    }

    /// Does what [`RegistryParser::parse`] does, on the XML events of the
    /// document.
    pub fn parse_events(events: EventStream, api: Api, filter: Filter) -> (r: Registry)
        requires
            spec_parse_events(events@, api, filter@) is Ok,
        ensures
            spec_parse_events(events@, api, filter@) == Ok::<SpecRegistry, SpecError>(r@),
            r.aliases.wf(),
    {
        let parser = RegistryParser { api, events };
        let (_, p) = parser.consume_start_element(0, "registry");
        let (parsed, _) = parser.read_registry(p);
        select(api, &filter, parsed)
    }

    /// Whether [`RegistryParser::parse`] accepts these arguments, and if
    /// not, the first way in which the document falls short.
    pub fn check(src: &[u8], api: Api, filter: &Filter) -> (r: Result<(), RegistryError>)
        ensures
            r is Ok <==> spec_parse(src@, api, filter@) is Ok,
            r matches Err(e) ==> spec_parse(src@, api, filter@) == Err::<SpecRegistry, SpecError>(e@),
    {
        let events = read_events(src);
        match Self::try_parse_events(events, api, filter) {
            Ok(_) => Ok(()),
            Err(e) => Err(e),
        }
    }

    /// The registry that [`RegistryParser::parse`] gives, or the first way
    /// in which the document falls short; the document is read once.
    pub fn try_parse(src: &[u8], api: Api, filter: Filter) -> (r: Result<Registry, RegistryError>)
        ensures
            result_view(r, |x: Registry| x@) == spec_parse(src@, api, filter@),
            r matches Ok(reg) ==> reg.aliases.wf(),
    {
        let events = read_events(src);
        Self::try_parse_events(events, api, &filter)
    }

    /// The registry that [`RegistryParser::parse_events`] gives, or the
    /// first way in which the events fall short of the registry grammar.
    pub fn try_parse_events(events: EventStream, api: Api, filter: &Filter) -> (r: Result<Registry, RegistryError>)
        ensures
            result_view(r, |x: Registry| x@) == spec_parse_events(events@, api, filter@),
            r matches Ok(reg) ==> reg.aliases.wf(),
    {
        let parser = RegistryParser { api, events };
        let (_, p) = parser.try_consume_start_element(0, "registry")?;
        let (parsed, _) = parser.try_read_registry(p)?;
        try_select(api, filter, parsed)
    }

    /// The events being parsed.
    pub closed spec fn evs(&self) -> Seq<SpecEvent> {
        self.events@
    }

    /// The API whose names are being read.
    pub closed spec fn spec_api(&self) -> Api {
        self.api
    }

    fn try_next(&self, pos: usize) -> (r: Result<usize, RegistryError>)
        ensures
            spec_next(self.evs(), pos as int) == match r {
                Ok(i) => Ok((self.evs()[i as int], i + 1)),
                Err(e) => Err(e@),
            },
            r matches Ok(i) ==> pos <= i < self.evs().len(),
            self.evs().len() == self.events.events.len(),
    {
        let n = self.events.events.len();
        let mut i = pos;
        while i < n
            invariant
                pos <= i,
                n == self.evs().len(),
                spec_next(self.evs(), pos as int) == spec_next(self.evs(), i as int),
            decreases n - i,
        {
            assert(self.evs()[i as int] == self.events.events@[i as int]@);
            match &self.events.events[i] {
                XmlEvent::StartDocument | XmlEvent::Comment(_) | XmlEvent::Whitespace(_) => {
                    i += 1;
                },
                XmlEvent::EndDocument => {
                    return Err(RegistryError::EndOfDocument);
                },
                XmlEvent::Error(m) => {
                    return Err(RegistryError::Xml(m.clone()));
                },
                _ => {
                    return Ok(i);
                },
            }
        }
        Err(RegistryError::EndOfDocument)
    }

    fn try_consume_characters(&self, pos: usize) -> (r: Result<(String, usize), RegistryError>)
        ensures
            outcome(r, |s: String| s@) == spec_consume_characters(self.evs(), pos as int),
            r matches Ok((_, p)) ==> pos < p <= self.evs().len(),
    {
        let i = self.try_next(pos)?;
        let ev = &self.events.events[i];
        assert(self.evs()[i as int] == ev@);
        match ev {
            XmlEvent::Characters(ch) => Ok((ch.clone(), i + 1)),
            _ => Err(RegistryError::Unexpected(ev.clone_event())),
        }
    }

    fn try_consume_start_element(&self, pos: usize, n: &str) -> (r: Result<(Vec<Attribute>, usize), RegistryError>)
        ensures
            outcome(r, |a: Vec<Attribute>| attrs_view(a@)) == spec_consume_start_element(self.evs(), pos as int, n@),
            r matches Ok((_, p)) ==> pos < p <= self.evs().len(),
    {
        let i = self.try_next(pos)?;
        let ev = &self.events.events[i];
        assert(self.evs()[i as int] == ev@);
        match ev {
            XmlEvent::StartElement { name, attributes } => {
                if string_is(name, n) {
                    Ok((clone_attributes(attributes), i + 1))
                } else {
                    Err(RegistryError::Unexpected(ev.clone_event()))
                }
            },
            _ => Err(RegistryError::Unexpected(ev.clone_event())),
        }
    }

    fn try_consume_end_element(&self, pos: usize, n: &str) -> (r: Result<usize, RegistryError>)
        ensures
            position_view(r) == spec_consume_end_element(self.evs(), pos as int, n@),
            r matches Ok(p) ==> pos < p <= self.evs().len(),
    {
        let i = self.try_next(pos)?;
        let ev = &self.events.events[i];
        assert(self.evs()[i as int] == ev@);
        match ev {
            XmlEvent::EndElement { name } => {
                if string_is(name, n) {
                    Ok(i + 1)
                } else {
                    Err(RegistryError::Unexpected(ev.clone_event()))
                }
            },
            _ => Err(RegistryError::Unexpected(ev.clone_event())),
        }
    }

    fn try_skip_to_end(&self, pos: usize, n: &str) -> (r: Result<usize, RegistryError>)
        requires
            pos <= self.evs().len(),
        ensures
            position_view(r) == spec_skip_to_end(self.evs(), pos as int, n@),
            r matches Ok(p) ==> pos < p <= self.evs().len(),
    {
        let mut p = pos;
        loop
            invariant
                pos <= p <= self.evs().len(),
                spec_skip_to_end(self.evs(), pos as int, n@) == spec_skip_to_end(self.evs(), p as int, n@),
            decreases self.evs().len() - p,
        {
            let i = self.try_next(p)?;
            let ev = &self.events.events[i];
            assert(self.evs()[i as int] == ev@);
            match ev {
                XmlEvent::EndElement { name } => {
                    if string_is(name, n) {
                        return Ok(i + 1);
                    }
                },
                _ => {},
            }
            p = i + 1;
        }
    }

    fn try_consume_enums(&self, pos: usize) -> (r: Result<(Vec<Enum>, usize), RegistryError>)
        requires
            pos <= self.evs().len(),
        ensures
            outcome(r, |v: Vec<Enum>| enums_view(v@))
                == spec_consume_enums(self.spec_api(), self.evs(), pos as int, Seq::empty()),
            r matches Ok((_, p)) ==> pos < p <= self.evs().len(),
    {
        let mut enums: Vec<Enum> = Vec::new();
        let mut p = pos;
        assert(enums_view(enums@) =~= Seq::empty());
        loop
            invariant
                pos <= p <= self.evs().len(),
                spec_consume_enums(self.spec_api(), self.evs(), pos as int, Seq::empty())
                    == spec_consume_enums(self.spec_api(), self.evs(), p as int, enums_view(enums@)),
            decreases self.evs().len() - p,
        {
            let i = self.try_next(p)?;
            let ev = &self.events.events[i];
            assert(self.evs()[i as int] == ev@);
            match ev {
                XmlEvent::Characters(_) | XmlEvent::Comment(_) => {
                    p = i + 1;
                },
                XmlEvent::StartElement { name, attributes } => {
                    if string_is(name, "unused") {
                        p = self.try_skip_to_end(i + 1, "unused")?;
                    } else if string_is(name, "enum") {
                        let en = try_enum_from_attributes(attributes, self.api)?;
                        p = self.try_consume_end_element(i + 1, "enum")?;
                        let ghost before = enums_view(enums@);
                        enums.push(en);
                        assert(enums_view(enums@) =~= before.push(en@));
                    } else {
                        return Err(RegistryError::Unexpected(ev.clone_event()));
                    }
                },
                XmlEvent::EndElement { name } => {
                    if string_is(name, "enums") {
                        return Ok((enums, i + 1));
                    } else {
                        return Err(RegistryError::Unexpected(ev.clone_event()));
                    }
                },
                _ => {
                    return Err(RegistryError::Unexpected(ev.clone_event()));
                },
            }
        }
    }

    fn try_consume_binding_type(&self, pos: usize) -> (r: Result<(String, usize), RegistryError>)
        requires
            pos <= self.evs().len(),
        ensures
            outcome(r, |s: String| s@) == spec_binding_type(self.evs(), pos as int, Seq::empty()),
            r matches Ok((_, p)) ==> pos < p <= self.evs().len(),
    {
        let mut ty = String::new();
        let mut p = pos;
        loop
            invariant
                pos <= p <= self.evs().len(),
                spec_binding_type(self.evs(), pos as int, Seq::empty())
                    == spec_binding_type(self.evs(), p as int, ty@),
            decreases self.evs().len() - p,
        {
            let i = self.try_next(p)?;
            let ev = &self.events.events[i];
            assert(self.evs()[i as int] == ev@);
            match ev {
                XmlEvent::Characters(ch) => {
                    ty.append(ch.as_str());
                },
                XmlEvent::StartElement { name, .. } => {
                    if !string_is(name, "ptype") {
                        if string_is(name, "name") {
                            return Ok((ty, i + 1));
                        } else {
                            return Err(RegistryError::Unexpected(ev.clone_event()));
                        }
                    }
                },
                XmlEvent::EndElement { name } => {
                    if !string_is(name, "ptype") {
                        return Err(RegistryError::Unexpected(ev.clone_event()));
                    }
                },
                _ => {
                    return Err(RegistryError::Unexpected(ev.clone_event()));
                },
            }
            p = i + 1;
        }
    }

    fn try_consume_binding_suffix(&self, pos: usize, outside_tag: &str, prefix: String) -> (r: Result<(String, usize), RegistryError>)
        requires
            pos <= self.evs().len(),
        ensures
            outcome(r, |s: String| s@) == spec_binding_suffix(self.evs(), pos as int, outside_tag@, prefix@),
            r matches Ok((_, p)) ==> pos < p <= self.evs().len(),
    {
        let ghost prefix_view = prefix@;
        let mut ty = prefix;
        let mut p = pos;
        loop
            invariant
                pos <= p <= self.evs().len(),
                prefix_view == prefix@,
                spec_binding_suffix(self.evs(), pos as int, outside_tag@, prefix_view)
                    == spec_binding_suffix(self.evs(), p as int, outside_tag@, ty@),
            decreases self.evs().len() - p,
        {
            let i = self.try_next(p)?;
            let ev = &self.events.events[i];
            assert(self.evs()[i as int] == ev@);
            match ev {
                XmlEvent::Characters(ch) => {
                    ty.append(ch.as_str());
                },
                XmlEvent::EndElement { name } => {
                    if string_is(name, outside_tag) {
                        return Ok((ty, i + 1));
                    } else {
                        return Err(RegistryError::Unexpected(ev.clone_event()));
                    }
                },
                _ => {
                    return Err(RegistryError::Unexpected(ev.clone_event()));
                },
            }
            p = i + 1;
        }
    }

    fn try_consume_binding(&self, pos: usize, outside_tag: &str) -> (r: Result<(Binding, usize), RegistryError>)
        requires
            pos <= self.evs().len(),
        ensures
            outcome(r, |b: Binding| b@) == spec_consume_binding(self.evs(), pos as int, outside_tag@),
            r matches Ok((_, p)) ==> pos < p <= self.evs().len(),
    {
        let (ty, p1) = self.try_consume_binding_type(pos)?;
        let (ident, p2) = self.try_consume_characters(p1)?;
        let p3 = self.try_consume_end_element(p2, "name")?;
        let (ty, p4) = self.try_consume_binding_suffix(p3, outside_tag, ty)?;
        Ok((Binding { ident, ty }, p4))
    }

    fn try_consume_cmd(&self, pos: usize) -> (r: Result<(Cmd, usize), RegistryError>)
        requires
            pos <= self.evs().len(),
        ensures
            outcome(r, |c: Cmd| c@) == spec_consume_cmd(self.spec_api(), self.evs(), pos as int),
            r matches Ok((_, p)) ==> pos < p <= self.evs().len(),
    {
        let (_, p1) = self.try_consume_start_element(pos, "proto")?;
        let (b, p2) = self.try_consume_binding(p1, "proto")?;
        let ident: String = trim_cmd_prefix(b.ident.as_str(), self.api).to_owned();
        let proto = Binding { ident, ty: b.ty };
        let mut params: Vec<Binding> = Vec::new();
        let mut alias: Option<String> = None;
        let mut vecequiv: Option<String> = None;
        let mut glx: Option<GlxOpcode> = None;
        let mut p = p2;
        assert(bindings_view(params@) =~= Seq::empty());
        loop
            invariant
                pos < p2 <= p <= self.evs().len(),
                spec_consume_cmd(self.spec_api(), self.evs(), pos as int) == spec_cmd_rest(
                    self.spec_api(), self.evs(), p as int, proto@, bindings_view(params@),
                    opt_view(alias), opt_view(vecequiv), glx_view(glx)),
            decreases self.evs().len() - p,
        {
            let i = self.try_next(p)?;
            let ev = &self.events.events[i];
            assert(self.evs()[i as int] == ev@);
            match ev {
                XmlEvent::StartElement { name, attributes } => {
                    if string_is(name, "param") {
                        let (b, q) = self.try_consume_binding(i + 1, "param")?;
                        let ghost before = bindings_view(params@);
                        params.push(b);
                        assert(bindings_view(params@) =~= before.push(b@));
                        p = q;
                    } else if string_is(name, "alias") {
                        let q = self.try_consume_end_element(i + 1, "alias")?;
                        alias = match get_attribute(attributes.as_slice(), "name") {
                            Some(t) => Some(trim_cmd_prefix(t.as_str(), self.api).to_owned()),
                            None => None,
                        };
                        p = q;
                    } else if string_is(name, "vecequiv") {
                        let q = self.try_consume_end_element(i + 1, "vecequiv")?;
                        vecequiv = get_attribute(attributes.as_slice(), "vecequiv");
                        p = q;
                    } else if string_is(name, "glx") {
                        let ty = try_required_attribute(attributes, "type")?;
                        let opcode = try_required_attribute(attributes, "opcode")?;
                        let q = self.try_consume_end_element(i + 1, "glx")?;
                        glx = Some(GlxOpcode { ty, opcode, name: get_attribute(attributes.as_slice(), "name") });
                        p = q;
                    } else {
                        return Err(RegistryError::Unexpected(ev.clone_event()));
                    }
                },
                XmlEvent::EndElement { name } => {
                    if string_is(name, "command") {
                        return Ok((Cmd { proto, params, alias, vecequiv, glx }, i + 1));
                    } else {
                        return Err(RegistryError::Unexpected(ev.clone_event()));
                    }
                },
                _ => {
                    return Err(RegistryError::Unexpected(ev.clone_event()));
                },
            }
        }
    }

    fn try_consume_cmds(&self, pos: usize) -> (r: Result<((Vec<Cmd>, AliasMap), usize), RegistryError>)
        requires
            pos <= self.evs().len(),
        ensures
            outcome(r, |v: (Vec<Cmd>, AliasMap)| (cmds_view(v.0@), v.1@))
                == spec_consume_cmds(self.spec_api(), self.evs(), pos as int, Seq::empty(), Map::empty()),
            r matches Ok((v, p)) ==> pos < p <= self.evs().len() && v.1.wf(),
    {
        let mut cmds: Vec<Cmd> = Vec::new();
        let mut aliases = AliasMap::new();
        let mut p = pos;
        assert(cmds_view(cmds@) =~= Seq::empty());
        loop
            invariant
                pos <= p <= self.evs().len(),
                aliases.wf(),
                spec_consume_cmds(self.spec_api(), self.evs(), pos as int, Seq::empty(), Map::empty())
                    == spec_consume_cmds(self.spec_api(), self.evs(), p as int, cmds_view(cmds@), aliases@),
            decreases self.evs().len() - p,
        {
            let i = self.try_next(p)?;
            let ev = &self.events.events[i];
            assert(self.evs()[i as int] == ev@);
            match ev {
                XmlEvent::StartElement { name, .. } => {
                    if string_is(name, "command") {
                        let (c, q) = self.try_consume_cmd(i + 1)?;
                        if let Some(v) = &c.alias {
                            aliases.push_value(v.clone(), c.proto.ident.clone());
                        }
                        let ghost before = cmds_view(cmds@);
                        let ghost cv = c@;
                        cmds.push(c);
                        assert(cmds_view(cmds@) =~= before.push(cv));
                        p = q;
                    } else {
                        return Err(RegistryError::Unexpected(ev.clone_event()));
                    }
                },
                XmlEvent::EndElement { name } => {
                    if string_is(name, "commands") {
                        return Ok(((cmds, aliases), i + 1));
                    } else {
                        return Err(RegistryError::Unexpected(ev.clone_event()));
                    }
                },
                _ => {
                    return Err(RegistryError::Unexpected(ev.clone_event()));
                },
            }
        }
    }

    fn try_consume_two(&self, pos: usize, one: &str, two: &str, end: &str)
        -> (r: Result<((Vec<String>, Vec<String>), usize), RegistryError>)
        requires
            pos <= self.evs().len(),
        ensures
            outcome(r, |v: (Vec<String>, Vec<String>)| (strings_view(v.0@), strings_view(v.1@)))
                == spec_consume_two(self.evs(), pos as int, one@, two@, end@, Seq::empty(), Seq::empty()),
            r matches Ok((_, p)) ==> pos < p <= self.evs().len(),
    {
        let mut ones: Vec<String> = Vec::new();
        let mut twos: Vec<String> = Vec::new();
        let mut p = pos;
        assert(strings_view(ones@) =~= Seq::empty());
        loop
            invariant
                pos <= p <= self.evs().len(),
                spec_consume_two(self.evs(), pos as int, one@, two@, end@, Seq::empty(), Seq::empty())
                    == spec_consume_two(self.evs(), p as int, one@, two@, end@, strings_view(ones@), strings_view(twos@)),
            decreases self.evs().len() - p,
        {
            let i = self.try_next(p)?;
            let ev = &self.events.events[i];
            assert(self.evs()[i as int] == ev@);
            match ev {
                XmlEvent::StartElement { name, attributes } => {
                    if string_is(name, one) {
                        let v = try_required_attribute(attributes, "name")?;
                        let ghost before = strings_view(ones@);
                        let ghost vv = v@;
                        ones.push(v);
                        assert(strings_view(ones@) =~= before.push(vv));
                    } else if string_is(name, "type") {
                    } else if string_is(name, two) {
                        let v = try_required_attribute(attributes, "name")?;
                        let ghost before = strings_view(twos@);
                        let ghost vv = v@;
                        twos.push(v);
                        assert(strings_view(twos@) =~= before.push(vv));
                    } else {
                        return Err(RegistryError::Unexpected(ev.clone_event()));
                    }
                },
                XmlEvent::EndElement { name } => {
                    if string_is(name, one) || string_is(name, two) {
                    } else if string_is(name, "type") {
                    } else if string_is(name, end) {
                        return Ok(((ones, twos), i + 1));
                    } else {
                        return Err(RegistryError::Unexpected(ev.clone_event()));
                    }
                },
                _ => {
                    return Err(RegistryError::Unexpected(ev.clone_event()));
                },
            }
            p = i + 1;
        }
    }

    fn try_consume_feature_parts(&self, pos: usize)
        -> (r: Result<((Vec<Require>, Vec<Remove>), usize), RegistryError>)
        requires
            pos <= self.evs().len(),
        ensures
            outcome(r, |v: (Vec<Require>, Vec<Remove>)| (v.0@.map_values(|x: Require| x@), v.1@.map_values(|x: Remove| x@)))
                == spec_feature_parts(self.evs(), pos as int, Seq::empty(), Seq::empty()),
            r matches Ok((_, p)) ==> pos < p <= self.evs().len(),
    {
        let mut reqs: Vec<Require> = Vec::new();
        let mut rems: Vec<Remove> = Vec::new();
        let mut p = pos;
        assert(reqs@.map_values(|x: Require| x@) =~= Seq::empty());
        assert(rems@.map_values(|x: Remove| x@) =~= Seq::empty());
        loop
            invariant
                pos <= p <= self.evs().len(),
                spec_feature_parts(self.evs(), pos as int, Seq::empty(), Seq::empty())
                    == spec_feature_parts(self.evs(), p as int, reqs@.map_values(|x: Require| x@), rems@.map_values(|x: Remove| x@)),
            decreases self.evs().len() - p,
        {
            let i = self.try_next(p)?;
            let ev = &self.events.events[i];
            assert(self.evs()[i as int] == ev@);
            match ev {
                XmlEvent::StartElement { name, attributes } => {
                    if string_is(name, "require") {
                        let (r, q) = Require::try_convert(self, i + 1)?;
                        let ghost before = reqs@.map_values(|x: Require| x@);
                        let ghost rv = r@;
                        reqs.push(r);
                        assert(reqs@.map_values(|x: Require| x@) =~= before.push(rv));
                        p = q;
                    } else if string_is(name, "type") {
                        p = i + 1;
                    } else if string_is(name, "remove") {
                        let (r, q) = Remove::try_convert(self, attributes, i + 1)?;
                        let ghost before = rems@.map_values(|x: Remove| x@);
                        let ghost rv = r@;
                        rems.push(r);
                        assert(rems@.map_values(|x: Remove| x@) =~= before.push(rv));
                        p = q;
                    } else {
                        return Err(RegistryError::Unexpected(ev.clone_event()));
                    }
                },
                XmlEvent::EndElement { name } => {
                    if string_is(name, "require") || string_is(name, "remove") {
                        p = i + 1;
                    } else if string_is(name, "type") {
                        p = i + 1;
                    } else if string_is(name, "feature") {
                        return Ok(((reqs, rems), i + 1));
                    } else {
                        return Err(RegistryError::Unexpected(ev.clone_event()));
                    }
                },
                _ => {
                    return Err(RegistryError::Unexpected(ev.clone_event()));
                },
            }
        }
    }

    fn try_consume_extension_requires(&self, pos: usize) -> (r: Result<(Vec<Require>, usize), RegistryError>)
        requires
            pos <= self.evs().len(),
        ensures
            outcome(r, |v: Vec<Require>| v@.map_values(|x: Require| x@))
                == spec_extension_requires(self.evs(), pos as int, Seq::empty()),
            r matches Ok((_, p)) ==> pos < p <= self.evs().len(),
    {
        let mut reqs: Vec<Require> = Vec::new();
        let mut p = pos;
        assert(reqs@.map_values(|x: Require| x@) =~= Seq::empty());
        loop
            invariant
                pos <= p <= self.evs().len(),
                spec_extension_requires(self.evs(), pos as int, Seq::empty())
                    == spec_extension_requires(self.evs(), p as int, reqs@.map_values(|x: Require| x@)),
            decreases self.evs().len() - p,
        {
            let i = self.try_next(p)?;
            let ev = &self.events.events[i];
            assert(self.evs()[i as int] == ev@);
            match ev {
                XmlEvent::StartElement { name, .. } => {
                    if string_is(name, "require") {
                        let (r, q) = Require::try_convert(self, i + 1)?;
                        let ghost before = reqs@.map_values(|x: Require| x@);
                        let ghost rv = r@;
                        reqs.push(r);
                        assert(reqs@.map_values(|x: Require| x@) =~= before.push(rv));
                        p = q;
                    } else {
                        return Err(RegistryError::Unexpected(ev.clone_event()));
                    }
                },
                XmlEvent::EndElement { name } => {
                    if string_is(name, "extension") {
                        return Ok((reqs, i + 1));
                    } else {
                        return Err(RegistryError::Unexpected(ev.clone_event()));
                    }
                },
                _ => {
                    return Err(RegistryError::Unexpected(ev.clone_event()));
                },
            }
        }
    }

    fn try_consume_extensions(&self, pos: usize) -> (r: Result<(Vec<Extension>, usize), RegistryError>)
        requires
            pos <= self.evs().len(),
        ensures
            outcome(r, |v: Vec<Extension>| v@.map_values(|x: Extension| x@))
                == spec_consume_extensions(self.evs(), pos as int, Seq::empty()),
            r matches Ok((_, p)) ==> pos < p <= self.evs().len(),
    {
        let mut exts: Vec<Extension> = Vec::new();
        let mut p = pos;
        assert(exts@.map_values(|x: Extension| x@) =~= Seq::empty());
        loop
            invariant
                pos <= p <= self.evs().len(),
                spec_consume_extensions(self.evs(), pos as int, Seq::empty())
                    == spec_consume_extensions(self.evs(), p as int, exts@.map_values(|x: Extension| x@)),
            decreases self.evs().len() - p,
        {
            let i = self.try_next(p)?;
            let ev = &self.events.events[i];
            assert(self.evs()[i as int] == ev@);
            match ev {
                XmlEvent::StartElement { name, attributes } => {
                    if string_is(name, "extension") {
                        let (x, q) = Extension::try_convert(self, attributes, i + 1)?;
                        let ghost before = exts@.map_values(|x: Extension| x@);
                        let ghost xv = x@;
                        exts.push(x);
                        assert(exts@.map_values(|x: Extension| x@) =~= before.push(xv));
                        p = q;
                    } else {
                        return Err(RegistryError::Unexpected(ev.clone_event()));
                    }
                },
                XmlEvent::EndElement { name } => {
                    if string_is(name, "extensions") {
                        return Ok((exts, i + 1));
                    } else {
                        return Err(RegistryError::Unexpected(ev.clone_event()));
                    }
                },
                _ => {
                    return Err(RegistryError::Unexpected(ev.clone_event()));
                },
            }
        }
    }

    fn try_read_registry(&self, pos: usize) -> (r: Result<(Parsed, usize), RegistryError>)
        requires
            pos <= self.evs().len(),
        ensures
            outcome(r, |v: Parsed| v@) == spec_read_registry(self.spec_api(), self.evs(), pos as int, empty_parsed()),
            r matches Ok((v, p)) ==> pos < p <= self.evs().len() && v.aliases.wf(),
    {
        let mut st = Parsed {
            enums: Vec::new(),
            cmds: Vec::new(),
            aliases: AliasMap::new(),
            features: Vec::new(),
            extensions: Vec::new(),
        };
        assert(st@.enums =~= Seq::empty());
        assert(st@.cmds =~= Seq::empty());
        assert(st@.features =~= Seq::empty());
        assert(st@.extensions =~= Seq::empty());
        let mut p = pos;
        loop
            invariant
                pos <= p <= self.evs().len(),
                st.aliases.wf(),
                spec_read_registry(self.spec_api(), self.evs(), pos as int, empty_parsed())
                    == spec_read_registry(self.spec_api(), self.evs(), p as int, st@),
            decreases self.evs().len() - p,
        {
            let i = self.try_next(p)?;
            let ev = &self.events.events[i];
            assert(self.evs()[i as int] == ev@);
            let ghost old_st = st@;
            match ev {
                XmlEvent::Characters(_) | XmlEvent::Comment(_) => {
                    p = i + 1;
                },
                XmlEvent::StartElement { name, attributes } => {
                    if string_is(name, "comment") || string_is(name, "types") || string_is(name, "groups") {
                        p = self.try_skip_to_end(i + 1, name.as_str())?;
                    } else if string_is(name, "enums") {
                        let (mut es, q) = self.try_consume_enums(i + 1)?;
                        let ghost esv = enums_view(es@);
                        st.enums.append(&mut es);
                        assert(st@.enums =~= old_st.enums + esv);
                        assert(st@ == SpecParsed { enums: old_st.enums + esv, ..old_st });
                        p = q;
                    } else if string_is(name, "commands") {
                        let ((mut cs, al), q) = self.try_consume_cmds(i + 1)?;
                        let ghost csv = cmds_view(cs@);
                        st.cmds.append(&mut cs);
                        merge_map(&mut st.aliases, al);
                        assert(st@.cmds =~= old_st.cmds + csv);
                        p = q;
                    } else if string_is(name, "feature") {
                        let (f, q) = Feature::try_convert(self, attributes, i + 1)?;
                        let ghost fv = f@;
                        st.features.push(f);
                        assert(st@.features =~= old_st.features.push(fv));
                        p = q;
                    } else if string_is(name, "extensions") {
                        let (mut xs, q) = self.try_consume_extensions(i + 1)?;
                        let ghost xsv = xs@.map_values(|x: Extension| x@);
                        st.extensions.append(&mut xs);
                        assert(st@.extensions =~= old_st.extensions + xsv);
                        p = q;
                    } else {
                        return Err(RegistryError::Unexpected(ev.clone_event()));
                    }
                },
                XmlEvent::EndElement { name } => {
                    if string_is(name, "registry") {
                        return Ok((st, i + 1));
                    } else {
                        return Err(RegistryError::Unexpected(ev.clone_event()));
                    }
                },
                _ => {
                    return Err(RegistryError::Unexpected(ev.clone_event()));
                },
            }
        }
    }
}

/// Each reader of the grammar in the form for a position where the grammar
/// succeeds: there it cannot fail, and it gives what its `try_` form gives.
/// [`RegistryParser::parse_events`] reads through these.
impl RegistryParser {
    fn next(&self, pos: usize) -> (i: usize)
        requires
            spec_next(self.evs(), pos as int) is Ok,
        ensures
            spec_next(self.evs(), pos as int) == Step::Ok((self.evs()[i as int], i + 1)),
            pos <= i < self.evs().len(),
            self.evs().len() == self.events.events.len(),
    {
        match self.try_next(pos) {
            Ok(v) => v,
            Err(_) => unreached(),
        }
    }

    fn consume_characters(&self, pos: usize) -> (r: (String, usize))
        requires
            spec_consume_characters(self.evs(), pos as int) is Ok,
        ensures
            spec_consume_characters(self.evs(), pos as int) == Step::Ok((r.0@, r.1 as int)),
            pos < r.1 <= self.evs().len(),
    {
        match self.try_consume_characters(pos) {
            Ok(v) => v,
            Err(_) => unreached(),
        }
    }

    fn consume_start_element(&self, pos: usize, n: &str) -> (r: (Vec<Attribute>, usize))
        requires
            spec_consume_start_element(self.evs(), pos as int, n@) is Ok,
        ensures
            spec_consume_start_element(self.evs(), pos as int, n@) == Step::Ok((attrs_view(r.0@), r.1 as int)),
            pos < r.1 <= self.evs().len(),
    {
        match self.try_consume_start_element(pos, n) {
            Ok(v) => v,
            Err(_) => unreached(),
        }
    }

    fn consume_end_element(&self, pos: usize, n: &str) -> (p: usize)
        requires
            spec_consume_end_element(self.evs(), pos as int, n@) is Ok,
        ensures
            spec_consume_end_element(self.evs(), pos as int, n@) == Step::Ok(((), p as int)),
            pos < p <= self.evs().len(),
    {
        match self.try_consume_end_element(pos, n) {
            Ok(v) => v,
            Err(_) => unreached(),
        }
    }

    fn skip_to_end(&self, pos: usize, n: &str) -> (r: usize)
        requires
            spec_skip_to_end(self.evs(), pos as int, n@) is Ok,
        ensures
            spec_skip_to_end(self.evs(), pos as int, n@) == Step::Ok(((), r as int)),
            pos < r <= self.evs().len(),
    {
        match self.try_skip_to_end(pos, n) {
            Ok(v) => v,
            Err(_) => unreached(),
        }
    }

    fn consume_enums(&self, pos: usize) -> (r: (Vec<Enum>, usize))
        requires
            spec_consume_enums(self.spec_api(), self.evs(), pos as int, Seq::empty()) is Ok,
        ensures
            spec_consume_enums(self.spec_api(), self.evs(), pos as int, Seq::empty())
                == Step::Ok((enums_view(r.0@), r.1 as int)),
            pos < r.1 <= self.evs().len(),
    {
        match self.try_consume_enums(pos) {
            Ok(v) => v,
            Err(_) => unreached(),
        }
    }

    fn consume_binding_type(&self, pos: usize) -> (r: (String, usize))
        requires
            spec_binding_type(self.evs(), pos as int, Seq::empty()) is Ok,
        ensures
            spec_binding_type(self.evs(), pos as int, Seq::empty()) == Step::Ok((r.0@, r.1 as int)),
            pos < r.1 <= self.evs().len(),
    {
        match self.try_consume_binding_type(pos) {
            Ok(v) => v,
            Err(_) => unreached(),
        }
    }

    fn consume_binding_suffix(&self, pos: usize, outside_tag: &str, prefix: String) -> (r: (String, usize))
        requires
            spec_binding_suffix(self.evs(), pos as int, outside_tag@, prefix@) is Ok,
        ensures
            spec_binding_suffix(self.evs(), pos as int, outside_tag@, prefix@) == Step::Ok((r.0@, r.1 as int)),
            pos < r.1 <= self.evs().len(),
    {
        match self.try_consume_binding_suffix(pos, outside_tag, prefix) {
            Ok(v) => v,
            Err(_) => unreached(),
        }
    }

    fn consume_binding(&self, pos: usize, outside_tag: &str) -> (r: (Binding, usize))
        requires
            spec_consume_binding(self.evs(), pos as int, outside_tag@) is Ok,
        ensures
            spec_consume_binding(self.evs(), pos as int, outside_tag@) == Step::Ok((r.0@, r.1 as int)),
            pos < r.1 <= self.evs().len(),
    {
        match self.try_consume_binding(pos, outside_tag) {
            Ok(v) => v,
            Err(_) => unreached(),
        }
    }

    fn consume_cmd(&self, pos: usize) -> (r: (Cmd, usize))
        requires
            spec_consume_cmd(self.spec_api(), self.evs(), pos as int) is Ok,
        ensures
            spec_consume_cmd(self.spec_api(), self.evs(), pos as int) == Step::Ok((r.0@, r.1 as int)),
            pos < r.1 <= self.evs().len(),
    {
        match self.try_consume_cmd(pos) {
            Ok(v) => v,
            Err(_) => unreached(),
        }
    }

    fn consume_cmds(&self, pos: usize) -> (r: ((Vec<Cmd>, AliasMap), usize))
        requires
            spec_consume_cmds(self.spec_api(), self.evs(), pos as int, Seq::empty(), Map::empty()) is Ok,
        ensures
            spec_consume_cmds(self.spec_api(), self.evs(), pos as int, Seq::empty(), Map::empty())
                == Step::Ok(((cmds_view(r.0.0@), r.0.1@), r.1 as int)),
            pos < r.1 <= self.evs().len(),
            r.0.1.wf(),
    {
        match self.try_consume_cmds(pos) {
            Ok(v) => v,
            Err(_) => unreached(),
        }
    }

    fn consume_two(&self, pos: usize, one: &str, two: &str, end: &str) -> (r: ((Vec<String>, Vec<String>), usize))
        requires
            spec_consume_two(self.evs(), pos as int, one@, two@, end@, Seq::empty(), Seq::empty()) is Ok,
        ensures
            spec_consume_two(self.evs(), pos as int, one@, two@, end@, Seq::empty(), Seq::empty())
                == Step::Ok(((strings_view(r.0.0@), strings_view(r.0.1@)), r.1 as int)),
            pos < r.1 <= self.evs().len(),
    {
        match self.try_consume_two(pos, one, two, end) {
            Ok(v) => v,
            Err(_) => unreached(),
        }
    }

    fn consume_feature_parts(&self, pos: usize) -> (r: ((Vec<Require>, Vec<Remove>), usize))
        requires
            spec_feature_parts(self.evs(), pos as int, Seq::empty(), Seq::empty()) is Ok,
        ensures
            spec_feature_parts(self.evs(), pos as int, Seq::empty(), Seq::empty()) == Step::Ok(
                ((r.0.0@.map_values(|x: Require| x@), r.0.1@.map_values(|x: Remove| x@)), r.1 as int),
            ),
            pos < r.1 <= self.evs().len(),
    {
        match self.try_consume_feature_parts(pos) {
            Ok(v) => v,
            Err(_) => unreached(),
        }
    }

    fn consume_extension_requires(&self, pos: usize) -> (r: (Vec<Require>, usize))
        requires
            spec_extension_requires(self.evs(), pos as int, Seq::empty()) is Ok,
        ensures
            spec_extension_requires(self.evs(), pos as int, Seq::empty())
                == Step::Ok((r.0@.map_values(|x: Require| x@), r.1 as int)),
            pos < r.1 <= self.evs().len(),
    {
        match self.try_consume_extension_requires(pos) {
            Ok(v) => v,
            Err(_) => unreached(),
        }
    }

    fn consume_extensions(&self, pos: usize) -> (r: (Vec<Extension>, usize))
        requires
            spec_consume_extensions(self.evs(), pos as int, Seq::empty()) is Ok,
        ensures
            spec_consume_extensions(self.evs(), pos as int, Seq::empty())
                == Step::Ok((r.0@.map_values(|x: Extension| x@), r.1 as int)),
            pos < r.1 <= self.evs().len(),
    {
        match self.try_consume_extensions(pos) {
            Ok(v) => v,
            Err(_) => unreached(),
        }
    }

    fn read_registry(&self, pos: usize) -> (r: (Parsed, usize))
        requires
            spec_read_registry(self.spec_api(), self.evs(), pos as int, empty_parsed()) is Ok,
        ensures
            spec_read_registry(self.spec_api(), self.evs(), pos as int, empty_parsed()) == Step::Ok((r.0@, r.1 as int)),
            pos < r.1 <= self.evs().len(),
            r.0.aliases.wf(),
    {
        match self.try_read_registry(pos) {
            Ok(v) => v,
            Err(_) => unreached(),
        }
    }
}

impl Require {
    fn convert(r: &RegistryParser, pos: usize) -> (res: (Require, usize))
        requires
            spec_require(r.evs(), pos as int) is Ok,
        ensures
            spec_require(r.evs(), pos as int) == Step::Ok((res.0@, res.1 as int)),
            pos < res.1 <= r.evs().len(),
    {
        match Require::try_convert(r, pos) {
            Ok(v) => v,
            Err(_) => unreached(),
        }
    }
}

impl Remove {
    fn convert(r: &RegistryParser, a: &Vec<Attribute>, pos: usize) -> (res: (Remove, usize))
        requires
            spec_remove(attrs_view(a@), r.evs(), pos as int) is Ok,
        ensures
            spec_remove(attrs_view(a@), r.evs(), pos as int) == Step::Ok((res.0@, res.1 as int)),
            pos < res.1 <= r.evs().len(),
    {
        match Remove::try_convert(r, a, pos) {
            Ok(v) => v,
            Err(_) => unreached(),
        }
    }
}

impl Feature {
    fn convert(r: &RegistryParser, a: &Vec<Attribute>, pos: usize) -> (res: (Feature, usize))
        requires
            spec_feature(attrs_view(a@), r.evs(), pos as int) is Ok,
        ensures
            spec_feature(attrs_view(a@), r.evs(), pos as int) == Step::Ok((res.0@, res.1 as int)),
            pos < res.1 <= r.evs().len(),
    {
        match Feature::try_convert(r, a, pos) {
            Ok(v) => v,
            Err(_) => unreached(),
        }
    }
}

impl Extension {
    fn convert(r: &RegistryParser, a: &Vec<Attribute>, pos: usize) -> (res: (Extension, usize))
        requires
            spec_extension(attrs_view(a@), r.evs(), pos as int) is Ok,
        ensures
            spec_extension(attrs_view(a@), r.evs(), pos as int) == Step::Ok((res.0@, res.1 as int)),
            pos < res.1 <= r.evs().len(),
    {
        match Extension::try_convert(r, a, pos) {
            Ok(v) => v,
            Err(_) => unreached(),
        }
    }
}

/// The APIs that `pieces` name, in order; each piece names one.
fn apis_from_pieces(pieces: &Vec<String>) -> (r: Vec<Api>)
    requires
        spec_apis(strings_view(pieces@), Seq::empty()) is Ok,
    ensures
        spec_apis(strings_view(pieces@), Seq::empty()) == Ok::<Seq<Api>, SpecError>(r@),
{
    match try_apis_from_pieces(pieces) {
        Ok(v) => v,
        Err(_) => unreached(),
    }
}

/// The value of the attribute named `name`, which is there.
fn required_attribute(attrs: &Vec<Attribute>, name: &str) -> (r: String)
    requires
        spec_required_attribute(attrs_view(attrs@), name@) is Ok,
    ensures
        spec_required_attribute(attrs_view(attrs@), name@) == Ok::<Seq<char>, SpecError>(r@),
{
    match try_required_attribute(attrs, name) {
        Ok(v) => v,
        Err(_) => unreached(),
    }
}

/// The enum that an `<enum>` element with attributes `attrs`, which has a
/// name and a value, defines.
fn enum_from_attributes(attrs: &Vec<Attribute>, api: Api) -> (r: Enum)
    requires
        spec_enum_from(api, attrs_view(attrs@)) is Ok,
    ensures
        spec_enum_from(api, attrs_view(attrs@)) == Ok::<SpecEnum, SpecError>(r@),
{
    match try_enum_from_attributes(attrs, api) {
        Ok(v) => v,
        Err(_) => unreached(),
    }
}

/// Everything read from the registry document, before selection.
#[derive(Debug)]
pub struct Parsed {
    pub enums: Vec<Enum>,
    pub cmds: Vec<Cmd>,
    pub aliases: AliasMap,
    pub features: Vec<Feature>,
    pub extensions: Vec<Extension>,
}

impl View for Parsed {
    type V = SpecParsed;

    open spec fn view(&self) -> SpecParsed {
        SpecParsed {
            enums: enums_view(self.enums@),
            cmds: cmds_view(self.cmds@),
            aliases: self.aliases@,
            features: self.features@.map_values(|x: Feature| x@),
            extensions: self.extensions@.map_values(|x: Extension| x@),
        }
    }
}

impl Require {
    fn try_convert(r: &RegistryParser, pos: usize) -> (res: Result<(Require, usize), RegistryError>)
        requires
            pos <= r.evs().len(),
        ensures
            outcome(res, |x: Require| x@) == spec_require(r.evs(), pos as int),
            res matches Ok((_, p)) ==> pos < p <= r.evs().len(),
    {
        let ((enums, commands), p) = r.try_consume_two(pos, "enum", "command", "require")?;
        Ok((Require { enums, commands }, p))
    }
}

impl Remove {
    fn try_convert(r: &RegistryParser, a: &Vec<Attribute>, pos: usize) -> (res: Result<(Remove, usize), RegistryError>)
        requires
            pos <= r.evs().len(),
        ensures
            outcome(res, |x: Remove| x@) == spec_remove(attrs_view(a@), r.evs(), pos as int),
            res matches Ok((_, p)) ==> pos < p <= r.evs().len(),
    {
        let pr = try_required_attribute(a, "profile")?;
        let profile = match profile_from_str(pr.as_str()) {
            Ok(profile) => profile,
            Err(()) => {
                return Err(RegistryError::UnknownProfile(pr));
            },
        };
        let ((enums, commands), p) = r.try_consume_two(pos, "enum", "command", "remove")?;
        Ok((Remove { profile, enums, commands }, p))
    }
}

impl Feature {
    fn try_convert(r: &RegistryParser, a: &Vec<Attribute>, pos: usize) -> (res: Result<(Feature, usize), RegistryError>)
        requires
            pos <= r.evs().len(),
        ensures
            outcome(res, |x: Feature| x@) == spec_feature(attrs_view(a@), r.evs(), pos as int),
            res matches Ok((_, p)) ==> pos < p <= r.evs().len(),
    {
        let api_name = try_required_attribute(a, "api")?;
        let api = match api_from_str(api_name.as_str()) {
            Ok(api) => api,
            Err(()) => {
                return Err(RegistryError::UnknownApi(api_name));
            },
        };
        let name = try_required_attribute(a, "name")?;
        let number = try_required_attribute(a, "number")?;
        let ((reqs, removes), p) = r.try_consume_feature_parts(pos)?;
        Ok((Feature { api, name, number, requires: reqs, removes }, p))
    }
}

/// The APIs that `pieces` name, in order; the first piece that names none
/// is the error.
fn try_apis_from_pieces(pieces: &Vec<String>) -> (r: Result<Vec<Api>, RegistryError>)
    ensures
        result_view(r, |v: Vec<Api>| v@) == spec_apis(strings_view(pieces@), Seq::empty()),
{
    let ghost sv = strings_view(pieces@);
    let mut apis: Vec<Api> = Vec::new();
    let mut i: usize = 0;
    assert(sv.skip(0) =~= sv);
    while i < pieces.len()
        invariant
            0 <= i <= pieces@.len(),
            sv == strings_view(pieces@),
            spec_apis(sv, Seq::empty()) == spec_apis(sv.skip(i as int), apis@),
        decreases pieces.len() - i,
    {
        assert(sv.skip(i as int)[0] == pieces@[i as int]@);
        assert(sv.skip(i as int).drop_first() =~= sv.skip(i + 1));
        match api_from_str(pieces[i].as_str()) {
            Ok(a) => {
                apis.push(a);
            },
            Err(()) => {
                return Err(RegistryError::UnknownApi(pieces[i].clone()));
            },
        }
        i += 1;
    }
    assert(sv.skip(i as int) =~= Seq::<Seq<char>>::empty());
    Ok(apis)
}

impl Extension {
    fn try_convert(r: &RegistryParser, a: &Vec<Attribute>, pos: usize) -> (res: Result<(Extension, usize), RegistryError>)
        requires
            pos <= r.evs().len(),
        ensures
            outcome(res, |x: Extension| x@) == spec_extension(attrs_view(a@), r.evs(), pos as int),
            res matches Ok((_, p)) ==> pos < p <= r.evs().len(),
    {
        let name = try_required_attribute(a, "name")?;
        let sup = try_required_attribute(a, "supported")?;
        let pieces = split_char(sup.as_str(), '|');
        assert(strings_view(pieces@) =~= pieces@.map_values(|p: String| p@));
        let supported = try_apis_from_pieces(&pieces)?;
        let (reqs, p) = r.try_consume_extension_requires(pos)?;
        Ok((Extension { name, supported, requires: reqs }, p))
    }
}

/// The value of the attribute named `name`, which must be there.
fn try_required_attribute(attrs: &Vec<Attribute>, name: &str) -> (r: Result<String, RegistryError>)
    ensures
        result_view(r, |s: String| s@) == spec_required_attribute(attrs_view(attrs@), name@),
{
    match get_attribute(attrs.as_slice(), name) {
        Some(v) => Ok(v),
        None => Err(RegistryError::MissingAttribute(name.to_owned())),
    }
}

/// The enum that an `<enum>` element with attributes `attrs` defines.
fn try_enum_from_attributes(attrs: &Vec<Attribute>, api: Api) -> (r: Result<Enum, RegistryError>)
    ensures
        result_view(r, |e: Enum| e@) == spec_enum_from(api, attrs_view(attrs@)),
{
    let name = try_required_attribute(attrs, "name")?;
    let value = try_required_attribute(attrs, "value")?;
    let ident: String = trim_enum_prefix(name.as_str(), api).to_owned();
    Ok(Enum {
        ident,
        value,
        alias: get_attribute(attrs.as_slice(), "alias"),
        ty: get_attribute(attrs.as_slice(), "type"),
    })
}

} // verus!
