//! The APIs, profiles and fallback modes of the registry, and the name
//! prefixes that each API puts on its enums and commands.
use vstd::prelude::*;
use crate::text::{str_is, trim_str, spec_trim_str};

verus! {

/// An API described by the registry.
#[derive(Clone, Copy, Debug, PartialEq, Eq, Hash, Structural)]
pub enum Api {
    Gl,
    Glx,
    Wgl,
    Egl,
    GlCore,
    Gles1,
    Gles2,
}

/// A profile of an API version.
#[derive(Clone, Copy, Debug, PartialEq, Eq, Hash, Structural)]
pub enum Profile {
    Core,
    Compatibility,
}

/// Whether command aliases are kept in the generated registry.
#[derive(Clone, Copy, Debug, PartialEq, Eq, Hash, Structural)]
pub enum Fallbacks {
    All,
    Disabled,
}

/// The API that a registry `api` attribute names.
pub open spec fn spec_api_from_str(src: Seq<char>) -> Result<Api, ()> {
    if src == "gl"@ {
        Ok(Api::Gl)
    } else if src == "glx"@ {
        Ok(Api::Glx)
    } else if src == "wgl"@ {
        Ok(Api::Wgl)
    } else if src == "egl"@ {
        Ok(Api::Egl)
    } else if src == "glcore"@ {
        Ok(Api::GlCore)
    } else if src == "gles1"@ {
        Ok(Api::Gles1)
    } else if src == "gles2"@ {
        Ok(Api::Gles2)
    } else {
        Err(())
    }
}

/// Reads an API name as it appears in the registry.
pub fn api_from_str(src: &str) -> (r: Result<Api, ()>)
    ensures
        r == spec_api_from_str(src@),
{
    if str_is(src, "gl") {
        Ok(Api::Gl)
    } else if str_is(src, "glx") {
        Ok(Api::Glx)
    } else if str_is(src, "wgl") {
        Ok(Api::Wgl)
    } else if str_is(src, "egl") {
        Ok(Api::Egl)
    } else if str_is(src, "glcore") {
        Ok(Api::GlCore)
    } else if str_is(src, "gles1") {
        Ok(Api::Gles1)
    } else if str_is(src, "gles2") {
        Ok(Api::Gles2)
    } else {
        Err(())
    }
}

/// The profile that a registry `profile` attribute names.
pub open spec fn spec_profile_from_str(src: Seq<char>) -> Result<Profile, ()> {
    if src == "core"@ {
        Ok(Profile::Core)
    } else if src == "compatibility"@ {
        Ok(Profile::Compatibility)
    } else {
        Err(())
    }
}

/// Reads a profile name as it appears in the registry.
pub fn profile_from_str(src: &str) -> (r: Result<Profile, ()>)
    ensures
        r == spec_profile_from_str(src@),
{
    if str_is(src, "core") {
        Ok(Profile::Core)
    } else if str_is(src, "compatibility") {
        Ok(Profile::Compatibility)
    } else {
        Err(())
    }
}

/// The prefix that the registry puts on the enum names of `api`.
pub open spec fn enum_prefix(api: Api) -> Seq<char> {
    match api {
        Api::Gl | Api::GlCore | Api::Gles1 | Api::Gles2 => "GL_"@,
        Api::Glx => "GLX_"@,
        Api::Wgl => "WGL_"@,
        Api::Egl => "EGL_"@,
    }
}

/// The prefix that the registry puts on the command names of `api`.
pub open spec fn cmd_prefix(api: Api) -> Seq<char> {
    match api {
        Api::Gl | Api::GlCore | Api::Gles1 | Api::Gles2 => "gl"@,
        Api::Glx => "glX"@,
        Api::Wgl => "wgl"@,
        Api::Egl => "egl"@,
    }
}

/// Drops the enum prefix of `api` from `ident`, where it is there.
pub fn trim_enum_prefix<'a>(ident: &'a str, api: Api) -> (r: &'a str)
    ensures
        r@ == spec_trim_str(ident@, enum_prefix(api)),
{
    match api {
        Api::Gl | Api::GlCore | Api::Gles1 | Api::Gles2 => trim_str(ident, "GL_"),
        Api::Glx => trim_str(ident, "GLX_"),
        Api::Wgl => trim_str(ident, "WGL_"),
        Api::Egl => trim_str(ident, "EGL_"),
    }
}

/// Drops the command prefix of `api` from `ident`, where it is there.
pub fn trim_cmd_prefix<'a>(ident: &'a str, api: Api) -> (r: &'a str)
    ensures
        r@ == spec_trim_str(ident@, cmd_prefix(api)),
{
    match api {
        Api::Gl | Api::GlCore | Api::Gles1 | Api::Gles2 => trim_str(ident, "gl"),
        Api::Glx => trim_str(ident, "glX"),
        Api::Wgl => trim_str(ident, "wgl"),
        Api::Egl => trim_str(ident, "egl"),
    }
}

} // verus!
