use gl_generator::api::{api_from_str, profile_from_str, trim_cmd_prefix, trim_enum_prefix, Api, Profile};
use gl_generator::registry::{merge_map, AliasMap, NameSet};
use gl_generator::text::{split_char, str_le, trim_str};
use gl_generator::xml_events::get_attribute;

fn s(x: &str) -> String {
    x.to_string()
}

#[test]
fn trim_str_removes_present_prefix() {
    assert_eq!(trim_str("GL_TEXTURE", "GL_"), "TEXTURE");
    assert_eq!(trim_str("glClear", "gl"), "Clear");
}

#[test]
fn trim_str_keeps_absent_prefix() {
    assert_eq!(trim_str("TEXTURE", "GL_"), "TEXTURE");
    assert_eq!(trim_str("GL", "GL_"), "GL");
    assert_eq!(trim_str("", "GL_"), "");
    assert_eq!(trim_str("GL_", "GL_"), "");
}

#[test]
fn api_prefixes() {
    assert_eq!(trim_enum_prefix("GL_ONE", Api::GlCore), "ONE");
    assert_eq!(trim_enum_prefix("GLX_ONE", Api::Glx), "ONE");
    assert_eq!(trim_enum_prefix("WGL_ONE", Api::Wgl), "ONE");
    assert_eq!(trim_enum_prefix("EGL_ONE", Api::Egl), "ONE");
    assert_eq!(trim_enum_prefix("EGL_ONE", Api::Gl), "EGL_ONE");
    assert_eq!(trim_cmd_prefix("glXSwapBuffers", Api::Glx), "SwapBuffers");
    assert_eq!(trim_cmd_prefix("wglMakeCurrent", Api::Wgl), "MakeCurrent");
    assert_eq!(trim_cmd_prefix("eglGetDisplay", Api::Egl), "GetDisplay");
    assert_eq!(trim_cmd_prefix("glDraw", Api::Gles1), "Draw");
}

#[test]
fn api_names() {
    assert_eq!(api_from_str("gl"), Ok(Api::Gl));
    assert_eq!(api_from_str("glx"), Ok(Api::Glx));
    assert_eq!(api_from_str("wgl"), Ok(Api::Wgl));
    assert_eq!(api_from_str("egl"), Ok(Api::Egl));
    assert_eq!(api_from_str("glcore"), Ok(Api::GlCore));
    assert_eq!(api_from_str("gles1"), Ok(Api::Gles1));
    assert_eq!(api_from_str("gles2"), Ok(Api::Gles2));
    assert_eq!(api_from_str("GL"), Err(()));
    assert_eq!(api_from_str(""), Err(()));
}

#[test]
fn profile_names() {
    assert_eq!(profile_from_str("core"), Ok(Profile::Core));
    assert_eq!(profile_from_str("compatibility"), Ok(Profile::Compatibility));
    assert_eq!(profile_from_str("es"), Err(()));
}

#[test]
fn get_attribute_takes_first_match() {
    let attrs = vec![(s("name"), s("a")), (s("value"), s("1")), (s("name"), s("b"))];
    assert_eq!(get_attribute(&attrs, "name"), Some(s("a")));
    assert_eq!(get_attribute(&attrs, "value"), Some(s("1")));
    assert_eq!(get_attribute(&attrs, "type"), None);
    assert_eq!(get_attribute(&[], "name"), None);
}

#[test]
fn split_pieces() {
    assert_eq!(split_char("gl|glcore|gles2", '|'), vec![s("gl"), s("glcore"), s("gles2")]);
    assert_eq!(split_char("gl", '|'), vec![s("gl")]);
    assert_eq!(split_char("", '|'), vec![s("")]);
    assert_eq!(split_char("a||b|", '|'), vec![s("a"), s(""), s("b"), s("")]);
}

#[test]
fn split_then_join_gives_back_the_string() {
    for text in ["gl|glcore|gles2", "", "|", "a||b|", "no separator"] {
        assert_eq!(split_char(text, '|').join("|"), text);
    }
}

#[test]
fn string_order() {
    assert!(str_le("1.0", "2.0"));
    assert!(str_le("2.0", "2.0"));
    assert!(!str_le("3.0", "2.0"));
    assert!(str_le("1.1", "1.10"));
    assert!(str_le("", "1.0"));
    assert!(!str_le("1.0", ""));
    // Versions compare as strings: "10.0" sorts before "2.0".
    assert!(str_le("10.0", "2.0"));
}

#[test]
fn string_order_matches_std() {
    let samples = ["", "1", "1.0", "1.1", "1.10", "2.0", "10.0", "a", "é", "z"];
    for a in samples {
        for b in samples {
            assert_eq!(str_le(a, b), a <= b, "{} <= {}", a, b);
        }
    }
}

fn map_of(entries: &[(&str, &[&str])]) -> AliasMap {
    let mut m = AliasMap::new();
    for (k, vs) in entries {
        for v in vs.iter() {
            m.push_value(s(k), s(v));
        }
    }
    m
}

#[test]
fn alias_map_push_and_get() {
    let mut m = AliasMap::new();
    assert_eq!(m.len(), 0);
    m.push_value(s("Clear"), s("ClearEXT"));
    m.push_value(s("Clear"), s("ClearARB"));
    m.push_value(s("Draw"), s("DrawEXT"));
    assert_eq!(m.len(), 2);
    assert_eq!(m.get(&s("Clear")), Some(&vec![s("ClearEXT"), s("ClearARB")]));
    assert_eq!(m.get(&s("Draw")), Some(&vec![s("DrawEXT")]));
    assert_eq!(m.get(&s("Flush")), None);
}

#[test]
fn merge_map_concatenates_per_key() {
    let mut a = map_of(&[("x", &["1", "2"]), ("y", &["3"])]);
    let b = map_of(&[("y", &["4"]), ("z", &["5"])]);
    merge_map(&mut a, b);
    assert_eq!(a.len(), 3);
    assert_eq!(a.get(&s("x")), Some(&vec![s("1"), s("2")]));
    assert_eq!(a.get(&s("y")), Some(&vec![s("3"), s("4")]));
    assert_eq!(a.get(&s("z")), Some(&vec![s("5")]));
}

#[test]
fn merge_map_with_empty() {
    let mut a = map_of(&[("x", &["1"])]);
    merge_map(&mut a, AliasMap::new());
    assert_eq!(a.len(), 1);
    assert_eq!(a.get(&s("x")), Some(&vec![s("1")]));
    let mut e = AliasMap::new();
    merge_map(&mut e, map_of(&[("x", &["1"])]));
    assert_eq!(e.get(&s("x")), Some(&vec![s("1")]));
}

#[test]
fn merge_map_is_associative() {
    let a = || map_of(&[("x", &["1"]), ("y", &["2"])]);
    let b = || map_of(&[("y", &["3"]), ("z", &["4"])]);
    let c = || map_of(&[("x", &["5"]), ("z", &["6"])]);
    let mut left = a();
    merge_map(&mut left, b());
    merge_map(&mut left, c());
    let mut bc = b();
    merge_map(&mut bc, c());
    let mut right = a();
    merge_map(&mut right, bc);
    for k in ["x", "y", "z", "w"] {
        assert_eq!(left.get(&s(k)), right.get(&s(k)));
    }
    assert_eq!(left.get(&s("z")), Some(&vec![s("4"), s("6")]));
}

#[test]
fn name_set_insert_remove() {
    let mut set = NameSet::new();
    assert!(!set.contains(&s("GL_ONE")));
    set.insert(s("GL_ONE"));
    set.insert(s("GL_ONE"));
    set.insert(s("GL_TWO"));
    assert!(set.contains(&s("GL_ONE")));
    set.remove(&s("GL_ONE"));
    assert!(!set.contains(&s("GL_ONE")));
    assert!(set.contains(&s("GL_TWO")));
}

#[test]
fn string_order_is_total_and_transitive() {
    let samples = ["", "1.0", "1.1", "2.0", "10.0"];
    for a in samples {
        assert!(str_le(a, a));
        for b in samples {
            assert!(str_le(a, b) || str_le(b, a));
            for c in samples {
                if str_le(a, b) && str_le(b, c) {
                    assert!(str_le(a, c));
                }
            }
        }
    }
}
