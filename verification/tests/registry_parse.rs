use gl_generator::api::{Api, Fallbacks, Profile};
use gl_generator::parse::{RegistryError, RegistryParser};
use gl_generator::registry::Registry;
use gl_generator::select::Filter;
use gl_generator::xml_events::{EventStream, XmlEvent};

const REGISTRY: &str = r#"<?xml version="1.0" encoding="UTF-8"?>
<registry>
    <comment>A small registry for tests</comment>
    <!-- a comment -->
    <types><type>typedef int <name>GLint</name>;</type></types>
    <groups><group name="Foo"><enum name="GL_ONE"/></group></groups>
    <enums namespace="GL">
        <enum value="0x0001" name="GL_ONE"/>
        <enum value="0x0002" name="GL_TWO" alias="GL_ONE_ALIAS"/>
        <unused start="0x0003"/>
        <enum value="0x0004" name="GL_FOUR" type="u"/>
        <enum value="0x0005" name="GL_EXT_FIVE"/>
    </enums>
    <commands namespace="GL">
        <command>
            <proto>void <name>glClear</name></proto>
            <param><ptype>GLbitfield</ptype> <name>mask</name></param>
            <glx type="render" opcode="127"/>
        </command>
        <command>
            <proto><ptype>GLint</ptype> <name>glGetFoo</name></proto>
            <param>const <ptype>GLchar</ptype> *<name>name</name></param>
            <vecequiv name="glGetFoov"/>
        </command>
        <command>
            <proto>void <name>glClearEXT</name></proto>
            <param><ptype>GLbitfield</ptype> <name>mask</name></param>
            <alias name="glClear"/>
        </command>
    </commands>
    <feature api="gl" name="GL_VERSION_1_0" number="1.0">
        <require>
            <enum name="GL_ONE"/>
            <command name="glClear"/>
        </require>
    </feature>
    <feature api="gl" name="GL_VERSION_2_0" number="2.0">
        <require>
            <type name="GLint"/>
            <enum name="GL_TWO"/>
            <command name="glGetFoo"/>
        </require>
        <remove profile="core">
            <enum name="GL_ONE"/>
        </remove>
    </feature>
    <feature api="gl" name="GL_VERSION_3_0" number="3.0">
        <require><enum name="GL_FOUR"/></require>
    </feature>
    <feature api="gles2" name="GL_ES_VERSION_2_0" number="2.0">
        <require><enum name="GL_FOUR"/></require>
    </feature>
    <extensions>
        <extension name="GL_EXT_five" supported="gl|glcore">
            <require>
                <enum name="GL_EXT_FIVE"/>
                <command name="glClearEXT"/>
            </require>
        </extension>
        <extension name="GL_EXT_es_only" supported="gles2">
            <require><enum name="GL_FOUR"/></require>
        </extension>
    </extensions>
</registry>
"#;

fn filter(version: &str, profile: Profile, extensions: &[&str], fallbacks: Fallbacks) -> Filter {
    Filter {
        fallbacks,
        extensions: extensions.iter().map(|s| s.to_string()).collect(),
        profile,
        version: version.to_string(),
    }
}

fn parse(src: &str, api: Api, f: Filter) -> Result<Registry, RegistryError> {
    RegistryParser::try_parse(src.as_bytes(), api, f)
}

fn enum_idents(r: &Registry) -> Vec<String> {
    r.enums.iter().map(|e| e.ident.clone()).collect()
}

fn cmd_idents(r: &Registry) -> Vec<String> {
    r.cmds.iter().map(|c| c.proto.ident.clone()).collect()
}

#[test]
fn core_profile_with_extension() {
    let r = parse(REGISTRY, Api::Gl, filter("2.0", Profile::Core, &["GL_EXT_five"], Fallbacks::All)).unwrap();
    assert_eq!(r.api, Api::Gl);
    assert_eq!(enum_idents(&r), vec!["TWO", "EXT_FIVE"]);
    assert_eq!(cmd_idents(&r), vec!["Clear", "GetFoo", "ClearEXT"]);
    assert_eq!(r.enums[0].value, "0x0002");
    assert_eq!(r.enums[0].alias.as_deref(), Some("GL_ONE_ALIAS"));
    assert_eq!(r.enums[0].ty, None);
    assert_eq!(r.aliases.len(), 1);
    assert_eq!(r.aliases.get(&"Clear".to_string()), Some(&vec!["ClearEXT".to_string()]));
}

#[test]
fn compatibility_profile_keeps_removed() {
    let r = parse(REGISTRY, Api::Gl, filter("2.0", Profile::Compatibility, &["GL_EXT_five"], Fallbacks::All)).unwrap();
    assert_eq!(enum_idents(&r), vec!["ONE", "TWO", "EXT_FIVE"]);
}

#[test]
fn earlier_version_without_extensions() {
    let r = parse(REGISTRY, Api::Gl, filter("1.0", Profile::Core, &[], Fallbacks::All)).unwrap();
    assert_eq!(enum_idents(&r), vec!["ONE"]);
    assert_eq!(cmd_idents(&r), vec!["Clear"]);
}

#[test]
fn later_version_adds_features() {
    let r = parse(REGISTRY, Api::Gl, filter("3.0", Profile::Core, &[], Fallbacks::All)).unwrap();
    assert_eq!(enum_idents(&r), vec!["TWO", "FOUR"]);
}

#[test]
fn other_api_features() {
    let r = parse(REGISTRY, Api::Gles2, filter("2.0", Profile::Core, &["GL_EXT_es_only"], Fallbacks::All)).unwrap();
    assert_eq!(r.api, Api::Gles2);
    assert_eq!(enum_idents(&r), vec!["FOUR"]);
    assert!(r.cmds.is_empty());
}

#[test]
fn fallbacks_disabled_drops_aliases() {
    let r = parse(REGISTRY, Api::Gl, filter("2.0", Profile::Core, &["GL_EXT_five"], Fallbacks::Disabled)).unwrap();
    assert_eq!(r.aliases.len(), 0);
    assert_eq!(r.cmds.len(), 3);
}

#[test]
fn command_details() {
    let r = parse(REGISTRY, Api::Gl, filter("2.0", Profile::Core, &["GL_EXT_five"], Fallbacks::All)).unwrap();
    let clear = &r.cmds[0];
    assert_eq!(clear.proto.ty, "void ");
    assert_eq!(clear.params.len(), 1);
    assert_eq!(clear.params[0].ident, "mask");
    assert_eq!(clear.params[0].ty, "GLbitfield");
    let glx = clear.glx.as_ref().unwrap();
    assert_eq!(glx.ty, "render");
    assert_eq!(glx.opcode, "127");
    assert_eq!(glx.name, None);
    let get = &r.cmds[1];
    assert_eq!(get.proto.ty, "GLint");
    assert_eq!(get.params[0].ty, "const GLchar *");
    assert_eq!(get.params[0].ident, "name");
    assert_eq!(get.vecequiv, None);
    let ext = &r.cmds[2];
    assert_eq!(ext.alias.as_deref(), Some("Clear"));
}

#[test]
fn missing_version_is_an_error() {
    let r = parse(REGISTRY, Api::Gl, filter("4.5", Profile::Core, &[], Fallbacks::All));
    assert!(matches!(r, Err(RegistryError::VersionNotFound(v)) if v == "4.5"));
}

#[test]
fn unsupported_extension_is_an_error() {
    let r = parse(REGISTRY, Api::Gl, filter("2.0", Profile::Core, &["GL_EXT_es_only"], Fallbacks::All));
    assert!(matches!(r, Err(RegistryError::UnsupportedExtension { extension, api: Api::Gl }) if extension == "GL_EXT_es_only"));
}

#[test]
fn unknown_element_is_an_error() {
    let r = parse("<registry><bogus/></registry>", Api::Gl, filter("1.0", Profile::Core, &[], Fallbacks::All));
    assert!(matches!(r, Err(RegistryError::Unexpected(XmlEvent::StartElement { name, .. })) if name == "bogus"));
}

#[test]
fn wrong_root_is_an_error() {
    let r = parse("<notregistry/>", Api::Gl, filter("1.0", Profile::Core, &[], Fallbacks::All));
    assert!(matches!(r, Err(RegistryError::Unexpected(XmlEvent::StartElement { name, .. })) if name == "notregistry"));
}

#[test]
fn malformed_xml_is_an_error() {
    let r = parse("<registry><enums></registry>", Api::Gl, filter("1.0", Profile::Core, &[], Fallbacks::All));
    assert!(matches!(r, Err(RegistryError::Xml(_))));
}

#[test]
fn missing_enum_name_is_an_error() {
    let r = parse(
        r#"<registry><enums><enum value="1"/></enums></registry>"#,
        Api::Gl,
        filter("1.0", Profile::Core, &[], Fallbacks::All),
    );
    assert!(matches!(r, Err(RegistryError::MissingAttribute(a)) if a == "name"));
}

#[test]
fn unknown_feature_api_is_an_error() {
    let r = parse(
        r#"<registry><feature api="foo" name="X" number="1.0"></feature></registry>"#,
        Api::Gl,
        filter("1.0", Profile::Core, &[], Fallbacks::All),
    );
    assert!(matches!(r, Err(RegistryError::UnknownApi(a)) if a == "foo"));
}

#[test]
fn unknown_profile_is_an_error() {
    let r = parse(
        r#"<registry><feature api="gl" name="X" number="1.0"><remove profile="weird"></remove></feature></registry>"#,
        Api::Gl,
        filter("1.0", Profile::Core, &[], Fallbacks::All),
    );
    assert!(matches!(r, Err(RegistryError::UnknownProfile(p)) if p == "weird"));
}

#[test]
fn unknown_supported_api_is_an_error() {
    let r = parse(
        r#"<registry><extensions><extension name="E" supported="gl|nope"></extension></extensions></registry>"#,
        Api::Gl,
        filter("1.0", Profile::Core, &[], Fallbacks::All),
    );
    assert!(matches!(r, Err(RegistryError::UnknownApi(a)) if a == "nope"));
}

#[test]
fn events_by_hand() {
    let start = |n: &str| XmlEvent::StartElement { name: n.to_string(), attributes: vec![] };
    let start_with = |n: &str, attrs: &[(&str, &str)]| XmlEvent::StartElement {
        name: n.to_string(),
        attributes: attrs.iter().map(|(k, v)| (k.to_string(), v.to_string())).collect(),
    };
    let end = |n: &str| XmlEvent::EndElement { name: n.to_string() };
    let events = vec![
        XmlEvent::StartDocument,
        start("registry"),
        XmlEvent::Whitespace("\n".to_string()),
        XmlEvent::Comment("ignored".to_string()),
        start("enums"),
        start_with("enum", &[("name", "GL_A"), ("value", "1")]),
        end("enum"),
        end("enums"),
        start_with("feature", &[("api", "gl"), ("name", "GL_VERSION_1_0"), ("number", "1.0")]),
        start("require"),
        start_with("enum", &[("name", "GL_A")]),
        end("enum"),
        end("require"),
        end("feature"),
        end("registry"),
        XmlEvent::EndDocument,
    ];
    let r = RegistryParser::parse_events(
        EventStream { events },
        Api::Gl,
        filter("1.0", Profile::Core, &[], Fallbacks::All),
    );
    assert_eq!(enum_idents(&r), vec!["A"]);
    assert_eq!(r.enums[0].value, "1");
}

#[test]
fn events_end_too_early() {
    let events = vec![
        XmlEvent::StartDocument,
        XmlEvent::StartElement { name: "registry".to_string(), attributes: vec![] },
        XmlEvent::EndDocument,
    ];
    let r = RegistryParser::try_parse_events(EventStream { events }, Api::Gl, &filter("1.0", Profile::Core, &[], Fallbacks::All));
    assert!(matches!(r, Err(RegistryError::EndOfDocument)));
}

fn without(src: &str, start: &str, end: &str) -> String {
    let a = src.find(start).unwrap();
    let b = src[a..].find(end).unwrap() + a + end.len();
    format!("{}{}", &src[..a], &src[b..])
}

fn same_registry(a: &Registry, b: &Registry) -> bool {
    enum_idents(a) == enum_idents(b) && cmd_idents(a) == cmd_idents(b) && a.aliases.len() == b.aliases.len()
}

#[test]
fn features_that_do_not_count_change_nothing() {
    let f = || filter("2.0", Profile::Core, &["GL_EXT_five"], Fallbacks::All);
    let full = parse(REGISTRY, Api::Gl, f()).unwrap();
    let no_later = without(REGISTRY, "<feature api=\"gl\" name=\"GL_VERSION_3_0\"", "</feature>");
    let no_es = without(&no_later, "<feature api=\"gles2\"", "</feature>");
    let trimmed = parse(&no_es, Api::Gl, f()).unwrap();
    assert!(same_registry(&full, &trimmed));
}

#[test]
fn extensions_not_requested_change_nothing() {
    let f = || filter("2.0", Profile::Core, &["GL_EXT_five"], Fallbacks::All);
    let full = parse(REGISTRY, Api::Gl, f()).unwrap();
    let trimmed_src = without(REGISTRY, "<extension name=\"GL_EXT_es_only\"", "</extension>");
    let trimmed = parse(&trimmed_src, Api::Gl, f()).unwrap();
    assert!(same_registry(&full, &trimmed));
}

#[test]
fn requested_extension_only_adds() {
    let plain = parse(REGISTRY, Api::Gl, filter("2.0", Profile::Core, &[], Fallbacks::All)).unwrap();
    let with = parse(REGISTRY, Api::Gl, filter("2.0", Profile::Core, &["GL_EXT_five"], Fallbacks::All)).unwrap();
    for e in enum_idents(&plain) {
        assert!(enum_idents(&with).contains(&e));
    }
    for c in cmd_idents(&plain) {
        assert!(cmd_idents(&with).contains(&c));
    }
    assert!(enum_idents(&with).contains(&"EXT_FIVE".to_string()));
    assert!(cmd_idents(&with).contains(&"ClearEXT".to_string()));
}

#[test]
fn comments_and_whitespace_are_passed_over() {
    let compact = r#"<registry><enums><enum name="GL_A" value="1"/></enums><feature api="gl" name="V" number="1.0"><require><enum name="GL_A"/></require></feature></registry>"#;
    let spaced = r#"<registry>
        <!-- note -->
        <enums>
            <!-- another -->
            <enum name="GL_A" value="1"/>
        </enums>
        <feature api="gl" name="V" number="1.0">
            <require> <enum name="GL_A"/> </require>
        </feature>
    </registry>"#;
    let f = || filter("1.0", Profile::Core, &[], Fallbacks::All);
    let a = parse(compact, Api::Gl, f()).unwrap();
    let b = parse(spaced, Api::Gl, f()).unwrap();
    assert!(same_registry(&a, &b));
    assert_eq!(enum_idents(&a), vec!["A"]);
}

#[test]
fn repeated_or_reordered_extensions_change_nothing() {
    let once = parse(REGISTRY, Api::Gl, filter("2.0", Profile::Core, &["GL_EXT_five"], Fallbacks::All)).unwrap();
    let twice = parse(
        REGISTRY,
        Api::Gl,
        filter("2.0", Profile::Core, &["GL_EXT_unknown", "GL_EXT_five", "GL_EXT_five"], Fallbacks::All),
    )
    .unwrap();
    assert!(same_registry(&once, &twice));
}

#[test]
fn parse_of_an_accepted_document() {
    let f = filter("2.0", Profile::Core, &["GL_EXT_five"], Fallbacks::All);
    assert!(RegistryParser::check(REGISTRY.as_bytes(), Api::Gl, &f).is_ok());
    let r = RegistryParser::parse(REGISTRY.as_bytes(), Api::Gl, f);
    assert_eq!(enum_idents(&r), vec!["TWO", "EXT_FIVE"]);
    assert_eq!(cmd_idents(&r), vec!["Clear", "GetFoo", "ClearEXT"]);
}

#[test]
fn check_reports_what_parse_would_not_accept() {
    let f = filter("4.5", Profile::Core, &[], Fallbacks::All);
    assert!(matches!(
        RegistryParser::check(REGISTRY.as_bytes(), Api::Gl, &f),
        Err(RegistryError::VersionNotFound(v)) if v == "4.5"
    ));
    let g = filter("1.0", Profile::Core, &[], Fallbacks::All);
    assert!(matches!(
        RegistryParser::check(b"<registry><bogus/></registry>", Api::Gl, &g),
        Err(RegistryError::Unexpected(_))
    ));
}

#[test]
fn type_elements_in_blocks_change_nothing() {
    let plain = r#"<registry><enums><enum name="GL_A" value="1"/><enum name="GL_B" value="2"/></enums><feature api="gl" name="V" number="1.0"><require><enum name="GL_A"/><enum name="GL_B"/></require><remove profile="core"><enum name="GL_B"/></remove></feature></registry>"#;
    let typed = r#"<registry><enums><enum name="GL_A" value="1"/><enum name="GL_B" value="2"/></enums><feature api="gl" name="V" number="1.0"><require><type name="GLint"/><enum name="GL_A"/><type name="GLuint" comment="x"/><enum name="GL_B"/><type/></require><remove profile="core"><type name="GLint"/><enum name="GL_B"/><type/></remove></feature></registry>"#;
    let f = || filter("1.0", Profile::Core, &[], Fallbacks::All);
    let a = parse(plain, Api::Gl, f()).unwrap();
    let b = parse(typed, Api::Gl, f()).unwrap();
    assert!(same_registry(&a, &b));
    assert_eq!(enum_idents(&b), vec!["A"]);
}

#[test]
fn remove_for_other_profile_changes_nothing() {
    let without_remove = without(REGISTRY, "<remove profile=\"core\">", "</remove>");
    let f = || filter("2.0", Profile::Compatibility, &[], Fallbacks::All);
    let a = parse(REGISTRY, Api::Gl, f()).unwrap();
    let b = parse(&without_remove, Api::Gl, f()).unwrap();
    assert!(same_registry(&a, &b));
    assert_eq!(enum_idents(&a), vec!["ONE", "TWO"]);
}

#[test]
fn more_extensions_only_add() {
    let fewer = parse(REGISTRY, Api::Gl, filter("2.0", Profile::Core, &["GL_EXT_unknown"], Fallbacks::All)).unwrap();
    let more =
        parse(REGISTRY, Api::Gl, filter("2.0", Profile::Core, &["GL_EXT_unknown", "GL_EXT_five"], Fallbacks::All))
            .unwrap();
    for e in enum_idents(&fewer) {
        assert!(enum_idents(&more).contains(&e));
    }
    for c in cmd_idents(&fewer) {
        assert!(cmd_idents(&more).contains(&c));
    }
    assert_eq!(fewer.aliases.len(), more.aliases.len());
}

#[test]
fn type_elements_between_feature_blocks_change_nothing() {
    let plain = r#"<registry><enums><enum name="GL_A" value="1"/></enums><feature api="gl" name="V" number="1.0"><require><enum name="GL_A"/></require></feature></registry>"#;
    let typed = r#"<registry><enums><enum name="GL_A" value="1"/></enums><feature api="gl" name="V" number="1.0"><type name="GLint"/><require><type/><enum name="GL_A"/></require><type name="GLuint"/></feature></registry>"#;
    let f = || filter("1.0", Profile::Core, &[], Fallbacks::All);
    let a = parse(plain, Api::Gl, f()).unwrap();
    let b = parse(typed, Api::Gl, f()).unwrap();
    assert!(same_registry(&a, &b));
    assert_eq!(enum_idents(&b), vec!["A"]);
}

#[test]
fn remove_block_for_other_profile_put_into_a_feature_changes_nothing() {
    let plain = r#"<registry><enums><enum name="GL_A" value="1"/><enum name="GL_B" value="2"/></enums><feature api="gl" name="V" number="1.0"><require><enum name="GL_A"/><enum name="GL_B"/></require></feature></registry>"#;
    let with_remove = r#"<registry><enums><enum name="GL_A" value="1"/><enum name="GL_B" value="2"/></enums><feature api="gl" name="V" number="1.0"><remove profile="compatibility"><enum name="GL_B"/></remove><require><enum name="GL_A"/><enum name="GL_B"/></require><remove profile="compatibility"><enum name="GL_A"/></remove></feature></registry>"#;
    let f = || filter("1.0", Profile::Core, &[], Fallbacks::All);
    let a = parse(plain, Api::Gl, f()).unwrap();
    let b = parse(with_remove, Api::Gl, f()).unwrap();
    assert!(same_registry(&a, &b));
    assert_eq!(enum_idents(&b), vec!["A", "B"]);
    let c = parse(with_remove, Api::Gl, filter("1.0", Profile::Compatibility, &[], Fallbacks::All)).unwrap();
    assert!(enum_idents(&c).is_empty());
}
