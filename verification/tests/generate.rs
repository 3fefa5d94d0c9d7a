use rclap_core::ast::{EnumField, GenericSpec, Spec};
use rclap_core::codegen::{
    collect_subtypes, field_to_decl, generate_enum, generate_single_struct, generate_struct,
    render_decl, render_field, ArgAttr, Decl,
};
use rclap_core::errors::ConfigError;
use rclap_core::ConfigSpec;

fn load(toml_content: &str) -> ConfigSpec {
    ConfigSpec::load_toml_config(toml_content).unwrap()
}

fn field<'a>(spec: &'a ConfigSpec, name: &str) -> &'a Spec {
    spec.fields.iter().find(|f| f.name == name).unwrap()
}

#[test]
fn test_leaf_attributes_in_order() {
    let spec = load(
        r#"
port = { type = "int", default = "8080", doc = "Server port", env = "PORT", short = "p" }
"#,
    );
    let fd = field_to_decl(field(&spec, "port")).unwrap();
    assert!(!fd.flatten);
    assert_eq!(fd.field_type, "i64");
    assert_eq!(fd.doc, Some("Server port".to_string()));
    assert_eq!(
        fd.args,
        vec![
            ArgAttr::Id("port".to_string()),
            ArgAttr::Help("Server port".to_string()),
            ArgAttr::DefaultValueTyped("8080".to_string()),
            ArgAttr::Env("PORT".to_string()),
            ArgAttr::Long("port".to_string()),
            ArgAttr::Short('p'),
        ]
    );
}

#[test]
fn test_string_default_is_quoted() {
    let spec = load(
        r#"
ip = { default = "localhost" }
"#,
    );
    let fd = field_to_decl(field(&spec, "ip")).unwrap();
    assert_eq!(
        fd.args,
        vec![
            ArgAttr::Id("ip".to_string()),
            ArgAttr::DefaultValue("localhost".to_string()),
            ArgAttr::Long("ip".to_string()),
        ]
    );
    let text = render_field(&fd);
    assert_eq!(
        text,
        "    #[arg(id = \"ip\", default_value = \"localhost\", long = \"ip\")]\n    pub ip: String,\n"
    );
}

#[test]
fn test_optional_field_wraps_type() {
    let spec = load(
        r#"
port = { type = "int", default = "9080", optional = true }
"#,
    );
    let fd = field_to_decl(field(&spec, "port")).unwrap();
    assert!(fd.optional);
    let text = render_field(&fd);
    assert!(text.contains("pub port: Option<i64>,"));
    // an optional default stays a plain string attribute
    assert!(text.contains("default_value = \"9080\""));
}

#[test]
fn test_vector_int_defaults_decode_in_order() {
    let spec = load(
        r#"
ports = { type = "[int]", default = [1, 2, 3], env = "PORTS" }
"#,
    );
    let fd = field_to_decl(field(&spec, "ports")).unwrap();
    assert_eq!(
        fd.args,
        vec![
            ArgAttr::Id("ports".to_string()),
            ArgAttr::DefaultValuesTyped("[1, 2, 3]".to_string()),
            ArgAttr::Env("PORTS".to_string()),
            ArgAttr::ValueDelimiter(','),
            ArgAttr::Long("ports".to_string()),
        ]
    );
}

#[test]
fn test_vector_negative_default() {
    let spec = load(
        r#"
offsets = { type = "[int]", default = [-5, -9223372036854775808] }
"#,
    );
    let fd = field_to_decl(field(&spec, "offsets")).unwrap();
    assert_eq!(
        fd.args[1],
        ArgAttr::DefaultValuesTyped("[-5, -9223372036854775808]".to_string())
    );
}

#[test]
fn test_vector_string_defaults_become_owned_strings() {
    let spec = load(
        r#"
names = { type = "[string]", default = ["a", "b"] }
"#,
    );
    let fd = field_to_decl(field(&spec, "names")).unwrap();
    assert_eq!(
        fd.args[1],
        ArgAttr::DefaultValuesTyped("vec![\"a\".to_string(), \"b\".to_string()]".to_string())
    );
}

#[test]
fn test_vector_mixed_default_is_fatal() {
    let spec = load(
        r#"
ports = { type = "[int]", default = [1, "two", 3] }
"#,
    );
    let err = field_to_decl(field(&spec, "ports")).unwrap_err();
    match err {
        ConfigError::MalformedDefault { id } => assert_eq!(id, "ports"),
        other => panic!("Expected a malformed default, got {:?}", other),
    }
}

#[test]
fn test_malformed_int_default_is_fatal() {
    let spec = load(
        r#"
port = { type = "int", default = "eighty" }
"#,
    );
    let err = field_to_decl(field(&spec, "port")).unwrap_err();
    match err {
        ConfigError::MalformedDefault { id } => assert_eq!(id, "port"),
        other => panic!("Expected a malformed default, got {:?}", other),
    }
}

#[test]
fn test_float_and_bool_defaults_accepted() {
    let spec = load(
        r#"
ratio = { type = "float", default = "90.8" }
debug = { type = "bool", default = "false" }
"#,
    );
    let ratio = field_to_decl(field(&spec, "ratio")).unwrap();
    assert_eq!(ratio.args[1], ArgAttr::DefaultValueTyped("90.8".to_string()));
    let debug = field_to_decl(field(&spec, "debug")).unwrap();
    assert_eq!(debug.args[1], ArgAttr::DefaultValueTyped("false".to_string()));
}

#[test]
fn test_char_default_takes_first_character() {
    let spec = load(
        r#"
sep = { type = "char", default = "abc" }
"#,
    );
    let fd = field_to_decl(field(&spec, "sep")).unwrap();
    assert_eq!(fd.args[1], ArgAttr::DefaultValueTyped("'a'".to_string()));
}

#[test]
fn test_nested_field_is_flattened() {
    let spec = load(
        r#"
[redis]
url = { default = "redis://localhost:6379" }
pool_size = { type = "int", default = "10" }
"#,
    );
    let fd = field_to_decl(field(&spec, "redis")).unwrap();
    assert!(fd.flatten);
    assert!(fd.args.is_empty());
    assert_eq!(fd.field_type, "RedisConfig");
    let text = render_field(&fd);
    assert!(text.contains("#[command(flatten)]"));
    assert!(text.contains("pub redis: RedisConfig,"));
}

#[test]
fn test_enum_field_attributes() {
    let spec = load(
        r#"
level = { enum = "LogLevel", default = "Info", env = "LOG_LEVEL" }
"#,
    );
    let fd = field_to_decl(field(&spec, "level")).unwrap();
    assert_eq!(
        fd.args,
        vec![
            ArgAttr::Id("level".to_string()),
            ArgAttr::ValueEnum,
            ArgAttr::DefaultValueTyped("LogLevel::Info".to_string()),
            ArgAttr::Env("LOG_LEVEL".to_string()),
            ArgAttr::Long("level".to_string()),
        ]
    );
}

#[test]
fn test_collect_subtypes_pre_order() {
    let spec = load(
        r#"
[app]
[app.server]
port = { type = "int" }
[app.db]
url = { default = "x" }
other = { default = "y" }
"#,
    );
    let mut items: Vec<Decl> = Vec::new();
    collect_subtypes(&spec.fields, &mut items).unwrap();
    let names: Vec<String> = items
        .iter()
        .map(|d| match d {
            Decl::Struct(s) => s.name.clone(),
            Decl::Enum(e) => e.name.clone(),
        })
        .collect();
    assert_eq!(
        names,
        vec![
            "AppConfig".to_string(),
            "DbConfig".to_string(),
            "ServerConfig".to_string(),
        ]
    );
}

#[test]
fn test_enum_declaration_emitted_once() {
    let enum_spec = EnumField {
        env: None,
        long_arg: None,
        short_arg: None,
        optional: false,
        enum_name: "Mode".to_string(),
        variants: vec!["Fast".to_string(), "Slow".to_string()],
        default: Some("Fast".to_string()),
    };
    let field = Spec::new(
        "mode".to_string(),
        "mode".to_string(),
        "Mode".to_string(),
        None,
        GenericSpec::EnumSpec(enum_spec),
    );
    let mut items: Vec<Decl> = Vec::new();
    collect_subtypes(&vec![field], &mut items).unwrap();
    assert_eq!(items.len(), 1);
    match &items[0] {
        Decl::Enum(e) => {
            assert_eq!(e.name, "Mode");
            assert_eq!(e.variants, vec!["Fast".to_string(), "Slow".to_string()]);
            let text = render_decl(&items[0]);
            assert!(text.contains("#[clap(rename_all = \"verbatim\")]"));
            assert!(text.contains("pub enum Mode {\n    Fast,\n    Slow,\n}"));
        }
        other => panic!("Expected an enum declaration, got {:?}", other),
    }
}

#[test]
fn test_enum_without_variants_emits_no_declaration() {
    let spec = load(
        r#"
level = { enum = "ExternalLevel" }
"#,
    );
    let mut items: Vec<Decl> = Vec::new();
    collect_subtypes(&spec.fields, &mut items).unwrap();
    assert!(items.is_empty());
}

#[test]
fn test_generate_enum_keeps_variants_verbatim() {
    let enum_spec = EnumField {
        env: None,
        long_arg: None,
        short_arg: None,
        optional: false,
        enum_name: "MyEnum".to_string(),
        variants: vec!["A".to_string(), "lowerCase".to_string()],
        default: None,
    };
    let decl = generate_enum("MyEnum", &enum_spec);
    assert_eq!(decl.name, "MyEnum");
    assert_eq!(decl.variants, vec!["A".to_string(), "lowerCase".to_string()]);
}

#[test]
fn test_generate_single_struct_names_and_fields() {
    let spec = load(
        r#"
port = { type = "int", default = "8080" }
ip = { default = "localhost" }
"#,
    );
    let sd = generate_single_struct("MyConfig", &spec.fields).unwrap();
    assert_eq!(sd.name, "MyConfig");
    assert_eq!(sd.fields.len(), 2);
    assert_eq!(sd.fields[0].name, "ip");
    assert_eq!(sd.fields[1].name, "port");
}

#[test]
fn test_generate_struct_module_text() {
    let spec = load(
        r#"
port = { type = "int", default = "8080", env = "PORT" }
"#,
    );
    let text = generate_struct(&spec, "MyConfig", true).unwrap();
    assert!(text.starts_with("pub mod myconfig {\n"));
    assert!(text.contains("#[derive(Debug, Clone, PartialEq, Parser)]\npub struct MyConfig {"));
    assert!(text.contains(
        "#[arg(id = \"port\", default_value_t = 8080, env = \"PORT\", long = \"port\")]"
    ));
    assert!(text.contains("pub port: i64,"));
    assert!(text.contains("pub fn parse_from<I, T>(itr: I) -> Self"));
    assert!(text.contains("T: Into<std::ffi::OsString> + Clone,"));
    assert!(text.contains("pub use myconfig::MyConfig;"));
    assert!(text.ends_with("pub use myconfig::*;\n"));

    let without_export = generate_struct(&spec, "MyConfig", false).unwrap();
    assert!(!without_export.ends_with("pub use myconfig::*;\n"));
}

#[test]
fn test_doc_string_is_escaped() {
    let spec = load(
        r#"
note = { doc = 'say "hi" \ bye' }
"#,
    );
    let fd = field_to_decl(field(&spec, "note")).unwrap();
    let text = render_field(&fd);
    assert!(text.contains("#[doc = \"say \\\"hi\\\" \\\\ bye\"]"));
}

#[test]
fn test_rust_style_numeric_defaults_accepted() {
    let spec = load(
        r#"
big = { type = "int", default = "1_000" }
rate = { type = "float", default = "1e5" }
tiny = { type = "float", default = "-2.5e-3" }
trailing = { type = "float", default = "1." }
"#,
    );
    let big = field_to_decl(field(&spec, "big")).unwrap();
    assert_eq!(big.args[1], ArgAttr::DefaultValueTyped("1_000".to_string()));
    let rate = field_to_decl(field(&spec, "rate")).unwrap();
    assert_eq!(rate.args[1], ArgAttr::DefaultValueTyped("1e5".to_string()));
    let tiny = field_to_decl(field(&spec, "tiny")).unwrap();
    assert_eq!(tiny.args[1], ArgAttr::DefaultValueTyped("-2.5e-3".to_string()));
    let trailing = field_to_decl(field(&spec, "trailing")).unwrap();
    assert_eq!(trailing.args[1], ArgAttr::DefaultValueTyped("1.".to_string()));
}

#[test]
fn test_float_vector_defaults_stay_float_literals() {
    let spec = load(
        r#"
ratios = { type = "[float]", default = [1.5, 2.0, -3.0] }
"#,
    );
    let fd = field_to_decl(field(&spec, "ratios")).unwrap();
    assert_eq!(
        fd.args[1],
        ArgAttr::DefaultValuesTyped("[1.5, 2.0, -3.0]".to_string())
    );
}

#[test]
fn test_sized_integer_vector_defaults() {
    let spec = load(
        r#"
ports = { type = "[u16]", default = [80, 8080] }
"#,
    );
    let fd = field_to_decl(field(&spec, "ports")).unwrap();
    assert_eq!(fd.field_type, "Vec<u16>");
    assert_eq!(fd.args[1], ArgAttr::DefaultValuesTyped("[80, 8080]".to_string()));
}
