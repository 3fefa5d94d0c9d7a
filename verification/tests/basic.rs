use rclap_core::ast::{Field, GenericSpec, Spec, SubField};
use rclap_core::errors::ConfigError;
use rclap_core::utils::{get_field_type, is_native_type, to_pascal_case, to_type};
use rclap_core::value::{DocTable, DocValue};
use rclap_core::ConfigSpec;

fn get_field<'a>(fields: &'a [Spec], name: &str) -> Option<&'a Spec> {
    fields.iter().find(|f| f.name == name)
}

fn config_field<'a>(spec: &'a ConfigSpec, name: &str) -> Option<&'a Spec> {
    spec.fields.iter().find(|f| f.name == name)
}

fn as_field_spec(spec: &Spec) -> &Field {
    if let GenericSpec::FieldSpec(f) = &spec.variant {
        f
    } else {
        panic!("Not a FieldSpec variant");
    }
}

fn as_subtype_spec(spec: &Spec) -> &SubField {
    if let GenericSpec::SubtypeSpec(s) = &spec.variant {
        s
    } else {
        panic!("Not a SubtypeSpec variant");
    }
}

#[test]
fn test_simple_field_parsing() {
    let toml_content = r#"
port = { type = "int", default = "8080", doc = "Server port", env = "PORT" }
name = { type = "String", default = "test", long = "name", short = "n" }
"#;
    let config_spec = ConfigSpec::load_toml_config(toml_content).unwrap();

    assert_eq!(config_spec.fields.len(), 2);

    let port_field = config_field(&config_spec, "port").unwrap();

    assert_eq!(port_field.name, "port");
    assert_eq!(port_field.field_type, "i64");
    assert_eq!(port_field.doc, Some("Server port".to_string()));
    assert_eq!(port_field.id, "port");
    let port = as_field_spec(port_field);

    assert_eq!(port.default, Some("8080".to_string()));
    assert_eq!(port.env, Some("PORT".to_string()));
    assert_eq!(port.long_arg, None);
    assert_eq!(port.short_arg, None);

    let name_field = config_field(&config_spec, "name").unwrap();

    assert_eq!(name_field.name, "name");
    assert_eq!(name_field.field_type, "String");

    let name = as_field_spec(name_field);

    assert_eq!(name.default, Some("test".to_string()));
    assert_eq!(name.env, None);
    assert_eq!(name.long_arg, Some("name".to_string()));
    assert_eq!(name.short_arg, Some('n'));
}

#[test]
fn test_nested_field_parsing() {
    let toml_content = r#"
        [database]
        type = "DatabaseConfig"
        doc = "Database configuration"

        [database.host]
        default = "localhost"
        env = "DB_HOST"

        [database.port]
        type = "int"
        default = "5432"
        env = "DB_PORT"
        "#;

    let config_spec = ConfigSpec::load_toml_config(toml_content).unwrap();
    assert_eq!(config_spec.fields.len(), 1);

    let db_field = &config_spec.fields[0];
    assert_eq!(db_field.name, "database");
    assert_eq!(db_field.field_type, "DatabaseConfig");
    assert_eq!(db_field.id, "database");

    let fields = as_subtype_spec(db_field);
    assert_eq!(fields.0.len(), 2);

    let host_field = &fields.0[0];
    assert_eq!(host_field.name, "host");
    assert_eq!(host_field.field_type, "String");
    assert_eq!(host_field.id, "database.host");

    let host = as_field_spec(host_field);

    assert_eq!(host.default, Some("localhost".to_string()));
    assert_eq!(host.env, Some("DB_HOST".to_string()));
    assert_eq!(host.long_arg, None);
    assert_eq!(host.short_arg, None);

    let port_field = &fields.0[1];
    assert_eq!(port_field.name, "port");
    assert_eq!(port_field.field_type, "i64");
    assert_eq!(port_field.id, "database.port");

    let port = as_field_spec(port_field);
    assert_eq!(port.default, Some("5432".to_string()));
    assert_eq!(port.env, Some("DB_PORT".to_string()));
    assert_eq!(port.long_arg, None);
    assert_eq!(port.short_arg, None);
}

#[test]
fn test_deep_nested_structure() {
    let toml_content = r#"
        [app]
        type = "AppConfig"

        [app.server]
        type = "ServerConfig"

            [app.server.http]
            type = "HttpConfig"
            port = { type = "int", default = "8080" }
            host = {  default = "localhost" }

            [app.server.tls]
            type = "TlsConfig"
            cert = {  env = "TLS_CERT" }
        "#;
    let config_spec = ConfigSpec::load_toml_config(toml_content).unwrap();

    assert_eq!(config_spec.fields.len(), 1);

    let app_field = config_field(&config_spec, "app").unwrap();
    assert_eq!(app_field.name, "app");
    assert_eq!(app_field.field_type, "AppConfig");

    let fields = as_subtype_spec(app_field);
    let server_field = get_field(&fields.0, "server").unwrap();
    assert_eq!(server_field.name, "server");
    assert_eq!(server_field.field_type, "ServerConfig");
    assert_eq!(server_field.id, "app.server");

    let fields = as_subtype_spec(server_field);
    assert_eq!(fields.0.len(), 2);

    let http_field = &fields.0[0];
    assert_eq!(http_field.name, "http");
    assert_eq!(http_field.field_type, "HttpConfig");
    assert_eq!(http_field.id, "app.server.http");

    let fields = as_subtype_spec(http_field);
    assert_eq!(fields.0.len(), 2);

    let port_field = get_field(&fields.0, "port").unwrap();
    assert_eq!(port_field.name, "port");
    assert_eq!(port_field.id, "app.server.http.port");
}

#[test]
fn test_optional_fields() {
    let toml_content = r#"
        port = { type = "int", default = "8080", optional = true }
        host = { type = "String", env = "HOST" }
        debug = { type = "bool", optional = false }
        "#;
    let config_spec = ConfigSpec::load_toml_config(toml_content).unwrap();

    assert_eq!(config_spec.fields.len(), 3);

    let port_field = as_field_spec(config_field(&config_spec, "port").unwrap());
    assert!(port_field.optional);

    let host_field = as_field_spec(config_field(&config_spec, "host").unwrap());
    assert!(!host_field.optional);

    let debug_field = as_field_spec(config_field(&config_spec, "debug").unwrap());
    assert!(!debug_field.optional);
}

#[test]
fn test_short_arg_validation() {
    let toml_content = r#"
port = { type = "int", short = "p" }
host = { type = "String", short = "h" }
invalid_short = { type = "String", short = "invalid" }
empty_short = { type = "String", short = "" }
"#;
    let config_spec = ConfigSpec::load_toml_config(toml_content).unwrap();

    assert_eq!(config_spec.fields.len(), 4);

    let port_field = config_field(&config_spec, "port").unwrap();
    let port = as_field_spec(port_field);
    assert_eq!(port.short_arg, Some('p'));

    let host_field = config_field(&config_spec, "host").unwrap();
    let host = as_field_spec(host_field);
    assert_eq!(host.short_arg, Some('h'));

    let invalid_field = config_field(&config_spec, "invalid_short").unwrap();
    let invalid_short = as_field_spec(invalid_field);
    assert_eq!(invalid_short.short_arg, None);

    let empty_field = config_field(&config_spec, "empty_short").unwrap();
    let empty_short = as_field_spec(empty_field);
    assert_eq!(empty_short.short_arg, None);
}

#[test]
fn test_to_pascal_case() {
    assert_eq!(to_pascal_case("hello"), "Hello");
    assert_eq!(to_pascal_case("hello_world"), "Hello_world");
    assert_eq!(to_pascal_case(""), "");
    assert_eq!(to_pascal_case("a"), "A");
    assert_eq!(to_pascal_case("API"), "API");
    assert_eq!(to_pascal_case("snake_case_name"), "Snake_case_name");
}

#[test]
fn test_get_field_type() {
    let mut table: DocTable = Vec::new();

    table.push((
        "type".to_string(),
        DocValue::Str("CustomType".to_string()),
    ));
    assert_eq!(
        get_field_type(&table, false, "test".to_string()).unwrap().ty_name,
        "CustomType"
    );

    table.clear();
    assert_eq!(
        get_field_type(&table, true, "redis_config".to_string()).unwrap().ty_name,
        "Redis_configConfig"
    );

    assert_eq!(
        get_field_type(&table, false, "simple".to_string()).unwrap().ty_name,
        "String"
    );
}

#[test]
fn test_complex_mixed_structure() {
    let toml_content = r#"
                                            # Simple top-level fields
                                            app_name = { type = "string", default = "MyApp", env = "APP_NAME" }
                                            debug = { type = "bool", default = "false", short = "d" }

                                            # Nested configuration
                                            [database]
                                            type = "DatabaseConfig"
                                            doc = "Database settings"

                                            [database.primary]
                                            type = "ConnectionConfig"
                                            url = { type = "string", env = "DB_PRIMARY_URL", doc = "Primary DB URL" }
                                            pool_size = { type = "int", default = "10" }

                                            [database.replica]
                                            type = "ConnectionConfig"
                                            url = { type = "string", env = "DB_REPLICA_URL", optional = true }
                                            pool_size = { type = "int", default = "5" }

                                            # Another top-level section
                                            [logging]
                                            doc = "Logging configuration"
                                            level = { type = "string", default = "info", env = "LOG_LEVEL", short = "l" }
                                            file = { type = "string", env = "LOG_FILE", optional = true }
                                            "#;
    let config_spec = ConfigSpec::load_toml_config(toml_content).unwrap();

    assert_eq!(config_spec.fields.len(), 4);

    let app_name = config_field(&config_spec, "app_name").unwrap();
    assert_eq!(app_name.name, "app_name");
    assert_eq!(app_name.field_type, "String");

    let app_name = as_field_spec(app_name);
    assert_eq!(app_name.env, Some("APP_NAME".to_string()));

    let database = config_field(&config_spec, "database").unwrap();
    assert_eq!(database.name, "database");
    assert_eq!(database.field_type, "DatabaseConfig");

    let fields = as_subtype_spec(database);
    assert_eq!(fields.0.len(), 2);

    let primary = get_field(&fields.0, "primary").unwrap();
    assert_eq!(primary.name, "primary");
    assert_eq!(primary.id, "database.primary");

    let primary_subtype = as_subtype_spec(primary);
    let url_field = get_field(&primary_subtype.0, "url").unwrap();
    assert_eq!(url_field.id, "database.primary.url");

    let logging = config_field(&config_spec, "logging").unwrap();
    assert_eq!(logging.name, "logging");
    assert_eq!(logging.field_type, "LoggingConfig");

    let logging_subtype = as_subtype_spec(logging);
    let level_field = get_field(&logging_subtype.0, "level").unwrap();
    assert_eq!(level_field.name, "level");
    let level = as_field_spec(level_field);
    assert_eq!(level.short_arg, Some('l'));
}

#[test]
fn test_port_and_ip_document() {
    let toml_content = r#"
port = { type = "int", default = "8080", env = "PORT" }
ip = { default = "localhost" }
"#;
    let config_spec = ConfigSpec::load_toml_config(toml_content).unwrap();
    assert_eq!(config_spec.fields.len(), 2);

    let port = config_field(&config_spec, "port").unwrap();
    assert_eq!(port.id, "port");
    assert_eq!(port.field_type, "i64");
    let port_leaf = as_field_spec(port);
    assert_eq!(port_leaf.default, Some("8080".to_string()));
    assert_eq!(port_leaf.env, Some("PORT".to_string()));

    let ip = config_field(&config_spec, "ip").unwrap();
    assert_eq!(ip.id, "ip");
    assert_eq!(ip.field_type, "String");
    let ip_leaf = as_field_spec(ip);
    assert_eq!(ip_leaf.default, Some("localhost".to_string()));
    assert_eq!(ip_leaf.env, None);
}

#[test]
fn test_invalid_toml_rejected() {
    let invalid_toml = r#"
                                            invalid toml content
                                            port =
                                            "#;
    let result = ConfigSpec::load_toml_config(invalid_toml);
    match result {
        Err(e) => {
            assert!(e.describe().contains("Failed to parse TOML config"));
        }
        Ok(_) => panic!("Expected a parse error"),
    }
}

#[test]
fn test_resolution_is_deterministic() {
    let toml_content = r#"
port = { type = "int", default = "8080", env = "PORT" }

[database]
host = { default = "localhost" }
"#;
    let first = ConfigSpec::load_toml_config(toml_content).unwrap();
    let second = ConfigSpec::load_toml_config(toml_content).unwrap();
    assert_eq!(first, second);

    let g1 = rclap_core::codegen::generate_struct(&first, "MyConfig", true).unwrap();
    let g2 = rclap_core::codegen::generate_struct(&second, "MyConfig", true).unwrap();
    assert_eq!(g1, g2);
}

#[test]
fn test_type_beats_enum() {
    let toml_content = r#"
mode = { type = "String", enum = "Mode" }
"#;
    let config_spec = ConfigSpec::load_toml_config(toml_content).unwrap();
    let mode = config_field(&config_spec, "mode").unwrap();
    assert!(matches!(mode.variant, GenericSpec::FieldSpec(_)));
    assert_eq!(mode.field_type, "String");
}

#[test]
fn test_enum_beats_nesting() {
    let toml_content = r#"
[level]
enum = "LogLevel"
default = "info"

[level.extra]
note = { default = "x" }
"#;
    let config_spec = ConfigSpec::load_toml_config(toml_content).unwrap();
    let level = config_field(&config_spec, "level").unwrap();
    match &level.variant {
        GenericSpec::EnumSpec(e) => {
            assert_eq!(e.enum_name, "LogLevel");
            assert_eq!(e.default, Some("info".to_string()));
            assert!(e.variants.is_empty());
        }
        other => panic!("Expected an EnumSpec, got {:?}", other),
    }
    assert_eq!(level.field_type, "LogLevel");
}

#[test]
fn test_reserved_keys_produce_no_children() {
    let toml_content = r#"
x = { default = "x", env = "Y" }
"#;
    let config_spec = ConfigSpec::load_toml_config(toml_content).unwrap();
    assert_eq!(config_spec.fields.len(), 1);
    let x = config_field(&config_spec, "x").unwrap();
    assert!(matches!(x.variant, GenericSpec::FieldSpec(_)));
    assert_eq!(x.field_type, "String");
}

#[test]
fn test_plain_table_is_text_leaf_without_default() {
    let toml_content = r#"
simple = {}
"#;
    let config_spec = ConfigSpec::load_toml_config(toml_content).unwrap();
    let simple = config_field(&config_spec, "simple").unwrap();
    assert_eq!(simple.field_type, "String");
    let leaf = as_field_spec(simple);
    assert_eq!(leaf.default, None);
    assert_eq!(leaf.env, None);
}

#[test]
fn test_non_native_vector_element_is_fatal() {
    let toml_content = r#"
items = { type = "[widget]", default = [] }
"#;
    let result = ConfigSpec::load_toml_config(toml_content);
    match result {
        Err(ConfigError::UnsupportedVectorElement { id }) => assert_eq!(id, "items"),
        other => panic!("Expected an unsupported vector element error, got {:?}", other),
    }
}

#[test]
fn test_vector_type_with_spaces_resolves() {
    let toml_content = r#"
ports = { type = "[ int ]" }
"#;
    let config_spec = ConfigSpec::load_toml_config(toml_content).unwrap();
    let ports = config_field(&config_spec, "ports").unwrap();
    assert_eq!(ports.field_type, "Vec<i64>");
    assert!(matches!(ports.variant, GenericSpec::VecSpec(_)));
}

#[test]
fn test_case_insensitive_type_tags() {
    assert_eq!(to_type("INT"), "i64");
    assert_eq!(to_type("Float"), "f64");
    assert_eq!(to_type("path"), "std::path::PathBuf");
    assert_eq!(to_type("u16"), "u16");
    assert_eq!(to_type("somethingelse"), "somethingelse");
    assert!(is_native_type("STRING"));
    assert!(is_native_type("i64"));
    assert!(is_native_type("u16"));
    assert!(is_native_type("u128"));
    assert!(is_native_type("isize"));
    assert!(is_native_type("f32"));
    assert!(!is_native_type("widget"));
}

#[test]
fn test_sized_integer_types_are_native_leaves() {
    let toml_content = r#"
port = { type = "u16", default = "80" }
mask = { type = "u32" }
"#;
    let config_spec = ConfigSpec::load_toml_config(toml_content).unwrap();

    let port = config_field(&config_spec, "port").unwrap();
    assert_eq!(port.field_type, "u16");
    assert!(matches!(port.variant, GenericSpec::FieldSpec(_)));

    let mask = config_field(&config_spec, "mask").unwrap();
    assert_eq!(mask.field_type, "u32");
    assert!(matches!(mask.variant, GenericSpec::FieldSpec(_)));
}

#[test]
fn test_sized_integer_vector_resolves() {
    let toml_content = r#"
masks = { type = "[u32]" }
"#;
    let config_spec = ConfigSpec::load_toml_config(toml_content).unwrap();
    let masks = config_field(&config_spec, "masks").unwrap();
    assert_eq!(masks.field_type, "Vec<u32>");
    assert!(matches!(masks.variant, GenericSpec::VecSpec(_)));
}

#[test]
fn test_unsupported_file_format() {
    let result = ConfigSpec::from_file_content("config.yaml", "port: 8080");
    match result {
        Err(e) => assert!(e.describe().contains("Unsupported file format")),
        Ok(_) => panic!("Expected an error"),
    }

    assert!(ConfigSpec::from_file_content("dir/config.toml", "port = { type = \"int\" }").is_ok());
}

#[test]
fn test_skipped_top_level_entries() {
    let toml_content = r#"
bare = 5

[real]
port = { type = "int" }
"#;
    let config_spec = ConfigSpec::load_toml_config(toml_content).unwrap();
    assert_eq!(config_spec.fields.len(), 1);
    assert_eq!(config_spec.fields[0].name, "real");

    let generic = ConfigSpec::parse_document(toml_content).unwrap();
    let skipped = ConfigSpec::skipped_top_level(&generic);
    assert_eq!(skipped, vec!["bare".to_string()]);
}
