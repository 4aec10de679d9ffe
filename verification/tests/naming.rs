use nanostores::{field_key, rename_field, to_camel_case, to_pascal_case};

#[test]
fn camel_case_capitalizes_every_part_but_the_first() {
    assert_eq!(to_camel_case("display_name"), "displayName");
    assert_eq!(to_camel_case("name"), "name");
    assert_eq!(to_camel_case("a__b"), "aB");
    assert_eq!(to_camel_case("_a"), "A");
    assert_eq!(to_camel_case(""), "");
}

#[test]
fn pascal_case_capitalizes_every_part() {
    assert_eq!(to_pascal_case("log_level"), "LogLevel");
    assert_eq!(to_pascal_case("a__b_"), "AB");
    assert_eq!(to_pascal_case("ärger_ß"), "ÄrgerSS");
    assert_eq!(to_pascal_case(""), "");
}

#[test]
fn rename_field_follows_the_rename_all_rule() {
    assert_eq!(rename_field("display_name", Some("camelCase")), "displayName");
    assert_eq!(rename_field("retry_count", Some("kebab-case")), "retry-count");
    assert_eq!(rename_field("base_url", Some("kebab-case")), "base-url");
    assert_eq!(rename_field("log_level", Some("SCREAMING_SNAKE_CASE")), "LOG_LEVEL");
    assert_eq!(rename_field("log_level", Some("UPPERCASE")), "LOG_LEVEL");
    assert_eq!(rename_field("log_level", Some("SCREAMING-KEBAB-CASE")), "LOG-LEVEL");
    assert_eq!(rename_field("Log_Level", Some("lowercase")), "log_level");
    assert_eq!(rename_field("log_level", Some("PascalCase")), "LogLevel");
    assert_eq!(rename_field("log_level", Some("snake_case")), "log_level");
    assert_eq!(rename_field("log_level", None), "log_level");
}

#[test]
fn a_field_rename_beats_the_container_rule() {
    assert_eq!(field_key("user_name", Some("login"), Some("camelCase")), "login");
    assert_eq!(field_key("user_name", None, Some("camelCase")), "userName");
    assert_eq!(field_key("user_name", None, None), "user_name");
}
