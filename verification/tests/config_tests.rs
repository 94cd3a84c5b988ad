use tealog::config::{parse_page_config, ConfigError, PageConfig};

#[test]
fn page_config_from_toml_when_path_and_content_is_valid() {
    let config_string = "
        width = 100
        length = 100
        ";

    let config = parse_page_config(config_string).unwrap();

    assert_eq!(config.width, 100);
    assert_eq!(config.length, 100);
}

#[test]
fn page_config_from_toml_panics_when_invalid_config() {
    let config_string = "
        NOT_WDITH = 100
        length = 100
        ";

    let result = parse_page_config(config_string);

    assert_eq!(result, Err(ConfigError::Format));
}

#[test]
fn parse_returns_both_dimensions_exactly() {
    let config_string = "width = -32768\nlength = 32767\n";

    let result = parse_page_config(config_string);

    assert_eq!(
        result,
        Ok(PageConfig {
            width: -32768,
            length: 32767,
        })
    );
}

#[test]
fn parse_rejects_text_that_is_not_toml() {
    let result = parse_page_config("width = = 3");

    assert_eq!(result, Err(ConfigError::Format));
}

#[test]
fn parse_rejects_missing_length_key() {
    let result = parse_page_config("width = 100\n");

    assert_eq!(result, Err(ConfigError::Format));
}

#[test]
fn parse_rejects_out_of_range_width() {
    let result = parse_page_config("width = 32768\nlength = 100\n");

    assert_eq!(result, Err(ConfigError::Format));
}

#[test]
fn parse_rejects_non_integer_width() {
    let result = parse_page_config("width = \"wide\"\nlength = 100\n");

    assert_eq!(result, Err(ConfigError::Format));
}

#[test]
fn parse_ignores_unrelated_extra_keys() {
    let config_string = "width = 10\nlength = 20\nnote = \"oolong\"\n";

    let result = parse_page_config(config_string);

    assert_eq!(result, Ok(PageConfig { width: 10, length: 20 }));
}
