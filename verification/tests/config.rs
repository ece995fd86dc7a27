use qi_tools::formatter::FormatConfig;

#[test]
fn test_default_config() {
    let config = FormatConfig::default();
    assert_eq!(config.indent_size, 4);
    assert_eq!(config.max_width, 100);
    assert!(!config.use_tabs);
    assert!(config.trailing_comma);
}

#[test]
fn test_indent_str() {
    let config = FormatConfig::default();
    assert_eq!(config.indent_str(), "    ");

    let mut tab_config = FormatConfig::default();
    tab_config.use_tabs = true;
    assert_eq!(tab_config.indent_str(), "\t");
}

#[test]
fn indent_str_follows_indent_size() {
    let mut config = FormatConfig::default();
    config.indent_size = 0;
    assert_eq!(config.indent_str(), "");
    config.indent_size = 3;
    assert_eq!(config.indent_str(), "   ");
}

#[test]
fn defaults_of_the_other_options() {
    let config = FormatConfig::default();
    assert!(config.space_around_operators);
    assert!(config.space_after_comma);
    assert!(config.space_after_colon);
    assert!(config.preserve_blank_lines);
    assert!(config.sort_imports);
    assert!(config.group_imports);
}
