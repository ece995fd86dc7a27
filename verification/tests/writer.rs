use qi_tools::formatter::{CodeWriter, FormatConfig};

#[test]
fn test_basic_write() {
    let mut writer = CodeWriter::new(FormatConfig::default());
    writer.write("测试").unwrap();
    assert_eq!(writer.finish(), "测试");
}

#[test]
fn test_indentation() {
    let mut writer = CodeWriter::new(FormatConfig::default());
    writer.write("第一行").unwrap();
    writer.newline().unwrap();
    writer.indent();
    writer.write("缩进行").unwrap();
    writer.newline().unwrap();
    writer.dedent();
    writer.write("正常行").unwrap();

    let result = writer.finish();
    assert!(result.contains("第一行"));
    assert!(result.contains("    缩进行"));
    assert!(result.contains("正常行"));
}

#[test]
fn test_blank_line() {
    let mut writer = CodeWriter::new(FormatConfig::default());
    writer.write("行1").unwrap();
    writer.newline().unwrap();
    writer.blank_line().unwrap();
    writer.write("行2").unwrap();

    let result = writer.finish();
    assert_eq!(result, "行1\n\n行2");
}

#[test]
fn test_line_length_tracking() {
    let mut writer = CodeWriter::new(FormatConfig::default());
    writer.write("短文本").unwrap();
    assert!(writer.current_line_len() > 0);

    writer.newline().unwrap();
    assert_eq!(writer.current_line_len(), 0);
}

#[test]
fn test_max_width_check() {
    let mut config = FormatConfig::default();
    config.max_width = 10;

    let mut writer = CodeWriter::new(config);
    writer.write("12345").unwrap();
    assert!(!writer.would_exceed_max_width(3));
    assert!(writer.would_exceed_max_width(10));
}

#[test]
fn test_write_list() {
    let mut writer = CodeWriter::new(FormatConfig::default());
    let items = vec!["a", "b", "c"];

    writer
        .write_list(&items, ", ", |w, item| w.write(item))
        .unwrap();

    assert_eq!(writer.finish(), "a, b, c");
}

// Further cases.

#[test]
fn line_length_counts_bytes_and_indentation() {
    let mut writer = CodeWriter::new(FormatConfig::default());
    writer.indent();
    writer.write("短文本").unwrap();
    assert_eq!(writer.current_line_len(), 4 + 9);
    writer.write("ab").unwrap();
    assert_eq!(writer.current_line_len(), 15);
}

#[test]
fn lone_newline_and_empty_text_write_no_indentation() {
    let mut writer = CodeWriter::new(FormatConfig::default());
    writer.indent();
    writer.write("").unwrap();
    writer.write("\n").unwrap();
    writer.write("x").unwrap();
    assert_eq!(writer.finish(), "\n    x");
}

#[test]
fn blank_line_after_text_ends_the_line_first() {
    let mut writer = CodeWriter::new(FormatConfig::default());
    writer.write("a").unwrap();
    writer.blank_line().unwrap();
    writer.write("b").unwrap();
    assert_eq!(writer.finish(), "a\n\nb");
}

#[test]
fn dedent_at_level_zero_stays_at_zero() {
    let mut writer = CodeWriter::new(FormatConfig::default());
    writer.dedent();
    writer.write("x").unwrap();
    assert_eq!(writer.finish(), "x");
}

#[test]
fn multiline_list_forced_and_inline() {
    let mut writer = CodeWriter::new(FormatConfig::default());
    let items = vec!["a", "b"];
    writer
        .write_multiline_list(&items, ",", true, |w, item| w.write(item))
        .unwrap();
    assert_eq!(writer.finish(), "\n    a,\n    b,\n");

    let mut inline = CodeWriter::new(FormatConfig::default());
    inline
        .write_multiline_list(&items, ",", false, |w, item| w.write(item))
        .unwrap();
    assert_eq!(inline.finish(), "a, b");

    let mut config = FormatConfig::default();
    config.trailing_comma = false;
    let mut no_trailing = CodeWriter::new(config);
    let many = vec!["1", "2", "3", "4", "5", "6"];
    no_trailing
        .write_multiline_list(&many, ",", false, |w, item| w.write(item))
        .unwrap();
    assert_eq!(no_trailing.finish(), "\n    1,\n    2,\n    3,\n    4,\n    5,\n    6\n");
}

#[test]
fn empty_lists_write_nothing() {
    let mut writer = CodeWriter::new(FormatConfig::default());
    let items: Vec<&str> = Vec::new();
    writer.write_list(&items, ", ", |w, item| w.write(item)).unwrap();
    writer.write_multiline_list(&items, ",", true, |w, item| w.write(item)).unwrap();
    assert_eq!(writer.finish(), "");
}
