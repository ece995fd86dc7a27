use qi_tools::formatter::{FormatConfig, Formatter};

fn fmt(source: &str) -> String {
    Formatter::new().format_file(source).unwrap()
}

/// Without any whitespace, the formatted text equals the source.
fn assert_whitespace_only_change(source: &str) {
    let formatted = fmt(source);
    let strip = |s: &str| s.chars().filter(|c| !c.is_whitespace()).collect::<String>();
    assert_eq!(strip(source), strip(&formatted), "非空白内容被改动");
}

/// Formatting twice gives what formatting once gives.
fn assert_idempotent(source: &str) {
    let once = fmt(source);
    let twice = fmt(&once);
    assert_eq!(once, twice, "格式化不幂等");
}

#[test]
fn test_basic_format() {
    let source = "包 测试;\n函数 示例() {\n变量 x = 10;\n}\n";
    let result = fmt(source);
    assert!(result.contains("    变量 x = 10;"));
    assert_idempotent(source);
}

#[test]
fn test_indent() {
    let source = "函数 测试() {\n如果 真 {\n打印(1);\n}\n}\n";
    let result = fmt(source);
    assert!(result.contains("    如果 真 {"));
    assert!(result.contains("        打印(1);"));
    assert!(result.contains("    }\n}"));
}

#[test]
fn test_semicolon_stays_with_statement() {
    let source = "函数 入口() {\n变量 矩 = 矩形 { 宽: 3.0, 高: 4.0 };\n}\n";
    let result = fmt(source);
    assert!(result.contains("    变量 矩 = 矩形 { 宽: 3.0, 高: 4.0 };"));
    assert!(!result.contains("\n;"));
    assert_whitespace_only_change(source);
    assert_idempotent(source);
}

#[test]
fn test_comments_preserved() {
    let source = "// 整行注释\n包 主程序;\n\n函数 入口() {\n变量 x = 1; // 行尾注释\n/* 块注释\n   第二行 */\n打印行(x);\n}\n";
    let result = fmt(source);
    assert!(result.contains("// 整行注释"));
    assert!(result.contains("变量 x = 1; // 行尾注释"));
    assert!(result.contains("/* 块注释"));
    assert!(result.contains("第二行 */"));
    assert_whitespace_only_change(source);
    assert_idempotent(source);
}

#[test]
fn test_selective_import_untouched() {
    let source = "包 主程序;\n\n导入 Web::{应用, 路由};\n";
    let result = fmt(source);
    assert!(result.contains("导入 Web::{应用, 路由};"));
    assert_idempotent(source);
}

#[test]
fn test_type_declaration_style_untouched() {
    let source = "类型 矩形 {\n浮点数 宽;\n浮点数 高;\n}\n";
    let result = fmt(source);
    assert!(result.contains("类型 矩形 {"));
    assert!(result.contains("    浮点数 宽;"));
    assert!(!result.contains("结构体"));
    assert_whitespace_only_change(source);
}

#[test]
fn test_receiver_method_untouched() {
    let source = "函数 (自身 矩形) 面积(): 浮点数 {\n返回 自身.宽 * 自身.高;\n}\n";
    let result = fmt(source);
    assert!(result.contains("函数 (自身 矩形) 面积(): 浮点数 {"));
    assert!(result.contains("    返回 自身.宽 * 自身.高;"));
    assert!(!result.contains("/*"));
    assert_whitespace_only_change(source);
    assert_idempotent(source);
}

#[test]
fn test_braces_in_strings_and_comments_ignored() {
    let source =
        "函数 入口() {\n变量 s = \"{{{\"; // 注释里的 } 也不算\n变量 c = '{';\n打印行(s, c);\n}\n";
    let result = fmt(source);
    assert!(result.contains("    打印行(s, c);"));
    assert!(result.ends_with("}\n"));
    assert_whitespace_only_change(source);
    assert_idempotent(source);
}

#[test]
fn test_else_brace_line() {
    let source = "函数 入口() {\n如果 真 {\n打印(1);\n} 否则 {\n打印(2);\n}\n}\n";
    let result = fmt(source);
    assert!(result.contains("    } 否则 {"));
    assert_idempotent(source);
}

#[test]
fn test_blank_lines_collapsed() {
    let source = "包 主程序;\n\n\n\n函数 入口() {\n}\n";
    let result = fmt(source);
    assert!(result.contains("包 主程序;\n\n函数 入口() {"));
    assert_idempotent(source);
}

#[test]
fn test_continuation_line_in_parens() {
    let source = "函数 入口() {\n打印行(\"a\",\n\"b\");\n}\n";
    let result = fmt(source);
    assert!(result.contains("    打印行(\"a\",\n        \"b\");"));
    assert_idempotent(source);
}

#[test]
fn test_fallback_on_parse_error() {
    let source = "不是有效的 Qi { 代码\n";
    let result = Formatter::new().format_file(source);
    assert!(result.is_ok());
    assert_whitespace_only_change(source);
}

// Further cases.

#[test]
fn exact_output_of_nested_blocks() {
    let source = "  函数 入口() {   \n\t如果 真 {\n打印(1);\n    }\n}";
    assert_eq!(fmt(source), "函数 入口() {\n    如果 真 {\n        打印(1);\n    }\n}\n");
}

#[test]
fn leading_blank_lines_dropped_and_trailing_blank_lines_dropped() {
    assert_eq!(fmt("\n\n  \n包 a;\n\n\n"), "包 a;\n");
}

#[test]
fn empty_source_gives_empty_output() {
    assert_eq!(fmt(""), "");
    assert_eq!(fmt("\n \n\t\n"), "");
}

#[test]
fn crlf_line_endings_become_lf() {
    assert_eq!(fmt("函数 f() {\r\n返回 1;\r\n}\r\n"), "函数 f() {\n    返回 1;\n}\n");
}

#[test]
fn block_comment_lines_keep_their_indentation() {
    let source = "函数 f() {\n/* 开始\n      对齐的 { 说明\n */\n打印(1);\n}\n";
    let result = fmt(source);
    assert_eq!(result, "函数 f() {\n    /* 开始\n      对齐的 { 说明\n */\n    打印(1);\n}\n");
    assert_idempotent(source);
}

#[test]
fn nested_block_comments_count() {
    let source = "/* 外 /* 内 */ 仍在注释 {\n*/\n函数 f() {\n打印(1);\n}\n";
    let result = fmt(source);
    assert!(result.contains("\n    打印(1);\n"));
    assert_idempotent(source);
}

#[test]
fn fullwidth_brackets_count() {
    let source = "列表【\n1,\n】\n调用（\n2）\n";
    assert_eq!(fmt(source), "列表【\n    1,\n】\n调用（\n    2）\n");
}

#[test]
fn escaped_quote_and_char_literals() {
    let source = "变量 s = \"\\\"{\";\n变量 c = '\\'';\n变量 d = '}';\n{\n打印(s);\n}\n";
    let result = fmt(source);
    assert!(result.contains("\n    打印(s);\n"));
    assert_idempotent(source);
}

#[test]
fn tabs_and_custom_width() {
    let mut cfg = FormatConfig::default();
    cfg.use_tabs = true;
    let out = Formatter::with_config(cfg).format_file("{\n{\nx\n}\n}\n").unwrap();
    assert_eq!(out, "{\n\t{\n\t\tx\n\t}\n}\n");
    let mut cfg2 = FormatConfig::default();
    cfg2.indent_size = 2;
    cfg2.preserve_blank_lines = false;
    let out2 = Formatter::with_config(cfg2).format_file("a\n\n{\nb\n}\n").unwrap();
    assert_eq!(out2, "a\n{\n  b\n}\n");
}

#[test]
fn unmatched_closers_never_go_below_zero() {
    let source = "}\n)\nx\n";
    assert_eq!(fmt(source), "}\n)\nx\n");
}

#[test]
fn whitespace_only_and_idempotent_on_a_mixed_sample() {
    let source = "包 主;\r\n\r\n  类型 点 {\n整数 x; // 注释 {\n  }\n函数 f(a,\nb) {\n  /* 多行\n  注释 */ 变量 y = \"}\";\n打印【1】;\n\t}\n\n\n";
    assert_whitespace_only_change(source);
    assert_idempotent(source);
}

use qi_tools::formatter::line_diffs;

#[test]
fn changed_lines_are_listed() {
    let original = "包 测试;\n函数 示例() {\n变量 x = 10;\n}\n";
    let formatted = Formatter::new().format_file(original).unwrap();
    let d = line_diffs(original, &formatted);
    assert_eq!(d.len(), 1);
    assert_eq!(d[0].line, 3);
    assert_eq!(d[0].original, "变量 x = 10;");
    assert_eq!(d[0].formatted, "    变量 x = 10;");
    assert!(line_diffs(&formatted, &formatted).is_empty());
    assert!(line_diffs("a\nb\nc", "a\nb").is_empty());
    let e = line_diffs("a\r\nb", "x\nb\n");
    assert_eq!(e.len(), 1);
    assert_eq!((e[0].line, e[0].original.as_str(), e[0].formatted.as_str()), (1, "a", "x"));
}

#[test]
fn formatted_lines_have_no_trailing_whitespace() {
    let source = "函数 入口() {  \r\n变量 x = 1;\t \n/* 注释  \n  结束 */   \n\n\n}  ";
    let out = Formatter::new().format_file(source).unwrap();
    assert_eq!(out, "函数 入口() {\n    变量 x = 1;\n    /* 注释\n  结束 */\n\n}\n");
    assert!(out.lines().all(|l| !l.ends_with(char::is_whitespace)));
    assert!(out.ends_with('\n'));
}

#[test]
fn blank_source_gives_empty_output() {
    assert_eq!(Formatter::new().format_file("").unwrap(), "");
    assert_eq!(Formatter::new().format_file("  \n\t\r\n\n ").unwrap(), "");
    assert_eq!(Formatter::new().format_file("\n\nx\n").unwrap(), "x\n");
}

#[test]
fn blank_runs_become_one_empty_line() {
    let out = Formatter::new().format_file("\n\na;\n\n \n\t\nb;\nc;\n\n\n").unwrap();
    assert_eq!(out, "a;\n\nb;\nc;\n");
    assert!(!out.starts_with('\n') && !out.contains("\n\n\n") && !out.ends_with("\n\n"));
    let mut cfg = FormatConfig::default();
    cfg.preserve_blank_lines = false;
    let out = Formatter::with_config(cfg).format_file("a;\n\n\nb;\n").unwrap();
    assert_eq!(out, "a;\nb;\n");
}
