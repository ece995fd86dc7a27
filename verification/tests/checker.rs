use qi_tools::checker::{
    check_report, format_human, read_error_report, AnalysisOutcome, CompilerDiagnostic,
    CompilerLevel, Diagnostic, FileReport, Severity,
};

fn diag(line: usize, column: usize, severity: Severity, message: &str) -> Diagnostic {
    Diagnostic { file: "a.qi".to_string(), line, column, severity, message: message.to_string() }
}

#[test]
fn counts_and_has_errors() {
    let report = FileReport {
        file: "a.qi".to_string(),
        diagnostics: vec![
            diag(1, 1, Severity::Error, "e1"),
            diag(2, 1, Severity::Warning, "w1"),
            diag(3, 1, Severity::Error, "e2"),
        ],
    };
    assert!(report.has_errors());
    assert_eq!(report.error_count(), 2);
    assert_eq!(report.warning_count(), 1);
    assert_eq!(report.error_count() + report.warning_count(), report.diagnostics.len());

    let clean = FileReport { file: "b.qi".to_string(), diagnostics: vec![diag(1, 1, Severity::Warning, "w")] };
    assert!(!clean.has_errors());
    assert_eq!(clean.error_count(), 0);
}

#[test]
fn human_text_for_a_clean_file() {
    let report = FileReport { file: "src/主.qi".to_string(), diagnostics: vec![] };
    assert_eq!(format_human(&report), "src/主.qi: 检查通过\n");
}

#[test]
fn human_text_lists_every_diagnostic() {
    let report = FileReport {
        file: "a.qi".to_string(),
        diagnostics: vec![diag(12, 305, Severity::Error, "未定义的变量"), diag(0, 0, Severity::Warning, "w")],
    };
    assert_eq!(format_human(&report), "a.qi:12:305: 错误: 未定义的变量\na.qi:0:0: 警告: w\n");
}

#[test]
fn syntax_error_is_one_error_at_line_one() {
    let r = check_report("x.qi", "函数 {", &AnalysisOutcome::SyntaxError("意外的结束".to_string()));
    assert_eq!(r.file, "x.qi");
    assert_eq!(r.diagnostics.len(), 1);
    let d = &r.diagnostics[0];
    assert_eq!((d.line, d.column, d.severity), (1, 1, Severity::Error));
    assert_eq!(d.message, "语法错误: 意外的结束");
}

#[test]
fn positions_from_byte_offsets() {
    // "包 a;\n变量 x" : '包' is 3 bytes, so byte 4 is 'a' at column 3.
    let source = "包 a;\n变量 x";
    let outcome = AnalysisOutcome::Analyzed {
        diagnostics: vec![
            CompilerDiagnostic { span_start: Some(4), level: CompilerLevel::Error, message: "m1".to_string() },
            CompilerDiagnostic { span_start: Some(7), level: CompilerLevel::Warning, message: "m2".to_string() },
            CompilerDiagnostic { span_start: Some(14), level: CompilerLevel::Info, message: "m3".to_string() },
            CompilerDiagnostic { span_start: None, level: CompilerLevel::Error, message: "m4".to_string() },
            CompilerDiagnostic { span_start: Some(1000), level: CompilerLevel::Error, message: "m5".to_string() },
        ],
        failure: Some("失败".to_string()),
    };
    let r = check_report("y.qi", source, &outcome);
    let got: Vec<(usize, usize, Severity, String)> =
        r.diagnostics.iter().map(|d| (d.line, d.column, d.severity, d.message.clone())).collect();
    assert_eq!(
        got,
        vec![
            (1, 3, Severity::Error, "m1".to_string()),
            (2, 1, Severity::Warning, "m2".to_string()),
            (2, 4, Severity::Warning, "m3".to_string()),
            (0, 0, Severity::Error, "m4".to_string()),
            (2, 5, Severity::Error, "m5".to_string()),
        ]
    );
}

#[test]
fn failed_analysis_without_diagnostics_reports_it() {
    let outcome = AnalysisOutcome::Analyzed { diagnostics: vec![], failure: Some("类型不匹配".to_string()) };
    let r = check_report("z.qi", "x", &outcome);
    assert_eq!(r.diagnostics.len(), 1);
    assert_eq!((r.diagnostics[0].line, r.diagnostics[0].column), (0, 0));
    assert_eq!(r.diagnostics[0].message, "语义错误: 类型不匹配");

    let ok = AnalysisOutcome::Analyzed { diagnostics: vec![], failure: None };
    assert!(check_report("z.qi", "x", &ok).diagnostics.is_empty());
}

#[test]
fn unreadable_file_report() {
    let r = read_error_report("gone.qi", "No such file or directory (os error 2)");
    assert_eq!(r.file, "gone.qi");
    assert_eq!(r.error_count(), 1);
    assert_eq!(r.diagnostics[0].message, "无法读取文件: No such file or directory (os error 2)");
    assert_eq!(format_human(&r), "gone.qi:0:0: 错误: 无法读取文件: No such file or directory (os error 2)\n");
}
