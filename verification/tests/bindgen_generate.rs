use qi_tools::bindgen::generate::render;
use qi_tools::bindgen::{BindgenResult, MappedFn, QiParamType, QiRetType, SkippedFn};

fn sample() -> BindgenResult {
    BindgenResult {
        mapped: vec![
            MappedFn {
                name: "cos".into(),
                params: vec![("p0".into(), QiParamType::Float)],
                ret: QiRetType::Float,
            },
            MappedFn {
                name: "strlen".into(),
                params: vec![("p0".into(), QiParamType::Str)],
                ret: QiRetType::Integer,
            },
        ],
        skipped: vec![SkippedFn {
            name: "strcpy".into(),
            reason: "返回 char* 暂不支持".into(),
        }],
    }
}

#[test]
fn render_contains_extern_block_header() {
    let s = render("math.h", "m", None, &sample());
    assert!(s.contains("外部 \"m\" {"));
    assert!(s.contains("函数 cos(p0: 浮点数): 浮点数;"));
    assert!(s.contains("函数 strlen(p0: 字符串): 整数;"));
}

#[test]
fn skipped_items_are_comments() {
    let s = render("string.h", "c", None, &sample());
    assert!(s.contains("// 跳过 strcpy: 返回 char* 暂不支持"));
    assert!(!s.contains("函数 strcpy"));
}

#[test]
fn function_without_parameters() {
    let r = BindgenResult {
        mapped: vec![MappedFn {
            name: "rand".into(),
            params: vec![],
            ret: QiRetType::Integer,
        }],
        skipped: vec![],
    };
    let s = render("stdlib.h", "c", None, &r);
    assert!(s.contains("函数 rand(): 整数;"));
}

#[test]
fn header_has_counts_and_prefix() {
    let s = render("openssl/sha.h", "crypto", Some("SHA"), &sample());
    assert!(s.contains("// 前缀过滤: SHA"));
    assert!(s.contains("// 统计: 可映射 2 个，跳过 1 个"));
    assert!(s.contains("// 来源头文件: openssl/sha.h"));
}

// Further cases.

#[test]
fn whole_file_text() {
    let s = render("math.h", "m", None, &sample());
    let expected = "// 由 qi-bindgen 自动生成，请勿手工编辑。\n\
// 来源头文件: math.h\n\
// 库: m\n\
// 生成时间: <占位>\n\
// 统计: 可映射 2 个，跳过 1 个\n\
\n\
外部 \"m\" {\n\
\x20   函数 cos(p0: 浮点数): 浮点数;\n\
\x20   函数 strlen(p0: 字符串): 整数;\n\
\n\
\x20   // ==== 以下函数被跳过（类型暂不支持），仅作记录 ====\n\
\x20   // 跳过 strcpy: 返回 char* 暂不支持\n\
}\n";
    assert_eq!(s, expected);
}

#[test]
fn only_skipped_has_no_blank_line_before_the_comment_block() {
    let r = BindgenResult {
        mapped: vec![],
        skipped: vec![SkippedFn { name: "printf".into(), reason: "变参函数（... 暂不支持）".into() }],
    };
    let s = render("stdio.h", "c", None, &r);
    assert!(s.contains("外部 \"c\" {\n    // ==== 以下函数被跳过"));
    assert!(s.ends_with("    // 跳过 printf: 变参函数（... 暂不支持）\n}\n"));
}

#[test]
fn empty_result_and_many_parameters() {
    let s = render("x.h", "x", None, &BindgenResult::default());
    assert!(s.ends_with("// 统计: 可映射 0 个，跳过 0 个\n\n外部 \"x\" {\n}\n"));
    let r = BindgenResult {
        mapped: vec![MappedFn {
            name: "f".into(),
            params: vec![
                ("a".into(), QiParamType::Integer),
                ("b".into(), QiParamType::Bool),
                ("ctx".into(), QiParamType::Pointer),
            ],
            ret: QiRetType::Void,
        }],
        skipped: vec![],
    };
    let s = render("y.h", "y", Some("f"), &r);
    assert!(s.contains("    函数 f(a: 整数, b: 布尔, ctx: 指针): 空;\n}\n"));
    assert!(!s.contains("以下函数被跳过"));
}

#[test]
fn counts_in_decimal() {
    let mut r = BindgenResult::default();
    for i in 0..12 {
        r.mapped.push(MappedFn { name: format!("f{}", i), params: vec![], ret: QiRetType::Integer });
    }
    let s = render("h.h", "l", None, &r);
    assert!(s.contains("// 统计: 可映射 12 个，跳过 0 个\n"));
}

#[test]
fn type_names() {
    assert_eq!(QiParamType::Integer.name(), "整数");
    assert_eq!(QiParamType::Float.name(), "浮点数");
    assert_eq!(QiParamType::Bool.name(), "布尔");
    assert_eq!(QiParamType::Str.name(), "字符串");
    assert_eq!(QiParamType::Pointer.name(), "指针");
    assert_eq!(QiRetType::Void.name(), "空");
    assert_eq!(QiRetType::Str.name(), "字符串");
    assert_eq!(QiRetType::Pointer.name(), "指针");
}
