use clang_sys::{
    CXType_Char_S, CXType_Double, CXType_FunctionProto, CXType_Int, CXType_Long, CXType_Pointer,
    CXType_Record, CXType_Void,
};
use qi_tools::bindgen::collect::{classify, collect_bindings, is_ascii_ident, CFunction, CParam, CType, ParseOptions};
use qi_tools::bindgen::ctypes::PointeeKind;
use qi_tools::bindgen::generate::render;
use qi_tools::bindgen::{QiParamType, QiRetType};

fn ty(kind: i32) -> CType {
    CType { kind, pointee_kind: 0 }
}

fn ptr(pointee_kind: i32) -> CType {
    CType { kind: CXType_Pointer, pointee_kind }
}

fn param(name: &str, t: CType) -> CParam {
    CParam { name: name.to_string(), ty: t }
}

fn func(name: &str, ret: CType, params: Vec<CParam>) -> CFunction {
    CFunction { name: name.to_string(), external: true, variadic: false, ret, params }
}

#[test]
fn ascii_identifiers() {
    assert!(is_ascii_ident("x"));
    assert!(is_ascii_ident("_buf2"));
    assert!(!is_ascii_ident(""));
    assert!(!is_ascii_ident("2x"));
    assert!(!is_ascii_ident("a-b"));
    assert!(!is_ascii_ident("长度"));
}

#[test]
fn classify_reads_the_pointee_only_for_pointers() {
    assert_eq!(classify(ptr(CXType_Char_S)), (CXType_Pointer, Some(PointeeKind::Char)));
    assert_eq!(classify(ptr(CXType_FunctionProto)), (CXType_Pointer, Some(PointeeKind::Function)));
    assert_eq!(classify(CType { kind: CXType_Int, pointee_kind: CXType_Char_S }), (CXType_Int, None));
}

#[test]
fn bound_skipped_and_ignored_functions() {
    let mut static_helper = func("helper", ty(CXType_Int), vec![]);
    static_helper.external = false;
    let mut printf = func("printf", ty(CXType_Int), vec![param("fmt", ptr(CXType_Char_S))]);
    printf.variadic = true;
    let decls = vec![
        func("strlen", ty(CXType_Long), vec![param("s", ptr(CXType_Char_S))]),
        func("cos", ty(CXType_Double), vec![param("", ty(CXType_Double))]),
        func("cos", ty(CXType_Double), vec![]),
        func("", ty(CXType_Int), vec![]),
        static_helper,
        printf,
        func("qsort", ty(CXType_Void), vec![param("base", ptr(CXType_Void)), param("cmp", ptr(CXType_FunctionProto))]),
        func("div", ty(CXType_Record), vec![]),
        func("add", ty(CXType_Int), vec![param("x", ty(CXType_Int)), param("x", ty(CXType_Int)), param("长度", ty(CXType_Int))]),
    ];
    let r = collect_bindings(&decls, None);
    let mapped: Vec<(String, Vec<(String, QiParamType)>, QiRetType)> =
        r.mapped.iter().map(|m| (m.name.clone(), m.params.clone(), m.ret)).collect();
    assert_eq!(
        mapped,
        vec![
            (
                "add".to_string(),
                vec![
                    ("x".to_string(), QiParamType::Integer),
                    ("p1".to_string(), QiParamType::Integer),
                    ("p2".to_string(), QiParamType::Integer),
                ],
                QiRetType::Integer
            ),
            ("cos".to_string(), vec![("p0".to_string(), QiParamType::Float)], QiRetType::Float),
            ("strlen".to_string(), vec![("s".to_string(), QiParamType::Str)], QiRetType::Integer),
        ]
    );
    let skipped: Vec<(String, String)> = r.skipped.iter().map(|s| (s.name.clone(), s.reason.clone())).collect();
    assert_eq!(
        skipped,
        vec![
            ("div".to_string(), "返回结构体/联合体（小结构体按值 bindgen 暂不自动生成，请手写）".to_string()),
            ("printf".to_string(), "变参函数（... 暂不支持）".to_string()),
            (
                "qsort".to_string(),
                "参数 1：参数是函数指针（回调 bindgen 暂不自动生成，请手写 外部 声明）".to_string()
            ),
        ]
    );
}

#[test]
fn prefix_filter() {
    let decls = vec![
        func("SHA256_Init", ty(CXType_Int), vec![param("c", ptr(CXType_Record))]),
        func("MD5_Init", ty(CXType_Int), vec![]),
        func("SHA1", ty(CXType_Void), vec![]),
    ];
    let r = collect_bindings(&decls, Some("SHA"));
    let names: Vec<&str> = r.mapped.iter().map(|m| m.name.as_str()).collect();
    assert_eq!(names, vec!["SHA1", "SHA256_Init"]);
    assert_eq!(r.mapped[1].params, vec![("c".to_string(), QiParamType::Pointer)]);
    let text = render("openssl/sha.h", "crypto", Some("SHA"), &r);
    assert!(text.contains("    函数 SHA1(): 空;\n    函数 SHA256_Init(c: 指针): 整数;\n"));
}

#[test]
fn default_parse_options() {
    let o = ParseOptions::default();
    assert!(o.prefix.is_none());
    assert!(o.clang_args.is_empty());
}

#[test]
fn every_eligible_function_is_bound_or_skipped() {
    let mut hidden = func("SHA_static", ty(CXType_Int), vec![]);
    hidden.external = false;
    let mut variadic = func("SHA_printf", ty(CXType_Int), vec![]);
    variadic.variadic = true;
    let decls = vec![
        func("SHA_init", ty(CXType_Int), vec![param("ctx", ptr(CXType_Record))]),
        func("other", ty(CXType_Int), vec![]),
        hidden,
        func("", ty(CXType_Int), vec![]),
        variadic,
        func("SHA_init", ty(CXType_Void), vec![]),
        func("SHA_copy", ty(CXType_Record), vec![]),
    ];
    let r = collect_bindings(&decls, Some("SHA"));
    let mut names: Vec<&str> = r.mapped.iter().map(|m| m.name.as_str()).collect();
    names.extend(r.skipped.iter().map(|s| s.name.as_str()));
    names.sort();
    assert_eq!(names, vec!["SHA_copy", "SHA_init", "SHA_printf"]);
    assert_eq!(r.mapped.len(), 1);
    assert_eq!(r.mapped[0].name, "SHA_init");
}
