use qi_tools::doc::{
    format_type, render_import, render_program, DocEnum, DocField, DocFunction, DocImport,
    DocItem, DocMethod, DocParam, DocProgram, DocStruct, DocType, DocVariant,
};

fn basic(s: &str) -> DocType {
    DocType::Basic(s.to_string())
}

fn param(name: &str, t: Option<DocType>) -> DocParam {
    DocParam { name: name.to_string(), type_annotation: t }
}

#[test]
fn type_spellings() {
    assert_eq!(format_type(&basic("整数")), "整数");
    assert_eq!(format_type(&DocType::Array(Box::new(basic("整数")), Some("3".to_string()))), "[整数; 3]");
    assert_eq!(format_type(&DocType::Array(Box::new(basic("整数")), None)), "[整数]");
    assert_eq!(format_type(&DocType::List(Box::new(DocType::Custom("点".to_string())))), "列表<点>");
    assert_eq!(format_type(&DocType::SetOf(Box::new(basic("字符串")))), "集合<字符串>");
    assert_eq!(
        format_type(&DocType::Dict(Box::new(basic("字符串")), Box::new(basic("整数")))),
        "字典<字符串, 整数>"
    );
    assert_eq!(format_type(&DocType::Channel(Box::new(basic("整数")))), "通道<整数>");
    assert_eq!(format_type(&DocType::Pointer(Box::new(basic("整数")))), "*整数");
    assert_eq!(format_type(&DocType::Reference(true, Box::new(basic("整数")))), "&mut 整数");
    assert_eq!(format_type(&DocType::Reference(false, Box::new(basic("整数")))), "&整数");
    assert_eq!(format_type(&DocType::Future(Box::new(basic("整数")))), "未来<整数>");
    assert_eq!(
        format_type(&DocType::Outcome(Box::new(basic("整数")), Box::new(basic("字符串")))),
        "结果<整数, 字符串>"
    );
    assert_eq!(format_type(&DocType::Optional(Box::new(basic("整数")))), "选项<整数>");
    assert_eq!(
        format_type(&DocType::Generic(
            "映射".to_string(),
            vec![basic("整数"), DocType::List(Box::new(basic("布尔")))]
        )),
        "映射<整数, 列表<布尔>>"
    );
    assert_eq!(format_type(&DocType::Generic("空".to_string(), vec![])), "空<>");
    assert_eq!(format_type(&DocType::Other("函数类型".to_string())), "函数类型");
}

#[test]
fn import_lines() {
    let plain = DocImport { path: vec!["标准".to_string(), "输入输出".to_string()], is_public: false, alias: None };
    assert_eq!(render_import(&plain), "`导入 标准.输入输出`");
    let public = DocImport { path: vec!["网络".to_string()], is_public: true, alias: Some("网".to_string()) };
    assert_eq!(render_import(&public), "`公开 导入 网络 作为 网`");
}

#[test]
fn whole_document() {
    let program = DocProgram {
        package_name: Some("几何".to_string()),
        imports: vec![DocImport { path: vec!["数学".to_string()], is_public: false, alias: None }],
        statements: vec![
            DocItem::Struct(DocStruct {
                name: "点".to_string(),
                fields: vec![
                    DocField { name: "x".to_string(), type_annotation: basic("浮点数") },
                    DocField { name: "y".to_string(), type_annotation: basic("浮点数") },
                ],
                methods: vec![
                    DocMethod {
                        is_public: true,
                        method_name: "长度".to_string(),
                        parameters: vec![],
                        return_type: Some(basic("浮点数")),
                    },
                    DocMethod {
                        is_public: false,
                        method_name: "内部".to_string(),
                        parameters: vec![param("n", Some(basic("整数")))],
                        return_type: None,
                    },
                ],
            }),
            DocItem::Function(DocFunction {
                name: "距离".to_string(),
                parameters: vec![
                    param("a", Some(DocType::Custom("点".to_string()))),
                    param("b", None),
                ],
                return_type: Some(basic("浮点数")),
            }),
            DocItem::Other,
            DocItem::Enum(DocEnum {
                name: "方向".to_string(),
                variants: vec![
                    DocVariant { name: "东".to_string(), value: Some("1".to_string()) },
                    DocVariant { name: "西".to_string(), value: None },
                ],
            }),
        ],
    };
    let expected = "# 几何\n\n\
**包**: `几何`\n\n\
## 导入\n\n\
- `导入 数学`\n\
\n\
## 函数\n\n\
### `距离`\n\n\
```qi\n\
函数 距离(a: 点, b) -> 浮点数\n\
```\n\
\n\
## 结构体\n\n\
### `点`\n\n\
| 字段 | 类型 |\n\
|------|------|\n\
| `x` | `浮点数` |\n\
| `y` | `浮点数` |\n\
\n\
**方法:**\n\n\
- `方法 长度() -> 浮点数`\n\
\n\
\n\
## 枚举\n\n\
### `方向`\n\n\
- `东` = 1\n\
- `西`\n\
\n\
\n";
    assert_eq!(render_program(&program, None), expected);
    let titled = render_program(&program, Some("几何.qi"));
    assert!(titled.starts_with("# 几何.qi\n\n**包**: `几何`\n\n"));
}

#[test]
fn empty_program_gets_the_default_title() {
    let program = DocProgram { package_name: None, imports: vec![], statements: vec![DocItem::Other] };
    assert_eq!(render_program(&program, None), "# Qi 模块\n\n");
}

use qi_tools::doc::{markdown_file_name, output_path};

#[test]
fn markdown_output_paths() {
    assert_eq!(markdown_file_name(Some("主程序".to_string())), "主程序.md");
    assert_eq!(markdown_file_name(None), "module.md");
    assert_eq!(output_path("out", "src/hello.qi"), "out/hello.md");
    assert_eq!(output_path("out/", "a.b.qi"), "out/a.b.md");
    assert_eq!(output_path("docs", "示例/主程序.qi"), "docs/主程序.md");
    assert_eq!(output_path("out", ""), "out/module.md");
    assert_eq!(output_path("out", "src/.."), "out/module.md");
    assert_eq!(output_path("", ".hidden"), ".hidden.md");
}

use qi_tools::doc::field_summary;

#[test]
fn field_summaries() {
    let fields = vec![
        DocField { name: "宽".to_string(), type_annotation: basic("浮点数") },
        DocField { name: "名".to_string(), type_annotation: DocType::List(Box::new(basic("字符串"))) },
    ];
    assert_eq!(field_summary(&fields), vec!["宽: 浮点数".to_string(), "名: 列表<字符串>".to_string()]);
    assert!(field_summary(&Vec::new()).is_empty());
}
