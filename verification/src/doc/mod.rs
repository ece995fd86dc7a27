//! Markdown documentation of a Qi source file.
//!
//! The Qi compiler parses the source outside this library; its syntax tree is
//! handed over as a [`DocProgram`], which holds what the documentation shows.

pub mod laws;
mod output;

pub use output::{markdown_file_name, markdown_name, output_path, path_file_stem, path_join};

use crate::text::push_char;
use vstd::prelude::*;

verus! {

/// A Qi type as written in a declaration.
#[derive(Debug)]
pub enum DocType {
    /// A built-in type, by its debug spelling.
    Basic(String),
    /// A named (user-defined) type.
    Custom(String),
    /// `[T; n]`, or `[T]` without a size.
    Array(Box<DocType>, Option<String>),
    /// `列表<T>`
    List(Box<DocType>),
    /// `集合<T>`
    SetOf(Box<DocType>),
    /// `字典<K, V>`
    Dict(Box<DocType>, Box<DocType>),
    /// `通道<T>`
    Channel(Box<DocType>),
    /// `*T`
    Pointer(Box<DocType>),
    /// `&T`, or `&mut T` when mutable.
    Reference(bool, Box<DocType>),
    /// `未来<T>`
    Future(Box<DocType>),
    /// `结果<T, E>`
    Outcome(Box<DocType>, Box<DocType>),
    /// `选项<T>`
    Optional(Box<DocType>),
    /// `Base<A, B, ...>`
    Generic(String, Vec<DocType>),
    /// Any other type, by its debug spelling.
    Other(String),
}

/// A parameter: its name and, when annotated, its type.
#[derive(Debug)]
pub struct DocParam {
    pub name: String,
    pub type_annotation: Option<DocType>,
}

/// An import statement.
#[derive(Debug)]
pub struct DocImport {
    pub path: Vec<String>,
    pub is_public: bool,
    pub alias: Option<String>,
}

/// A function declaration.
#[derive(Debug)]
pub struct DocFunction {
    pub name: String,
    pub parameters: Vec<DocParam>,
    pub return_type: Option<DocType>,
}

/// A field of a struct.
#[derive(Debug)]
pub struct DocField {
    pub name: String,
    pub type_annotation: DocType,
}

/// A method of a struct.
#[derive(Debug)]
pub struct DocMethod {
    pub is_public: bool,
    pub method_name: String,
    pub parameters: Vec<DocParam>,
    pub return_type: Option<DocType>,
}

/// A struct declaration.
#[derive(Debug)]
pub struct DocStruct {
    pub name: String,
    pub fields: Vec<DocField>,
    pub methods: Vec<DocMethod>,
}

/// A variant of an enum, with its value's spelling when it has one.
#[derive(Debug)]
pub struct DocVariant {
    pub name: String,
    pub value: Option<String>,
}

/// An enum declaration.
#[derive(Debug)]
pub struct DocEnum {
    pub name: String,
    pub variants: Vec<DocVariant>,
}

/// A top-level statement of a program.
#[derive(Debug)]
pub enum DocItem {
    Function(DocFunction),
    Struct(DocStruct),
    Enum(DocEnum),
    /// Anything the documentation does not show.
    Other,
}

/// A parsed Qi program.
#[derive(Debug)]
pub struct DocProgram {
    pub package_name: Option<String>,
    pub imports: Vec<DocImport>,
    pub statements: Vec<DocItem>,
}

/// How a type is written in the documentation.
pub open spec fn type_text(t: DocType) -> Seq<char>
    decreases t,
{
    match t {
        DocType::Basic(b) => b@,
        DocType::Custom(n) => n@,
        DocType::Array(e, size) => match size {
            Some(n) => seq!['['] + type_text(*e) + "; "@ + n@ + seq![']'],
            None => seq!['['] + type_text(*e) + seq![']'],
        },
        DocType::List(e) => "列表<"@ + type_text(*e) + seq!['>'],
        DocType::SetOf(e) => "集合<"@ + type_text(*e) + seq!['>'],
        DocType::Dict(k, v) => "字典<"@ + type_text(*k) + ", "@ + type_text(*v) + seq!['>'],
        DocType::Channel(e) => "通道<"@ + type_text(*e) + seq!['>'],
        DocType::Pointer(e) => seq!['*'] + type_text(*e),
        DocType::Reference(mutable, e) => if mutable {
            "&mut "@ + type_text(*e)
        } else {
            seq!['&'] + type_text(*e)
        },
        DocType::Future(e) => "未来<"@ + type_text(*e) + seq!['>'],
        DocType::Outcome(a, b) => "结果<"@ + type_text(*a) + ", "@ + type_text(*b) + seq!['>'],
        DocType::Optional(e) => "选项<"@ + type_text(*e) + seq!['>'],
        DocType::Generic(base, args) => base@ + seq!['<'] + types_text(args@) + seq!['>'],
        DocType::Other(d) => d@,
    }
}

/// Types separated by `, `.
pub open spec fn types_text(ts: Seq<DocType>) -> Seq<char>
    decreases ts,
{
    if ts.len() == 0 {
        Seq::empty()
    } else if ts.len() == 1 {
        type_text(ts[0])
    } else {
        types_text(ts.drop_last()) + ", "@ + type_text(ts.last())
    }
}

/// Writes a type as the documentation shows it.
pub fn format_type(t: &DocType) -> (s: String)
    ensures
        s@ == type_text(*t),
    decreases *t,
{
    let mut s = String::new();
    match t {
        DocType::Basic(b) => {
            s.append(b.as_str());
        },
        DocType::Custom(n) => {
            s.append(n.as_str());
        },
        DocType::Array(e, size) => {
            push_char(&mut s, '[');
            let inner = format_type(e);
            s.append(inner.as_str());
            match size {
                Some(n) => {
                    s.append("; ");
                    s.append(n.as_str());
                },
                None => {},
            }
            push_char(&mut s, ']');
        },
        DocType::List(e) => {
            s.append("列表<");
            let inner = format_type(e);
            s.append(inner.as_str());
            push_char(&mut s, '>');
        },
        DocType::SetOf(e) => {
            s.append("集合<");
            let inner = format_type(e);
            s.append(inner.as_str());
            push_char(&mut s, '>');
        },
        DocType::Dict(k, v) => {
            s.append("字典<");
            let a = format_type(k);
            s.append(a.as_str());
            s.append(", ");
            let b = format_type(v);
            s.append(b.as_str());
            push_char(&mut s, '>');
        },
        DocType::Channel(e) => {
            s.append("通道<");
            let inner = format_type(e);
            s.append(inner.as_str());
            push_char(&mut s, '>');
        },
        DocType::Pointer(e) => {
            push_char(&mut s, '*');
            let inner = format_type(e);
            s.append(inner.as_str());
        },
        DocType::Reference(mutable, e) => {
            if *mutable {
                s.append("&mut ");
            } else {
                push_char(&mut s, '&');
            }
            let inner = format_type(e);
            s.append(inner.as_str());
        },
        DocType::Future(e) => {
            s.append("未来<");
            let inner = format_type(e);
            s.append(inner.as_str());
            push_char(&mut s, '>');
        },
        DocType::Outcome(a, b) => {
            s.append("结果<");
            let x = format_type(a);
            s.append(x.as_str());
            s.append(", ");
            let y = format_type(b);
            s.append(y.as_str());
            push_char(&mut s, '>');
        },
        DocType::Optional(e) => {
            s.append("选项<");
            let inner = format_type(e);
            s.append(inner.as_str());
            push_char(&mut s, '>');
        },
        DocType::Generic(base, args) => {
            s.append(base.as_str());
            push_char(&mut s, '<');
            let mut i: usize = 0;
            let ghost start = s@;
            while i < args.len()
                invariant
                    i <= args@.len(),
                    s@ == start + types_text(args@.take(i as int)),
                    *t is Generic,
                    (*t)->Generic_1 == *args,
                decreases args.len() - i,
            {
                if i > 0 {
                    s.append(", ");
                }
                proof {
                    assert(decreases_to!(*t => (*t)->Generic_1));
                    assert(decreases_to!(*args => args@));
                    assert(decreases_to!(args@ => args@[i as int]));
                }
                let a = format_type(&args[i]);
                s.append(a.as_str());
                proof {
                    let ts = args@.take(i + 1);
                    assert(ts.drop_last() == args@.take(i as int));
                    assert(ts.last() == args@[i as int]);
                    if i == 0 {
                        assert(ts.len() == 1);
                        assert(ts[0] == args@[0]);
                        assert(args@.take(0) == Seq::<DocType>::empty());
                    }
                }
                i += 1;
            }
            assert(args@.take(args.len() as int) == args@);
            push_char(&mut s, '>');
        },
        DocType::Other(d) => {
            s.append(d.as_str());
        },
    }
    s
}

/// A parameter: `name: type`, or the bare name without a type.
pub open spec fn param_text(p: DocParam) -> Seq<char> {
    match p.type_annotation {
        Some(t) => p.name@ + ": "@ + type_text(t),
        None => p.name@,
    }
}

/// A field as `name: type`.
pub open spec fn field_summary_text(f: DocField) -> Seq<char> {
    f.name@ + ": "@ + type_text(f.type_annotation)
}

/// Each field of a struct as `name: type`.
pub fn field_summary(fields: &Vec<DocField>) -> (r: Vec<String>)
    ensures
        r@.len() == fields@.len(),
        forall|i: int| 0 <= i < r@.len() ==> #[trigger] r@[i]@ == field_summary_text(fields@[i]),
{
    let mut r: Vec<String> = Vec::new();
    let mut i: usize = 0;
    while i < fields.len()
        invariant
            i <= fields.len(),
            r@.len() == i,
            forall|k: int| 0 <= k < i ==> #[trigger] r@[k]@ == field_summary_text(fields@[k]),
        decreases fields.len() - i,
    {
        let f = &fields[i];
        let mut s = String::new();
        s.append(f.name.as_str());
        s.append(": ");
        let t = format_type(&f.type_annotation);
        s.append(t.as_str());
        r.push(s);
        i += 1;
    }
    r
}

/// Parameters separated by `, `.
pub open spec fn params_text(ps: Seq<DocParam>) -> Seq<char>
    decreases ps.len(),
{
    if ps.len() == 0 {
        Seq::empty()
    } else if ps.len() == 1 {
        param_text(ps[0])
    } else {
        params_text(ps.drop_last()) + ", "@ + param_text(ps.last())
    }
}

/// ` -> type`, or nothing without a return type.
pub open spec fn ret_text(r: Option<DocType>) -> Seq<char> {
    match r {
        Some(t) => " -> "@ + type_text(t),
        None => Seq::empty(),
    }
}

/// `函数 name(params) -> type`
pub open spec fn signature_text(f: DocFunction) -> Seq<char> {
    "函数 "@ + f.name@ + seq!['('] + params_text(f.parameters@) + seq![')'] + ret_text(f.return_type)
}

/// Writes a parameter.
pub fn format_parameter(p: &DocParam) -> (s: String)
    ensures
        s@ == param_text(*p),
{
    let mut s = String::new();
    s.append(p.name.as_str());
    match &p.type_annotation {
        Some(t) => {
            s.append(": ");
            let ts = format_type(t);
            s.append(ts.as_str());
        },
        None => {},
    }
    s
}

/// Appends the parameters, separated by `, `.
fn push_params(out: &mut String, ps: &Vec<DocParam>)
    ensures
        final(out)@ == old(out)@ + params_text(ps@),
{
    let ghost start = out@;
    let mut i: usize = 0;
    while i < ps.len()
        invariant
            i <= ps@.len(),
            out@ == start + params_text(ps@.take(i as int)),
        decreases ps.len() - i,
    {
        if i > 0 {
            out.append(", ");
        }
        let p = format_parameter(&ps[i]);
        out.append(p.as_str());
        proof {
            let t = ps@.take(i + 1);
            assert(t.drop_last() == ps@.take(i as int));
            assert(t.last() == ps@[i as int]);
            if i == 0 {
                assert(t.len() == 1);
                assert(t[0] == ps@[0]);
                assert(ps@.take(0) == Seq::<DocParam>::empty());
            }
        }
        i += 1;
    }
    assert(ps@.take(ps.len() as int) == ps@);
}

/// Appends ` -> type` when there is a return type.
fn push_ret(out: &mut String, r: &Option<DocType>)
    ensures
        final(out)@ == old(out)@ + ret_text(*r),
{
    match r {
        Some(t) => {
            out.append(" -> ");
            let ts = format_type(t);
            out.append(ts.as_str());
        },
        None => {
            assert(old(out)@ + Seq::<char>::empty() == old(out)@);
        },
    }
}

/// The signature of a function.
pub fn format_function_signature(f: &DocFunction) -> (s: String)
    ensures
        s@ == signature_text(*f),
{
    let mut s = String::new();
    s.append("函数 ");
    s.append(f.name.as_str());
    push_char(&mut s, '(');
    push_params(&mut s, &f.parameters);
    push_char(&mut s, ')');
    push_ret(&mut s, &f.return_type);
    s
}

/// The module path, separated by `.`.
pub open spec fn path_text(ps: Seq<String>) -> Seq<char>
    decreases ps.len(),
{
    if ps.len() == 0 {
        Seq::empty()
    } else if ps.len() == 1 {
        ps[0]@
    } else {
        path_text(ps.drop_last()) + seq!['.'] + ps.last()@
    }
}

/// `` `导入 a.b` ``, `` `公开 导入 a.b` ``, with ` 作为 alias` when aliased.
pub open spec fn import_text(imp: DocImport) -> Seq<char> {
    seq!['`'] + (if imp.is_public {
        "公开 导入"@
    } else {
        "导入"@
    }) + seq![' '] + path_text(imp.path@) + (match imp.alias {
        Some(a) => " 作为 "@ + a@,
        None => Seq::<char>::empty(),
    }) + seq!['`']
}

/// Writes an import statement.
pub fn render_import(imp: &DocImport) -> (s: String)
    ensures
        s@ == import_text(*imp),
{
    let mut s = String::new();
    push_char(&mut s, '`');
    if imp.is_public {
        s.append("公开 导入");
    } else {
        s.append("导入");
    }
    push_char(&mut s, ' ');
    let ghost start = s@;
    let mut i: usize = 0;
    while i < imp.path.len()
        invariant
            i <= imp.path@.len(),
            s@ == start + path_text(imp.path@.take(i as int)),
        decreases imp.path.len() - i,
    {
        if i > 0 {
            push_char(&mut s, '.');
        }
        s.append(imp.path[i].as_str());
        proof {
            let t = imp.path@.take(i + 1);
            assert(t.drop_last() == imp.path@.take(i as int));
            assert(t.last() == imp.path@[i as int]);
            if i == 0 {
                assert(t.len() == 1);
                assert(t[0] == imp.path@[0]);
                assert(imp.path@.take(0) == Seq::<String>::empty());
            }
        }
        i += 1;
    }
    assert(imp.path@.take(imp.path.len() as int) == imp.path@);
    match &imp.alias {
        Some(a) => {
            s.append(" 作为 ");
            s.append(a.as_str());
        },
        None => {},
    }
    push_char(&mut s, '`');
    s
}

/// The section of one function: its name as a heading and its signature.
pub open spec fn function_text(f: DocFunction) -> Seq<char> {
    "### `"@ + f.name@ + "`\n\n"@ + "```qi\n"@ + signature_text(f) + "\n```\n"@
}

/// Writes the section of a function.
pub fn render_function(f: &DocFunction) -> (s: String)
    ensures
        s@ == function_text(*f),
{
    let mut s = String::new();
    s.append("### `");
    s.append(f.name.as_str());
    s.append("`\n\n");
    s.append("```qi\n");
    let sig = format_function_signature(f);
    s.append(sig.as_str());
    s.append("\n```\n");
    s
}

/// A table row for a field.
pub open spec fn field_text(f: DocField) -> Seq<char> {
    "| `"@ + f.name@ + "` | `"@ + type_text(f.type_annotation) + "` |\n"@
}

pub open spec fn fields_text(fs: Seq<DocField>) -> Seq<char>
    decreases fs.len(),
{
    if fs.len() == 0 {
        Seq::empty()
    } else {
        fields_text(fs.drop_last()) + field_text(fs.last())
    }
}

/// The line of a public method; private methods are not shown.
pub open spec fn method_text(m: DocMethod) -> Seq<char> {
    if m.is_public {
        "- `方法 "@ + m.method_name@ + seq!['('] + params_text(m.parameters@) + seq![')']
            + ret_text(m.return_type) + "`\n"@
    } else {
        Seq::empty()
    }
}

pub open spec fn methods_text(ms: Seq<DocMethod>) -> Seq<char>
    decreases ms.len(),
{
    if ms.len() == 0 {
        Seq::empty()
    } else {
        methods_text(ms.drop_last()) + method_text(ms.last())
    }
}

/// The section of a struct: heading, a table of its fields when it has any,
/// and its public methods when it has methods.
pub open spec fn struct_text(st: DocStruct) -> Seq<char> {
    "### `"@ + st.name@ + "`\n\n"@ + (if st.fields@.len() > 0 {
        "| 字段 | 类型 |\n"@ + "|------|------|\n"@ + fields_text(st.fields@) + seq!['\n']
    } else {
        Seq::<char>::empty()
    }) + (if st.methods@.len() > 0 {
        "**方法:**\n\n"@ + methods_text(st.methods@) + seq!['\n']
    } else {
        Seq::<char>::empty()
    })
}

/// Writes the section of a struct.
pub fn render_struct(st: &DocStruct) -> (s: String)
    ensures
        s@ == struct_text(*st),
{
    let mut s = String::new();
    s.append("### `");
    s.append(st.name.as_str());
    s.append("`\n\n");
    let ghost after_head = s@;
    if st.fields.len() > 0 {
        s.append("| 字段 | 类型 |\n");
        s.append("|------|------|\n");
        let ghost start = s@;
        let mut i: usize = 0;
        while i < st.fields.len()
            invariant
                i <= st.fields@.len(),
                s@ == start + fields_text(st.fields@.take(i as int)),
            decreases st.fields.len() - i,
        {
            let f = &st.fields[i];
            s.append("| `");
            s.append(f.name.as_str());
            s.append("` | `");
            let ts = format_type(&f.type_annotation);
            s.append(ts.as_str());
            s.append("` |\n");
            proof {
                let t = st.fields@.take(i + 1);
                assert(t.drop_last() == st.fields@.take(i as int));
                assert(t.last() == st.fields@[i as int]);
            }
            i += 1;
        }
        assert(st.fields@.take(st.fields.len() as int) == st.fields@);
        push_char(&mut s, '\n');
    }
    let ghost after_fields = s@;
    if st.methods.len() > 0 {
        s.append("**方法:**\n\n");
        let ghost start = s@;
        let mut i: usize = 0;
        while i < st.methods.len()
            invariant
                i <= st.methods@.len(),
                s@ == start + methods_text(st.methods@.take(i as int)),
            decreases st.methods.len() - i,
        {
            let m = &st.methods[i];
            if m.is_public {
                s.append("- `方法 ");
                s.append(m.method_name.as_str());
                push_char(&mut s, '(');
                push_params(&mut s, &m.parameters);
                push_char(&mut s, ')');
                push_ret(&mut s, &m.return_type);
                s.append("`\n");
            }
            proof {
                let t = st.methods@.take(i + 1);
                assert(t.drop_last() == st.methods@.take(i as int));
                assert(t.last() == st.methods@[i as int]);
            }
            i += 1;
        }
        assert(st.methods@.take(st.methods.len() as int) == st.methods@);
        push_char(&mut s, '\n');
    }
    s
}

/// The line of an enum variant, with its value when it has one.
pub open spec fn variant_text(v: DocVariant) -> Seq<char> {
    match v.value {
        Some(val) => "- `"@ + v.name@ + "` = "@ + val@ + seq!['\n'],
        None => "- `"@ + v.name@ + "`\n"@,
    }
}

pub open spec fn variants_text(vs: Seq<DocVariant>) -> Seq<char>
    decreases vs.len(),
{
    if vs.len() == 0 {
        Seq::empty()
    } else {
        variants_text(vs.drop_last()) + variant_text(vs.last())
    }
}

/// The section of an enum: heading and one line per variant.
pub open spec fn enum_text(e: DocEnum) -> Seq<char> {
    "### `"@ + e.name@ + "`\n\n"@ + variants_text(e.variants@) + seq!['\n']
}

/// Writes the section of an enum.
pub fn render_enum(e: &DocEnum) -> (s: String)
    ensures
        s@ == enum_text(*e),
{
    let mut s = String::new();
    s.append("### `");
    s.append(e.name.as_str());
    s.append("`\n\n");
    let ghost start = s@;
    let mut i: usize = 0;
    while i < e.variants.len()
        invariant
            i <= e.variants@.len(),
            s@ == start + variants_text(e.variants@.take(i as int)),
        decreases e.variants.len() - i,
    {
        let v = &e.variants[i];
        match &v.value {
            Some(val) => {
                s.append("- `");
                s.append(v.name.as_str());
                s.append("` = ");
                s.append(val.as_str());
                push_char(&mut s, '\n');
            },
            None => {
                s.append("- `");
                s.append(v.name.as_str());
                s.append("`\n");
            },
        }
        proof {
            let t = e.variants@.take(i + 1);
            assert(t.drop_last() == e.variants@.take(i as int));
            assert(t.last() == e.variants@[i as int]);
        }
        i += 1;
    }
    assert(e.variants@.take(e.variants.len() as int) == e.variants@);
    push_char(&mut s, '\n');
    s
}

/// The title: the file name, else the package name, else `Qi 模块`.
pub open spec fn title_text(p: DocProgram, file_name: Option<Seq<char>>) -> Seq<char> {
    match file_name {
        Some(f) => f,
        None => match p.package_name {
            Some(pkg) => pkg@,
            None => "Qi 模块"@,
        },
    }
}

pub open spec fn imports_text(imps: Seq<DocImport>) -> Seq<char>
    decreases imps.len(),
{
    if imps.len() == 0 {
        Seq::empty()
    } else {
        imports_text(imps.drop_last()) + "- "@ + import_text(imps.last()) + seq!['\n']
    }
}

/// The sections of the functions among `items`, in order.
pub open spec fn functions_text(items: Seq<DocItem>) -> Seq<char>
    decreases items.len(),
{
    if items.len() == 0 {
        Seq::empty()
    } else {
        functions_text(items.drop_last()) + match items.last() {
            DocItem::Function(f) => function_text(f) + seq!['\n'],
            _ => Seq::<char>::empty(),
        }
    }
}

/// The sections of the structs among `items`, in order.
pub open spec fn structs_text(items: Seq<DocItem>) -> Seq<char>
    decreases items.len(),
{
    if items.len() == 0 {
        Seq::empty()
    } else {
        structs_text(items.drop_last()) + match items.last() {
            DocItem::Struct(st) => struct_text(st) + seq!['\n'],
            _ => Seq::<char>::empty(),
        }
    }
}

/// The sections of the enums among `items`, in order.
pub open spec fn enums_text(items: Seq<DocItem>) -> Seq<char>
    decreases items.len(),
{
    if items.len() == 0 {
        Seq::empty()
    } else {
        enums_text(items.drop_last()) + match items.last() {
            DocItem::Enum(e) => enum_text(e) + seq!['\n'],
            _ => Seq::<char>::empty(),
        }
    }
}

pub open spec fn has_function(items: Seq<DocItem>) -> bool {
    exists|i: int| 0 <= i < items.len() && #[trigger] items[i] is Function
}

pub open spec fn has_struct(items: Seq<DocItem>) -> bool {
    exists|i: int| 0 <= i < items.len() && #[trigger] items[i] is Struct
}

pub open spec fn has_enum(items: Seq<DocItem>) -> bool {
    exists|i: int| 0 <= i < items.len() && #[trigger] items[i] is Enum
}

/// The Markdown document of a program: title, package, imports, then the
/// functions, structs and enums, each kind under its heading when there is one.
pub open spec fn program_text(p: DocProgram, file_name: Option<Seq<char>>) -> Seq<char> {
    "# "@ + title_text(p, file_name) + "\n\n"@ + (match p.package_name {
        Some(pkg) => "**包**: `"@ + pkg@ + "`\n\n"@,
        None => Seq::<char>::empty(),
    }) + (if p.imports@.len() > 0 {
        "## 导入\n\n"@ + imports_text(p.imports@) + seq!['\n']
    } else {
        Seq::<char>::empty()
    }) + (if has_function(p.statements@) {
        "## 函数\n\n"@ + functions_text(p.statements@)
    } else {
        Seq::<char>::empty()
    }) + (if has_struct(p.statements@) {
        "## 结构体\n\n"@ + structs_text(p.statements@)
    } else {
        Seq::<char>::empty()
    }) + (if has_enum(p.statements@) {
        "## 枚举\n\n"@ + enums_text(p.statements@)
    } else {
        Seq::<char>::empty()
    })
}

/// Which kind of declaration an item is: 0 function, 1 struct, 2 enum.
pub open spec fn is_kind(item: DocItem, kind: u8) -> bool {
    match item {
        DocItem::Function(_) => kind == 0,
        DocItem::Struct(_) => kind == 1,
        DocItem::Enum(_) => kind == 2,
        DocItem::Other => false,
    }
}

fn has_kind(items: &Vec<DocItem>, kind: u8) -> (b: bool)
    requires
        kind <= 2,
    ensures
        kind == 0 ==> b == has_function(items@),
        kind == 1 ==> b == has_struct(items@),
        kind == 2 ==> b == has_enum(items@),
{
    let mut i: usize = 0;
    while i < items.len()
        invariant
            i <= items.len(),
            kind <= 2,
            forall|j: int| 0 <= j < i ==> !is_kind(#[trigger] items@[j], kind),
        decreases items.len() - i,
    {
        let hit = match &items[i] {
            DocItem::Function(_) => kind == 0,
            DocItem::Struct(_) => kind == 1,
            DocItem::Enum(_) => kind == 2,
            DocItem::Other => false,
        };
        if hit {
            assert(is_kind(items@[i as int], kind));
            return true;
        }
        i += 1;
    }
    proof {
        if kind == 0 && has_function(items@) {
            let j = choose|j: int| 0 <= j < items@.len() && #[trigger] items@[j] is Function;
            assert(is_kind(items@[j], kind));
        }
        if kind == 1 && has_struct(items@) {
            let j = choose|j: int| 0 <= j < items@.len() && #[trigger] items@[j] is Struct;
            assert(is_kind(items@[j], kind));
        }
        if kind == 2 && has_enum(items@) {
            let j = choose|j: int| 0 <= j < items@.len() && #[trigger] items@[j] is Enum;
            assert(is_kind(items@[j], kind));
        }
    }
    false
}

fn push_imports_section(out: &mut String, imports: &Vec<DocImport>)
    ensures
        final(out)@ == old(out)@ + (if imports@.len() > 0 {
            "## 导入\n\n"@ + imports_text(imports@) + seq!['\n']
        } else {
            Seq::<char>::empty()
        }),
{
    if imports.len() > 0 {
        out.append("## 导入\n\n");
        let ghost start = out@;
        let mut i: usize = 0;
        while i < imports.len()
            invariant
                i <= imports@.len(),
                out@ == start + imports_text(imports@.take(i as int)),
            decreases imports.len() - i,
        {
            out.append("- ");
            let t = render_import(&imports[i]);
            out.append(t.as_str());
            push_char(out, '\n');
            proof {
                let t = imports@.take(i + 1);
                assert(t.drop_last() == imports@.take(i as int));
                assert(t.last() == imports@[i as int]);
            }
            i += 1;
        }
        assert(imports@.take(imports.len() as int) == imports@);
        push_char(out, '\n');
    } else {
        assert(old(out)@ + Seq::<char>::empty() == old(out)@);
    }
}

fn push_functions_section(out: &mut String, items: &Vec<DocItem>)
    ensures
        final(out)@ == old(out)@ + (if has_function(items@) {
            "## 函数\n\n"@ + functions_text(items@)
        } else {
            Seq::<char>::empty()
        }),
{
    if has_kind(items, 0) {
        out.append("## 函数\n\n");
        let ghost start = out@;
        let mut i: usize = 0;
        while i < items.len()
            invariant
                i <= items@.len(),
                out@ == start + functions_text(items@.take(i as int)),
            decreases items.len() - i,
        {
            match &items[i] {
                DocItem::Function(f) => {
                    let t = render_function(f);
                    out.append(t.as_str());
                    push_char(out, '\n');
                },
                _ => {},
            }
            proof {
                let t = items@.take(i + 1);
                assert(t.drop_last() == items@.take(i as int));
                assert(t.last() == items@[i as int]);
            }
            i += 1;
        }
        assert(items@.take(items.len() as int) == items@);
    } else {
        assert(old(out)@ + Seq::<char>::empty() == old(out)@);
    }
}

fn push_structs_section(out: &mut String, items: &Vec<DocItem>)
    ensures
        final(out)@ == old(out)@ + (if has_struct(items@) {
            "## 结构体\n\n"@ + structs_text(items@)
        } else {
            Seq::<char>::empty()
        }),
{
    if has_kind(items, 1) {
        out.append("## 结构体\n\n");
        let ghost start = out@;
        let mut i: usize = 0;
        while i < items.len()
            invariant
                i <= items@.len(),
                out@ == start + structs_text(items@.take(i as int)),
            decreases items.len() - i,
        {
            match &items[i] {
                DocItem::Struct(st) => {
                    let t = render_struct(st);
                    out.append(t.as_str());
                    push_char(out, '\n');
                },
                _ => {},
            }
            proof {
                let t = items@.take(i + 1);
                assert(t.drop_last() == items@.take(i as int));
                assert(t.last() == items@[i as int]);
            }
            i += 1;
        }
        assert(items@.take(items.len() as int) == items@);
    } else {
        assert(old(out)@ + Seq::<char>::empty() == old(out)@);
    }
}

fn push_enums_section(out: &mut String, items: &Vec<DocItem>)
    ensures
        final(out)@ == old(out)@ + (if has_enum(items@) {
            "## 枚举\n\n"@ + enums_text(items@)
        } else {
            Seq::<char>::empty()
        }),
{
    if has_kind(items, 2) {
        out.append("## 枚举\n\n");
        let ghost start = out@;
        let mut i: usize = 0;
        while i < items.len()
            invariant
                i <= items@.len(),
                out@ == start + enums_text(items@.take(i as int)),
            decreases items.len() - i,
        {
            match &items[i] {
                DocItem::Enum(e) => {
                    let t = render_enum(e);
                    out.append(t.as_str());
                    push_char(out, '\n');
                },
                _ => {},
            }
            proof {
                let t = items@.take(i + 1);
                assert(t.drop_last() == items@.take(i as int));
                assert(t.last() == items@[i as int]);
            }
            i += 1;
        }
        assert(items@.take(items.len() as int) == items@);
    } else {
        assert(old(out)@ + Seq::<char>::empty() == old(out)@);
    }
}

/// The Markdown documentation of a program; `file_name` becomes the title when given.
#[verifier::rlimit(40)]
pub fn render_program(program: &DocProgram, file_name: Option<&str>) -> (out: String)
    ensures
        out@ == program_text(
            *program,
            match file_name {
                Some(f) => Some(f@),
                None => None,
            },
        ),
{
    let mut out = String::new();
    out.append("# ");
    match file_name {
        Some(f) => {
            out.append(f);
        },
        None => match &program.package_name {
            Some(pkg) => {
                out.append(pkg.as_str());
            },
            None => {
                out.append("Qi 模块");
            },
        },
    }
    out.append("\n\n");
    match &program.package_name {
        Some(pkg) => {
            out.append("**包**: `");
            out.append(pkg.as_str());
            out.append("`\n\n");
        },
        None => {},
    }
    let ghost head = out@;
    push_imports_section(&mut out, &program.imports);
    let ghost a = out@;
    push_functions_section(&mut out, &program.statements);
    let ghost b = out@;
    push_structs_section(&mut out, &program.statements);
    let ghost c = out@;
    push_enums_section(&mut out, &program.statements);
    proof {
        let fname = match file_name {
            Some(f) => Some(f@),
            None => None,
        };
        assert(head == "# "@ + title_text(*program, fname) + "\n\n"@ + (match program.package_name {
            Some(pkg) => "**包**: `"@ + pkg@ + "`\n\n"@,
            None => Seq::<char>::empty(),
        }));
    }
    out
}

} // verus!
