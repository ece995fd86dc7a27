//! Renders bound and skipped functions as the text of a `.qi` file.

use super::{BindgenResult, MappedFn, QiParamType, SkippedFn};
use crate::text::{decimal, push_char, push_decimal};
use vstd::prelude::*;

verus! {

/// `名: 类型` for one parameter.
pub open spec fn param_text(p: (String, QiParamType)) -> Seq<char> {
    p.0@ + ": "@ + p.1.spec_name()
}

/// The parameters, separated by `, `.
pub open spec fn params_text(ps: Seq<(String, QiParamType)>) -> Seq<char>
    decreases ps.len(),
{
    if ps.len() == 0 {
        Seq::empty()
    } else if ps.len() == 1 {
        param_text(ps[0])
    } else {
        params_text(ps.drop_last()) + ", "@ + param_text(ps.last())
    }
}

/// The declaration of a bound function.
pub open spec fn mapped_line(f: MappedFn) -> Seq<char> {
    "    函数 "@ + f.name@ + "("@ + params_text(f.params@) + "): "@ + f.ret.spec_name() + ";"@
}

/// The comment that records a skipped function.
pub open spec fn skipped_line(s: SkippedFn) -> Seq<char> {
    "    // 跳过 "@ + s.name@ + ": "@ + s.reason@
}

/// One declaration per bound function, each on its own line.
pub open spec fn mapped_block(ms: Seq<MappedFn>) -> Seq<char>
    decreases ms.len(),
{
    if ms.len() == 0 {
        Seq::empty()
    } else {
        mapped_block(ms.drop_last()) + mapped_line(ms.last()) + seq!['\n']
    }
}

/// One comment per skipped function, each on its own line.
pub open spec fn skipped_block(ss: Seq<SkippedFn>) -> Seq<char>
    decreases ss.len(),
{
    if ss.len() == 0 {
        Seq::empty()
    } else {
        skipped_block(ss.drop_last()) + skipped_line(ss.last()) + seq!['\n']
    }
}

/// The header comment: source header, library, prefix filter, counts.
pub open spec fn header_text(
    header: Seq<char>,
    lib: Seq<char>,
    prefix: Option<Seq<char>>,
    n_mapped: nat,
    n_skipped: nat,
) -> Seq<char> {
    "// 由 qi-bindgen 自动生成，请勿手工编辑。\n"@ + "// 来源头文件: "@ + header + seq!['\n']
        + "// 库: "@ + lib + seq!['\n'] + (match prefix {
        Some(p) => "// 前缀过滤: "@ + p + seq!['\n'],
        None => Seq::<char>::empty(),
    }) + "// 生成时间: <占位>\n"@ + "// 统计: 可映射 "@ + decimal(n_mapped) + " 个，跳过 "@
        + decimal(n_skipped) + " 个\n"@ + seq!['\n']
}

/// The part that records skipped functions, after a blank line when there are
/// bound functions before it; nothing when none was skipped.
pub open spec fn skipped_section(mapped: Seq<MappedFn>, skipped: Seq<SkippedFn>) -> Seq<char> {
    if skipped.len() == 0 {
        Seq::empty()
    } else {
        (if mapped.len() > 0 {
            seq!['\n']
        } else {
            Seq::<char>::empty()
        }) + "    // ==== 以下函数被跳过（类型暂不支持），仅作记录 ====\n"@ + skipped_block(skipped)
    }
}

/// The whole `.qi` file: the header comment, then the `外部 "lib" { ... }` block
/// with the declarations and the skipped functions as comments.
pub open spec fn render_spec(
    header: Seq<char>,
    lib: Seq<char>,
    prefix: Option<Seq<char>>,
    mapped: Seq<MappedFn>,
    skipped: Seq<SkippedFn>,
) -> Seq<char> {
    header_text(header, lib, prefix, mapped.len(), skipped.len()) + "外部 \""@ + lib + "\" {\n"@
        + mapped_block(mapped) + skipped_section(mapped, skipped) + "}\n"@
}

/// The text of the `.qi` file for the functions of `result`.
///
/// `header` is the path of the C header and `lib` the library name; `prefix` is
/// the prefix filter that was applied, recorded in the header comment.
pub fn render(header: &str, lib: &str, prefix: Option<&str>, result: &BindgenResult) -> (out:
    String)
    ensures
        out@ == render_spec(
            header@,
            lib@,
            match prefix {
                Some(p) => Some(p@),
                None => None,
            },
            result.mapped@,
            result.skipped@,
        ),
{
    let mut out = String::new();
    out.append("// 由 qi-bindgen 自动生成，请勿手工编辑。\n");
    out.append("// 来源头文件: ");
    out.append(header);
    push_char(&mut out, '\n');
    out.append("// 库: ");
    out.append(lib);
    push_char(&mut out, '\n');
    match prefix {
        Some(p) => {
            out.append("// 前缀过滤: ");
            out.append(p);
            push_char(&mut out, '\n');
        },
        None => {},
    }
    out.append("// 生成时间: <占位>\n");
    out.append("// 统计: 可映射 ");
    push_decimal(&mut out, result.mapped.len());
    out.append(" 个，跳过 ");
    push_decimal(&mut out, result.skipped.len());
    out.append(" 个\n");
    push_char(&mut out, '\n');
    let ghost head = out@;
    assert(head == header_text(
        header@,
        lib@,
        match prefix {
            Some(p) => Some(p@),
            None => None,
        },
        result.mapped@.len(),
        result.skipped@.len(),
    ));
    out.append("外部 \"");
    out.append(lib);
    out.append("\" {\n");
    let ghost before_mapped = out@;
    let mut i: usize = 0;
    while i < result.mapped.len()
        invariant
            i <= result.mapped@.len(),
            out@ == before_mapped + mapped_block(result.mapped@.take(i as int)),
        decreases result.mapped.len() - i,
    {
        let line = render_mapped(&result.mapped[i]);
        out.append(line.as_str());
        push_char(&mut out, '\n');
        proof {
            let ms = result.mapped@.take(i + 1);
            assert(ms.drop_last() == result.mapped@.take(i as int));
            assert(ms.last() == result.mapped@[i as int]);
        }
        i += 1;
    }
    assert(result.mapped@.take(result.mapped.len() as int) == result.mapped@);
    let ghost before_skipped = out@;
    if result.skipped.len() > 0 {
        if result.mapped.len() > 0 {
            push_char(&mut out, '\n');
        }
        out.append("    // ==== 以下函数被跳过（类型暂不支持），仅作记录 ====\n");
        let ghost before_lines = out@;
        let mut j: usize = 0;
        while j < result.skipped.len()
            invariant
                j <= result.skipped@.len(),
                out@ == before_lines + skipped_block(result.skipped@.take(j as int)),
            decreases result.skipped.len() - j,
        {
            let line = render_skipped(&result.skipped[j]);
            out.append(line.as_str());
            push_char(&mut out, '\n');
            proof {
                let ss = result.skipped@.take(j + 1);
                assert(ss.drop_last() == result.skipped@.take(j as int));
                assert(ss.last() == result.skipped@[j as int]);
            }
            j += 1;
        }
        assert(result.skipped@.take(result.skipped.len() as int) == result.skipped@);
    }
    assert(out@ == before_skipped + skipped_section(result.mapped@, result.skipped@));
    out.append("}\n");
    out
}

/// The declaration of one bound function.
fn render_mapped(f: &MappedFn) -> (s: String)
    ensures
        s@ == mapped_line(*f),
{
    let mut s = String::new();
    s.append("    函数 ");
    s.append(f.name.as_str());
    s.append("(");
    let ghost start = s@;
    let mut i: usize = 0;
    while i < f.params.len()
        invariant
            i <= f.params@.len(),
            s@ == start + params_text(f.params@.take(i as int)),
        decreases f.params.len() - i,
    {
        if i > 0 {
            s.append(", ");
        }
        let p = &f.params[i];
        s.append(p.0.as_str());
        s.append(": ");
        s.append(p.1.name());
        proof {
            let ps = f.params@.take(i + 1);
            assert(ps.drop_last() == f.params@.take(i as int));
            assert(ps.last() == f.params@[i as int]);
            if i == 0 {
                assert(ps.len() == 1);
                assert(ps[0] == f.params@[0]);
                assert(f.params@.take(0) == Seq::<(String, QiParamType)>::empty());
            }
        }
        i += 1;
    }
    assert(f.params@.take(f.params.len() as int) == f.params@);
    s.append("): ");
    s.append(f.ret.name());
    s.append(";");
    s
}

/// The comment for one skipped function.
fn render_skipped(s: &SkippedFn) -> (out: String)
    ensures
        out@ == skipped_line(*s),
{
    let mut out = String::new();
    out.append("    // 跳过 ");
    out.append(s.name.as_str());
    out.append(": ");
    out.append(s.reason.as_str());
    out
}

} // verus!
