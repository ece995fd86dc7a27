//! Laws of the documentation text: each list is rendered item by item, in
//! order, so rendering a concatenation gives the concatenation of the parts.

use super::{DocField, DocImport, DocItem, DocMethod, DocParam, DocType, DocVariant, enum_text, enums_text, field_text, fields_text, function_text, functions_text, import_text, imports_text, method_text, methods_text, param_text, params_text, path_text, struct_text, structs_text, type_text, types_text, variant_text, variants_text};
use vstd::prelude::*;

verus! {

proof fn lemma_imports_text_add(a: Seq<DocImport>, b: Seq<DocImport>)
    ensures
        imports_text(a + b) == imports_text(a) + imports_text(b),
    decreases b.len(),
{
    if b.len() == 0 {
        assert(a + b == a);
        assert(imports_text(a) + Seq::<char>::empty() == imports_text(a));
    } else {
        lemma_imports_text_add(a, b.drop_last());
        assert((a + b).drop_last() == a + b.drop_last());
        assert((a + b).last() == b.last());
        let e = "- "@ + import_text(b.last()) + seq!['\n'];
        assert(imports_text(a) + imports_text(b.drop_last()) + e == imports_text(a) + (imports_text(b.drop_last()) + e));
    }
}

/// The imports is rendered item by item: a concatenation of items renders as
/// the concatenation of their renderings, and one item renders as its own
/// text.
pub proof fn lemma_imports_text_items(a: Seq<DocImport>, b: Seq<DocImport>, x: DocImport)
    ensures
        imports_text(a + b) == imports_text(a) + imports_text(b),
        imports_text(seq![x]) == ("- "@ + import_text(x) + seq!['\n']),
{
    reveal_with_fuel(imports_text, 2);
    lemma_imports_text_add(a, b);
    assert(seq![x].drop_last() == Seq::<DocImport>::empty());
    assert(seq![x].last() == x);
    assert(Seq::<char>::empty() + ("- "@ + import_text(x) + seq!['\n']) == ("- "@ + import_text(x) + seq!['\n']));
}

proof fn lemma_functions_text_add(a: Seq<DocItem>, b: Seq<DocItem>)
    ensures
        functions_text(a + b) == functions_text(a) + functions_text(b),
    decreases b.len(),
{
    if b.len() == 0 {
        assert(a + b == a);
        assert(functions_text(a) + Seq::<char>::empty() == functions_text(a));
    } else {
        lemma_functions_text_add(a, b.drop_last());
        assert((a + b).drop_last() == a + b.drop_last());
        assert((a + b).last() == b.last());
        let e = match b.last() { DocItem::Function(f) => function_text(f) + seq!['\n'], _ => Seq::<char>::empty() };
        assert(functions_text(a) + functions_text(b.drop_last()) + e == functions_text(a) + (functions_text(b.drop_last()) + e));
    }
}

/// The functions section is rendered item by item: a concatenation of items renders as
/// the concatenation of their renderings, and one item renders as its own
/// text.
pub proof fn lemma_functions_text_items(a: Seq<DocItem>, b: Seq<DocItem>, x: DocItem)
    ensures
        functions_text(a + b) == functions_text(a) + functions_text(b),
        functions_text(seq![x]) == (match x { DocItem::Function(f) => function_text(f) + seq!['\n'], _ => Seq::<char>::empty() }),
{
    reveal_with_fuel(functions_text, 2);
    lemma_functions_text_add(a, b);
    assert(seq![x].drop_last() == Seq::<DocItem>::empty());
    assert(seq![x].last() == x);
    assert(Seq::<char>::empty() + (match x { DocItem::Function(f) => function_text(f) + seq!['\n'], _ => Seq::<char>::empty() }) == (match x { DocItem::Function(f) => function_text(f) + seq!['\n'], _ => Seq::<char>::empty() }));
}

proof fn lemma_structs_text_add(a: Seq<DocItem>, b: Seq<DocItem>)
    ensures
        structs_text(a + b) == structs_text(a) + structs_text(b),
    decreases b.len(),
{
    if b.len() == 0 {
        assert(a + b == a);
        assert(structs_text(a) + Seq::<char>::empty() == structs_text(a));
    } else {
        lemma_structs_text_add(a, b.drop_last());
        assert((a + b).drop_last() == a + b.drop_last());
        assert((a + b).last() == b.last());
        let e = match b.last() { DocItem::Struct(st) => struct_text(st) + seq!['\n'], _ => Seq::<char>::empty() };
        assert(structs_text(a) + structs_text(b.drop_last()) + e == structs_text(a) + (structs_text(b.drop_last()) + e));
    }
}

/// The structs section is rendered item by item: a concatenation of items renders as
/// the concatenation of their renderings, and one item renders as its own
/// text.
pub proof fn lemma_structs_text_items(a: Seq<DocItem>, b: Seq<DocItem>, x: DocItem)
    ensures
        structs_text(a + b) == structs_text(a) + structs_text(b),
        structs_text(seq![x]) == (match x { DocItem::Struct(st) => struct_text(st) + seq!['\n'], _ => Seq::<char>::empty() }),
{
    reveal_with_fuel(structs_text, 2);
    lemma_structs_text_add(a, b);
    assert(seq![x].drop_last() == Seq::<DocItem>::empty());
    assert(seq![x].last() == x);
    assert(Seq::<char>::empty() + (match x { DocItem::Struct(st) => struct_text(st) + seq!['\n'], _ => Seq::<char>::empty() }) == (match x { DocItem::Struct(st) => struct_text(st) + seq!['\n'], _ => Seq::<char>::empty() }));
}

proof fn lemma_enums_text_add(a: Seq<DocItem>, b: Seq<DocItem>)
    ensures
        enums_text(a + b) == enums_text(a) + enums_text(b),
    decreases b.len(),
{
    if b.len() == 0 {
        assert(a + b == a);
        assert(enums_text(a) + Seq::<char>::empty() == enums_text(a));
    } else {
        lemma_enums_text_add(a, b.drop_last());
        assert((a + b).drop_last() == a + b.drop_last());
        assert((a + b).last() == b.last());
        let e = match b.last() { DocItem::Enum(e) => enum_text(e) + seq!['\n'], _ => Seq::<char>::empty() };
        assert(enums_text(a) + enums_text(b.drop_last()) + e == enums_text(a) + (enums_text(b.drop_last()) + e));
    }
}

/// The enums section is rendered item by item: a concatenation of items renders as
/// the concatenation of their renderings, and one item renders as its own
/// text.
pub proof fn lemma_enums_text_items(a: Seq<DocItem>, b: Seq<DocItem>, x: DocItem)
    ensures
        enums_text(a + b) == enums_text(a) + enums_text(b),
        enums_text(seq![x]) == (match x { DocItem::Enum(e) => enum_text(e) + seq!['\n'], _ => Seq::<char>::empty() }),
{
    reveal_with_fuel(enums_text, 2);
    lemma_enums_text_add(a, b);
    assert(seq![x].drop_last() == Seq::<DocItem>::empty());
    assert(seq![x].last() == x);
    assert(Seq::<char>::empty() + (match x { DocItem::Enum(e) => enum_text(e) + seq!['\n'], _ => Seq::<char>::empty() }) == (match x { DocItem::Enum(e) => enum_text(e) + seq!['\n'], _ => Seq::<char>::empty() }));
}

proof fn lemma_fields_text_add(a: Seq<DocField>, b: Seq<DocField>)
    ensures
        fields_text(a + b) == fields_text(a) + fields_text(b),
    decreases b.len(),
{
    if b.len() == 0 {
        assert(a + b == a);
        assert(fields_text(a) + Seq::<char>::empty() == fields_text(a));
    } else {
        lemma_fields_text_add(a, b.drop_last());
        assert((a + b).drop_last() == a + b.drop_last());
        assert((a + b).last() == b.last());
        let e = field_text(b.last());
        assert(fields_text(a) + fields_text(b.drop_last()) + e == fields_text(a) + (fields_text(b.drop_last()) + e));
    }
}

/// The field table is rendered item by item: a concatenation of items renders as
/// the concatenation of their renderings, and one item renders as its own
/// text.
pub proof fn lemma_fields_text_items(a: Seq<DocField>, b: Seq<DocField>, x: DocField)
    ensures
        fields_text(a + b) == fields_text(a) + fields_text(b),
        fields_text(seq![x]) == (field_text(x)),
{
    reveal_with_fuel(fields_text, 2);
    lemma_fields_text_add(a, b);
    assert(seq![x].drop_last() == Seq::<DocField>::empty());
    assert(seq![x].last() == x);
    assert(Seq::<char>::empty() + (field_text(x)) == (field_text(x)));
}

proof fn lemma_methods_text_add(a: Seq<DocMethod>, b: Seq<DocMethod>)
    ensures
        methods_text(a + b) == methods_text(a) + methods_text(b),
    decreases b.len(),
{
    if b.len() == 0 {
        assert(a + b == a);
        assert(methods_text(a) + Seq::<char>::empty() == methods_text(a));
    } else {
        lemma_methods_text_add(a, b.drop_last());
        assert((a + b).drop_last() == a + b.drop_last());
        assert((a + b).last() == b.last());
        let e = method_text(b.last());
        assert(methods_text(a) + methods_text(b.drop_last()) + e == methods_text(a) + (methods_text(b.drop_last()) + e));
    }
}

/// The method list is rendered item by item: a concatenation of items renders as
/// the concatenation of their renderings, and one item renders as its own
/// text.
pub proof fn lemma_methods_text_items(a: Seq<DocMethod>, b: Seq<DocMethod>, x: DocMethod)
    ensures
        methods_text(a + b) == methods_text(a) + methods_text(b),
        methods_text(seq![x]) == (method_text(x)),
{
    reveal_with_fuel(methods_text, 2);
    lemma_methods_text_add(a, b);
    assert(seq![x].drop_last() == Seq::<DocMethod>::empty());
    assert(seq![x].last() == x);
    assert(Seq::<char>::empty() + (method_text(x)) == (method_text(x)));
}

proof fn lemma_variants_text_add(a: Seq<DocVariant>, b: Seq<DocVariant>)
    ensures
        variants_text(a + b) == variants_text(a) + variants_text(b),
    decreases b.len(),
{
    if b.len() == 0 {
        assert(a + b == a);
        assert(variants_text(a) + Seq::<char>::empty() == variants_text(a));
    } else {
        lemma_variants_text_add(a, b.drop_last());
        assert((a + b).drop_last() == a + b.drop_last());
        assert((a + b).last() == b.last());
        let e = variant_text(b.last());
        assert(variants_text(a) + variants_text(b.drop_last()) + e == variants_text(a) + (variants_text(b.drop_last()) + e));
    }
}

/// The variant list is rendered item by item: a concatenation of items renders as
/// the concatenation of their renderings, and one item renders as its own
/// text.
pub proof fn lemma_variants_text_items(a: Seq<DocVariant>, b: Seq<DocVariant>, x: DocVariant)
    ensures
        variants_text(a + b) == variants_text(a) + variants_text(b),
        variants_text(seq![x]) == (variant_text(x)),
{
    reveal_with_fuel(variants_text, 2);
    lemma_variants_text_add(a, b);
    assert(seq![x].drop_last() == Seq::<DocVariant>::empty());
    assert(seq![x].last() == x);
    assert(Seq::<char>::empty() + (variant_text(x)) == (variant_text(x)));
}

proof fn lemma_types_text_add(a: Seq<DocType>, b: Seq<DocType>)
    requires
        a.len() > 0,
        b.len() > 0,
    ensures
        types_text(a + b) == types_text(a) + ", "@ + types_text(b),
    decreases b.len(),
{
    assert((a + b).drop_last() == a + b.drop_last());
    assert((a + b).last() == b.last());
    if b.len() == 1 {
        assert(a + b.drop_last() == a);
        assert(b[0] == b.last());
    } else {
        lemma_types_text_add(a, b.drop_last());
        let e = type_text(b.last());
        assert(types_text(a) + ", "@ + types_text(b.drop_last()) + ", "@ + e == types_text(a) + ", "@ + (types_text(b.drop_last()) + ", "@ + e));
    }
}

/// The type arguments are rendered one by one, in order, separated: a concatenation of
/// two non-empty lists renders as the two renderings with the separator
/// between them, and one item renders as its own text.
pub proof fn lemma_types_text_items(a: Seq<DocType>, b: Seq<DocType>, x: DocType)
    ensures
        a.len() > 0 && b.len() > 0 ==> types_text(a + b) == types_text(a) + ", "@ + types_text(b),
        a.len() == 0 ==> types_text(a + b) == types_text(b),
        b.len() == 0 ==> types_text(a + b) == types_text(a),
        types_text(seq![x]) == (type_text(x)),
{
    if a.len() > 0 && b.len() > 0 {
        lemma_types_text_add(a, b);
    }
    if a.len() == 0 {
        assert(a + b == b);
    }
    if b.len() == 0 {
        assert(a + b == a);
    }
}

proof fn lemma_params_text_add(a: Seq<DocParam>, b: Seq<DocParam>)
    requires
        a.len() > 0,
        b.len() > 0,
    ensures
        params_text(a + b) == params_text(a) + ", "@ + params_text(b),
    decreases b.len(),
{
    assert((a + b).drop_last() == a + b.drop_last());
    assert((a + b).last() == b.last());
    if b.len() == 1 {
        assert(a + b.drop_last() == a);
        assert(b[0] == b.last());
    } else {
        lemma_params_text_add(a, b.drop_last());
        let e = param_text(b.last());
        assert(params_text(a) + ", "@ + params_text(b.drop_last()) + ", "@ + e == params_text(a) + ", "@ + (params_text(b.drop_last()) + ", "@ + e));
    }
}

/// The parameters are rendered one by one, in order, separated: a concatenation of
/// two non-empty lists renders as the two renderings with the separator
/// between them, and one item renders as its own text.
pub proof fn lemma_params_text_items(a: Seq<DocParam>, b: Seq<DocParam>, x: DocParam)
    ensures
        a.len() > 0 && b.len() > 0 ==> params_text(a + b) == params_text(a) + ", "@ + params_text(b),
        a.len() == 0 ==> params_text(a + b) == params_text(b),
        b.len() == 0 ==> params_text(a + b) == params_text(a),
        params_text(seq![x]) == (param_text(x)),
{
    if a.len() > 0 && b.len() > 0 {
        lemma_params_text_add(a, b);
    }
    if a.len() == 0 {
        assert(a + b == b);
    }
    if b.len() == 0 {
        assert(a + b == a);
    }
}

proof fn lemma_path_text_add(a: Seq<String>, b: Seq<String>)
    requires
        a.len() > 0,
        b.len() > 0,
    ensures
        path_text(a + b) == path_text(a) + seq!['.'] + path_text(b),
    decreases b.len(),
{
    assert((a + b).drop_last() == a + b.drop_last());
    assert((a + b).last() == b.last());
    if b.len() == 1 {
        assert(a + b.drop_last() == a);
        assert(b[0] == b.last());
    } else {
        lemma_path_text_add(a, b.drop_last());
        let e = b.last()@;
        assert(path_text(a) + seq!['.'] + path_text(b.drop_last()) + seq!['.'] + e == path_text(a) + seq!['.'] + (path_text(b.drop_last()) + seq!['.'] + e));
    }
}

/// The module path are rendered one by one, in order, separated: a concatenation of
/// two non-empty lists renders as the two renderings with the separator
/// between them, and one item renders as its own text.
pub proof fn lemma_path_text_items(a: Seq<String>, b: Seq<String>, x: String)
    ensures
        a.len() > 0 && b.len() > 0 ==> path_text(a + b) == path_text(a) + seq!['.'] + path_text(b),
        a.len() == 0 ==> path_text(a + b) == path_text(b),
        b.len() == 0 ==> path_text(a + b) == path_text(a),
        path_text(seq![x]) == (x@),
{
    if a.len() > 0 && b.len() > 0 {
        lemma_path_text_add(a, b);
    }
    if a.len() == 0 {
        assert(a + b == b);
    }
    if b.len() == 0 {
        assert(a + b == a);
    }
}

} // verus!
