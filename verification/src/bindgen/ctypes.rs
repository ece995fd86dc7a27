//! C type → Qi type mapping, on libclang's canonical type kinds.
//!
//! Signed, unsigned and character integers and enums become `整数`, `float` and
//! `double` become `浮点数`, `_Bool` becomes `布尔`; `char*` becomes `字符串`,
//! other object pointers (`void*`, `struct*`) become `指针`. Function pointers,
//! structs passed by value, arrays, `long double` and 128-bit integers are
//! skipped with a reason.

#![allow(non_upper_case_globals)]

use super::{QiParamType, QiRetType};
use vstd::prelude::*;

verus! {

// Values of libclang's `CXTypeKind` (clang-c/Index.h) that the mapping reads.
pub const CXType_Void: i32 = 2;
pub const CXType_Bool: i32 = 3;
pub const CXType_Char_U: i32 = 4;
pub const CXType_UChar: i32 = 5;
pub const CXType_Char16: i32 = 6;
pub const CXType_Char32: i32 = 7;
pub const CXType_UShort: i32 = 8;
pub const CXType_UInt: i32 = 9;
pub const CXType_ULong: i32 = 10;
pub const CXType_ULongLong: i32 = 11;
pub const CXType_UInt128: i32 = 12;
pub const CXType_Char_S: i32 = 13;
pub const CXType_SChar: i32 = 14;
pub const CXType_WChar: i32 = 15;
pub const CXType_Short: i32 = 16;
pub const CXType_Int: i32 = 17;
pub const CXType_Long: i32 = 18;
pub const CXType_LongLong: i32 = 19;
pub const CXType_Int128: i32 = 20;
pub const CXType_Float: i32 = 21;
pub const CXType_Double: i32 = 22;
pub const CXType_LongDouble: i32 = 23;
pub const CXType_Pointer: i32 = 101;
pub const CXType_Record: i32 = 105;
pub const CXType_Enum: i32 = 106;
pub const CXType_FunctionNoProto: i32 = 110;
pub const CXType_FunctionProto: i32 = 111;
pub const CXType_ConstantArray: i32 = 112;
pub const CXType_IncompleteArray: i32 = 114;

/// What a pointer points to, which decides how the pointer maps.
#[derive(Debug, Clone, Copy, PartialEq, Eq, Structural)]
pub enum PointeeKind {
    /// `char`, `signed char` or `unsigned char`: a C string.
    Char,
    /// A function: a callback, not bound automatically.
    Function,
    /// Anything else (`void`, a struct): an opaque handle.
    Other,
}

/// The integer kinds, enums and character kinds included.
pub open spec fn is_integer_kind(k: i32) -> bool {
    ||| k == CXType_Char_U
    ||| k == CXType_UChar
    ||| k == CXType_Char16
    ||| k == CXType_Char32
    ||| k == CXType_UShort
    ||| k == CXType_UInt
    ||| k == CXType_ULong
    ||| k == CXType_ULongLong
    ||| k == CXType_Char_S
    ||| k == CXType_SChar
    ||| k == CXType_WChar
    ||| k == CXType_Short
    ||| k == CXType_Int
    ||| k == CXType_Long
    ||| k == CXType_LongLong
    ||| k == CXType_Enum
}

fn integer_kind(k: i32) -> (b: bool)
    ensures
        b == is_integer_kind(k),
{
    k == CXType_Char_U || k == CXType_UChar || k == CXType_Char16 || k == CXType_Char32 || k
        == CXType_UShort || k == CXType_UInt || k == CXType_ULong || k == CXType_ULongLong || k
        == CXType_Char_S || k == CXType_SChar || k == CXType_WChar || k == CXType_Short || k
        == CXType_Int || k == CXType_Long || k == CXType_LongLong || k == CXType_Enum
}

/// The mapping of a parameter's canonical type kind: the Qi type, or the
/// reason the function is skipped.
pub open spec fn spec_map_param(kind: i32, pointee: Option<PointeeKind>) -> Result<
    QiParamType,
    Seq<char>,
> {
    if kind == CXType_Bool {
        Ok(QiParamType::Bool)
    } else if is_integer_kind(kind) {
        Ok(QiParamType::Integer)
    } else if kind == CXType_Float || kind == CXType_Double {
        Ok(QiParamType::Float)
    } else if kind == CXType_LongDouble {
        Err("参数是 long double（ABI 与 f64 不兼容）"@)
    } else if kind == CXType_Pointer {
        match pointee {
            Some(PointeeKind::Char) => Ok(QiParamType::Str),
            Some(PointeeKind::Function) => Err(
                "参数是函数指针（回调 bindgen 暂不自动生成，请手写 外部 声明）"@,
            ),
            _ => Ok(QiParamType::Pointer),
        }
    } else if kind == CXType_Void {
        Err("参数类型是 void"@)
    } else if kind == CXType_Int128 || kind == CXType_UInt128 {
        Err("参数是 128 位整数（无对应 Qi 类型）"@)
    } else if kind == CXType_Record {
        Err("参数是结构体/联合体（小结构体按值 bindgen 暂不自动生成，请手写）"@)
    } else if kind == CXType_ConstantArray || kind == CXType_IncompleteArray {
        Err("参数是数组"@)
    } else if kind == CXType_FunctionProto || kind == CXType_FunctionNoProto {
        Err("参数是函数指针"@)
    } else {
        Err("参数类型不被 C FFI 支持"@)
    }
}

/// The mapping of a return type's canonical kind: the Qi type, or the reason
/// the function is skipped.
pub open spec fn spec_map_ret(kind: i32, pointee: Option<PointeeKind>) -> Result<
    QiRetType,
    Seq<char>,
> {
    if kind == CXType_Void {
        Ok(QiRetType::Void)
    } else if kind == CXType_Bool {
        Ok(QiRetType::Bool)
    } else if is_integer_kind(kind) {
        Ok(QiRetType::Integer)
    } else if kind == CXType_Float || kind == CXType_Double {
        Ok(QiRetType::Float)
    } else if kind == CXType_LongDouble {
        Err("返回 long double（ABI 与 f64 不兼容）"@)
    } else if kind == CXType_Pointer {
        match pointee {
            Some(PointeeKind::Char) => Ok(QiRetType::Str),
            Some(PointeeKind::Function) => Err(
                "返回函数指针（bindgen 暂不自动生成，请手写 外部 声明）"@,
            ),
            _ => Ok(QiRetType::Pointer),
        }
    } else if kind == CXType_Int128 || kind == CXType_UInt128 {
        Err("返回 128 位整数（无对应 Qi 类型）"@)
    } else if kind == CXType_Record {
        Err("返回结构体/联合体（小结构体按值 bindgen 暂不自动生成，请手写）"@)
    } else {
        Err("返回类型不被 C FFI 支持"@)
    }
}

/// An executable result that matches a specified one, an error by its text.
pub open spec fn result_is<T>(r: Result<T, String>, s: Result<T, Seq<char>>) -> bool {
    match (r, s) {
        (Ok(a), Ok(b)) => a == b,
        (Err(e), Err(m)) => e@ == m,
        _ => false,
    }
}

/// Maps a parameter type: `Ok(type)`, or `Err(reason)` to skip the function.
pub fn map_param(kind: i32, pointee: Option<PointeeKind>) -> (r: Result<QiParamType, String>)
    ensures
        result_is(r, spec_map_param(kind, pointee)),
{
    if kind == CXType_Bool {
        Ok(QiParamType::Bool)
    } else if integer_kind(kind) {
        Ok(QiParamType::Integer)
    } else if kind == CXType_Float || kind == CXType_Double {
        Ok(QiParamType::Float)
    } else if kind == CXType_LongDouble {
        Err(String::from_str("参数是 long double（ABI 与 f64 不兼容）"))
    } else if kind == CXType_Pointer {
        match pointee {
            Some(PointeeKind::Char) => Ok(QiParamType::Str),
            Some(PointeeKind::Function) => Err(
                String::from_str(
                    "参数是函数指针（回调 bindgen 暂不自动生成，请手写 外部 声明）",
                ),
            ),
            _ => Ok(QiParamType::Pointer),
        }
    } else if kind == CXType_Void {
        Err(String::from_str("参数类型是 void"))
    } else if kind == CXType_Int128 || kind == CXType_UInt128 {
        Err(String::from_str("参数是 128 位整数（无对应 Qi 类型）"))
    } else if kind == CXType_Record {
        Err(String::from_str("参数是结构体/联合体（小结构体按值 bindgen 暂不自动生成，请手写）"))
    } else if kind == CXType_ConstantArray || kind == CXType_IncompleteArray {
        Err(String::from_str("参数是数组"))
    } else if kind == CXType_FunctionProto || kind == CXType_FunctionNoProto {
        Err(String::from_str("参数是函数指针"))
    } else {
        Err(String::from_str("参数类型不被 C FFI 支持"))
    }
}

/// Maps a return type: `Ok(type)`, or `Err(reason)` to skip the function.
pub fn map_ret(kind: i32, pointee: Option<PointeeKind>) -> (r: Result<QiRetType, String>)
    ensures
        result_is(r, spec_map_ret(kind, pointee)),
{
    if kind == CXType_Void {
        Ok(QiRetType::Void)
    } else if kind == CXType_Bool {
        Ok(QiRetType::Bool)
    } else if integer_kind(kind) {
        Ok(QiRetType::Integer)
    } else if kind == CXType_Float || kind == CXType_Double {
        Ok(QiRetType::Float)
    } else if kind == CXType_LongDouble {
        Err(String::from_str("返回 long double（ABI 与 f64 不兼容）"))
    } else if kind == CXType_Pointer {
        match pointee {
            Some(PointeeKind::Char) => Ok(QiRetType::Str),
            Some(PointeeKind::Function) => Err(
                String::from_str("返回函数指针（bindgen 暂不自动生成，请手写 外部 声明）"),
            ),
            _ => Ok(QiRetType::Pointer),
        }
    } else if kind == CXType_Int128 || kind == CXType_UInt128 {
        Err(String::from_str("返回 128 位整数（无对应 Qi 类型）"))
    } else if kind == CXType_Record {
        Err(String::from_str("返回结构体/联合体（小结构体按值 bindgen 暂不自动生成，请手写）"))
    } else {
        Err(String::from_str("返回类型不被 C FFI 支持"))
    }
}

/// How the canonical kind of a pointee classifies a pointer.
pub open spec fn spec_classify_pointee(kind: i32) -> PointeeKind {
    if kind == CXType_Char_S || kind == CXType_SChar || kind == CXType_Char_U || kind
        == CXType_UChar {
        PointeeKind::Char
    } else if kind == CXType_FunctionProto || kind == CXType_FunctionNoProto {
        PointeeKind::Function
    } else {
        PointeeKind::Other
    }
}

/// Classifies a pointer by the canonical kind of what it points to.
pub fn classify_pointee(kind: i32) -> (p: PointeeKind)
    ensures
        p == spec_classify_pointee(kind),
{
    if kind == CXType_Char_S || kind == CXType_SChar || kind == CXType_Char_U || kind
        == CXType_UChar {
        PointeeKind::Char
    } else if kind == CXType_FunctionProto || kind == CXType_FunctionNoProto {
        PointeeKind::Function
    } else {
        PointeeKind::Other
    }
}

/// A return type maps as a parameter of the same C type does: every C type
/// that is a valid parameter is a valid return type of the same Qi type, and
/// every valid return type other than `void` is a valid parameter of the same
/// Qi type.
pub proof fn lemma_return_mapping_agrees_with_parameters(kind: i32, pointee: Option<PointeeKind>)
    ensures
        spec_map_param(kind, pointee) is Ok ==> {
            &&& spec_map_ret(kind, pointee) is Ok
            &&& spec_map_ret(kind, pointee)->Ok_0.spec_name() == spec_map_param(kind, pointee)->Ok_0.spec_name()
        },
        spec_map_ret(kind, pointee) is Ok && kind != CXType_Void ==> {
            &&& spec_map_param(kind, pointee) is Ok
            &&& spec_map_ret(kind, pointee)->Ok_0.spec_name() == spec_map_param(kind, pointee)->Ok_0.spec_name()
        },
{
}

/// How each family of C types maps, for parameters and return types alike:
/// integers (characters and enums included) to `整数`, `float` and `double`
/// to `浮点数`, `_Bool` to `布尔`, `char*` to `字符串`, other data pointers to
/// `指针`; `void` only as a return type (`空`); function pointers, structs and
/// unions, `long double` and 128-bit integers are skipped.
pub proof fn lemma_c_type_families(kind: i32, pointee: Option<PointeeKind>)
    ensures
        kind == CXType_Char_U || kind == CXType_UChar || kind == CXType_Char16 || kind == CXType_Char32
            || kind == CXType_UShort || kind == CXType_UInt || kind == CXType_ULong || kind == CXType_ULongLong
            || kind == CXType_Char_S || kind == CXType_SChar || kind == CXType_WChar || kind == CXType_Short
            || kind == CXType_Int || kind == CXType_Long || kind == CXType_LongLong || kind == CXType_Enum ==> {
            &&& spec_map_param(kind, pointee) == Ok::<QiParamType, Seq<char>>(QiParamType::Integer)
            &&& spec_map_ret(kind, pointee) == Ok::<QiRetType, Seq<char>>(QiRetType::Integer)
        },
        kind == CXType_Float || kind == CXType_Double ==> {
            &&& spec_map_param(kind, pointee) == Ok::<QiParamType, Seq<char>>(QiParamType::Float)
            &&& spec_map_ret(kind, pointee) == Ok::<QiRetType, Seq<char>>(QiRetType::Float)
        },
        kind == CXType_Bool ==> {
            &&& spec_map_param(kind, pointee) == Ok::<QiParamType, Seq<char>>(QiParamType::Bool)
            &&& spec_map_ret(kind, pointee) == Ok::<QiRetType, Seq<char>>(QiRetType::Bool)
        },
        kind == CXType_Void ==> {
            &&& spec_map_param(kind, pointee) is Err
            &&& spec_map_ret(kind, pointee) == Ok::<QiRetType, Seq<char>>(QiRetType::Void)
        },
        kind == CXType_Pointer && pointee == Some(PointeeKind::Char) ==> {
            &&& spec_map_param(kind, pointee) == Ok::<QiParamType, Seq<char>>(QiParamType::Str)
            &&& spec_map_ret(kind, pointee) == Ok::<QiRetType, Seq<char>>(QiRetType::Str)
        },
        kind == CXType_Pointer && pointee != Some(PointeeKind::Char) && pointee != Some(
            PointeeKind::Function,
        ) ==> {
            &&& spec_map_param(kind, pointee) == Ok::<QiParamType, Seq<char>>(QiParamType::Pointer)
            &&& spec_map_ret(kind, pointee) == Ok::<QiRetType, Seq<char>>(QiRetType::Pointer)
        },
        (kind == CXType_Pointer && pointee == Some(PointeeKind::Function)) || kind == CXType_Record
            || kind == CXType_LongDouble || kind == CXType_Int128 || kind == CXType_UInt128 || kind
            == CXType_FunctionProto || kind == CXType_FunctionNoProto ==> {
            &&& spec_map_param(kind, pointee) is Err
            &&& spec_map_ret(kind, pointee) is Err
        },
{
}

/// A pointer to a character kind is a C string, a pointer to a function a
/// callback, and any other pointer an opaque handle.
pub proof fn lemma_pointee_classes(kind: i32)
    ensures
        kind == CXType_Char_S || kind == CXType_SChar || kind == CXType_Char_U || kind == CXType_UChar
            <==> spec_classify_pointee(kind) == PointeeKind::Char,
        kind == CXType_FunctionProto || kind == CXType_FunctionNoProto <==> spec_classify_pointee(kind)
            == PointeeKind::Function,
{
}

} // verus!
