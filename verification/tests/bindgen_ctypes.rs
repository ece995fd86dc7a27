use clang_sys::{CXType_Bool, CXType_Char16, CXType_Char32, CXType_Char_S, CXType_Char_U, CXType_ConstantArray, CXType_Double, CXType_Enum, CXType_Float, CXType_FunctionNoProto, CXType_FunctionProto, CXType_IncompleteArray, CXType_Int, CXType_Int128, CXType_Long, CXType_LongDouble, CXType_LongLong, CXType_Pointer, CXType_Record, CXType_SChar, CXType_Short, CXType_UChar, CXType_UInt, CXType_UInt128, CXType_ULong, CXType_ULongLong, CXType_UShort, CXType_Vector, CXType_Void, CXType_WChar};
use qi_tools::bindgen::ctypes as k;
use qi_tools::bindgen::ctypes::{classify_pointee, map_param, map_ret, PointeeKind};
use qi_tools::bindgen::{QiParamType, QiRetType};

#[test]
fn integer_family_mapping() {
    assert_eq!(map_param(CXType_Int, None), Ok(QiParamType::Integer));
    assert_eq!(map_param(CXType_Long, None), Ok(QiParamType::Integer));
    assert_eq!(map_param(CXType_ULongLong, None), Ok(QiParamType::Integer));
    assert_eq!(map_param(CXType_Enum, None), Ok(QiParamType::Integer));
}

#[test]
fn float_mapping() {
    assert_eq!(map_param(CXType_Double, None), Ok(QiParamType::Float));
    assert_eq!(map_param(CXType_Float, None), Ok(QiParamType::Float));
    assert!(map_param(CXType_LongDouble, None).is_err());
}

#[test]
fn bool_mapping() {
    assert_eq!(map_param(CXType_Bool, None), Ok(QiParamType::Bool));
}

#[test]
fn char_pointer_maps_to_string() {
    assert_eq!(map_param(CXType_Pointer, Some(PointeeKind::Char)), Ok(QiParamType::Str));
}

#[test]
fn v2_object_pointer_maps_to_pointer() {
    assert_eq!(map_param(CXType_Pointer, Some(PointeeKind::Other)), Ok(QiParamType::Pointer));
    assert_eq!(map_param(CXType_Pointer, None), Ok(QiParamType::Pointer));
}

#[test]
fn v2_function_pointer_param_skipped() {
    assert!(map_param(CXType_Pointer, Some(PointeeKind::Function)).is_err());
}

#[test]
fn struct_param_skipped() {
    assert!(map_param(CXType_Record, None).is_err());
}

#[test]
fn void_return_maps_to_void() {
    assert_eq!(map_ret(CXType_Void, None), Ok(QiRetType::Void));
}

#[test]
fn v2_char_pointer_return_maps_to_string() {
    assert_eq!(map_ret(CXType_Pointer, Some(PointeeKind::Char)), Ok(QiRetType::Str));
}

#[test]
fn v2_object_pointer_return_maps_to_pointer() {
    assert_eq!(map_ret(CXType_Pointer, Some(PointeeKind::Other)), Ok(QiRetType::Pointer));
}

#[test]
fn v2_function_pointer_return_skipped() {
    assert!(map_ret(CXType_Pointer, Some(PointeeKind::Function)).is_err());
}

#[test]
fn integer_float_bool_returns() {
    assert_eq!(map_ret(CXType_Long, None), Ok(QiRetType::Integer));
    assert_eq!(map_ret(CXType_Double, None), Ok(QiRetType::Float));
    assert_eq!(map_ret(CXType_Bool, None), Ok(QiRetType::Bool));
}

// Further cases.

#[test]
fn kind_values_are_libclang_values() {
    let pairs = [
        (k::CXType_Void, CXType_Void),
        (k::CXType_Bool, CXType_Bool),
        (k::CXType_Char_U, CXType_Char_U),
        (k::CXType_UChar, CXType_UChar),
        (k::CXType_Char16, CXType_Char16),
        (k::CXType_Char32, CXType_Char32),
        (k::CXType_UShort, CXType_UShort),
        (k::CXType_UInt, CXType_UInt),
        (k::CXType_ULong, CXType_ULong),
        (k::CXType_ULongLong, CXType_ULongLong),
        (k::CXType_UInt128, CXType_UInt128),
        (k::CXType_Char_S, CXType_Char_S),
        (k::CXType_SChar, CXType_SChar),
        (k::CXType_WChar, CXType_WChar),
        (k::CXType_Short, CXType_Short),
        (k::CXType_Int, CXType_Int),
        (k::CXType_Long, CXType_Long),
        (k::CXType_LongLong, CXType_LongLong),
        (k::CXType_Int128, CXType_Int128),
        (k::CXType_Float, CXType_Float),
        (k::CXType_Double, CXType_Double),
        (k::CXType_LongDouble, CXType_LongDouble),
        (k::CXType_Pointer, CXType_Pointer),
        (k::CXType_Record, CXType_Record),
        (k::CXType_Enum, CXType_Enum),
        (k::CXType_FunctionNoProto, CXType_FunctionNoProto),
        (k::CXType_FunctionProto, CXType_FunctionProto),
        (k::CXType_ConstantArray, CXType_ConstantArray),
        (k::CXType_IncompleteArray, CXType_IncompleteArray),
    ];
    for (mine, theirs) in pairs {
        assert_eq!(mine, theirs);
    }
}

#[test]
fn skip_reasons() {
    assert_eq!(map_param(CXType_LongDouble, None), Err("参数是 long double（ABI 与 f64 不兼容）".to_string()));
    assert_eq!(map_param(CXType_Void, None), Err("参数类型是 void".to_string()));
    assert_eq!(map_param(CXType_Int128, None), Err("参数是 128 位整数（无对应 Qi 类型）".to_string()));
    assert_eq!(map_param(CXType_ConstantArray, None), Err("参数是数组".to_string()));
    assert_eq!(map_param(CXType_FunctionProto, None), Err("参数是函数指针".to_string()));
    assert_eq!(map_param(CXType_Vector, None), Err("参数类型不被 C FFI 支持".to_string()));
    assert_eq!(map_ret(CXType_UInt128, None), Err("返回 128 位整数（无对应 Qi 类型）".to_string()));
    assert_eq!(map_ret(CXType_Record, None), Err("返回结构体/联合体（小结构体按值 bindgen 暂不自动生成，请手写）".to_string()));
    assert_eq!(map_ret(CXType_ConstantArray, None), Err("返回类型不被 C FFI 支持".to_string()));
}

#[test]
fn pointee_classes() {
    assert_eq!(classify_pointee(CXType_Char_S), PointeeKind::Char);
    assert_eq!(classify_pointee(CXType_UChar), PointeeKind::Char);
    assert_eq!(classify_pointee(CXType_FunctionProto), PointeeKind::Function);
    assert_eq!(classify_pointee(CXType_Void), PointeeKind::Other);
    assert_eq!(classify_pointee(CXType_Record), PointeeKind::Other);
}
