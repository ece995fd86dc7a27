//! Qi `外部` (extern "C") declarations from C function prototypes.
//!
//! A C header is read with libclang (outside this library); each top-level
//! function prototype becomes a plain record of its type kinds. This library
//! maps the C types to Qi types, decides which functions can be bound and
//! which are skipped (with a reason), and renders the `.qi` text.

pub mod collect;
pub mod ctypes;
pub mod generate;

use vstd::prelude::*;

verus! {

/// Qi parameter types that an `外部` declaration can take.
#[derive(Debug, Clone, Copy, PartialEq, Eq, Structural)]
pub enum QiParamType {
    /// `整数`
    Integer,
    /// `浮点数`
    Float,
    /// `布尔`
    Bool,
    /// `字符串`
    Str,
    /// `指针` (an opaque handle)
    Pointer,
}

impl QiParamType {
    /// The Qi spelling of the type.
    pub open spec fn spec_name(self) -> Seq<char> {
        match self {
            QiParamType::Integer => "整数"@,
            QiParamType::Float => "浮点数"@,
            QiParamType::Bool => "布尔"@,
            QiParamType::Str => "字符串"@,
            QiParamType::Pointer => "指针"@,
        }
    }

    /// The Qi spelling of the type.
    pub fn name(self) -> (s: &'static str)
        ensures
            s@ == self.spec_name(),
    {
        match self {
            QiParamType::Integer => "整数",
            QiParamType::Float => "浮点数",
            QiParamType::Bool => "布尔",
            QiParamType::Str => "字符串",
            QiParamType::Pointer => "指针",
        }
    }
}

/// Qi return types that an `外部` declaration can have.
#[derive(Debug, Clone, Copy, PartialEq, Eq, Structural)]
pub enum QiRetType {
    /// `整数`
    Integer,
    /// `浮点数`
    Float,
    /// `布尔`
    Bool,
    /// `空` (no value)
    Void,
    /// `字符串`, copied into a Qi string at the call
    Str,
    /// `指针` (an opaque handle)
    Pointer,
}

impl QiRetType {
    /// The Qi spelling of the type.
    pub open spec fn spec_name(self) -> Seq<char> {
        match self {
            QiRetType::Integer => "整数"@,
            QiRetType::Float => "浮点数"@,
            QiRetType::Bool => "布尔"@,
            QiRetType::Void => "空"@,
            QiRetType::Str => "字符串"@,
            QiRetType::Pointer => "指针"@,
        }
    }

    /// The Qi spelling of the type.
    pub fn name(self) -> (s: &'static str)
        ensures
            s@ == self.spec_name(),
    {
        match self {
            QiRetType::Integer => "整数",
            QiRetType::Float => "浮点数",
            QiRetType::Bool => "布尔",
            QiRetType::Void => "空",
            QiRetType::Str => "字符串",
            QiRetType::Pointer => "指针",
        }
    }
}

/// A function that can be bound.
#[derive(Debug, Clone)]
pub struct MappedFn {
    pub name: String,
    /// Parameter names and types; unnamed parameters are called `p0`, `p1`, ...
    pub params: Vec<(String, QiParamType)>,
    pub ret: QiRetType,
}

/// A function that is skipped, with the reason (rendered as a comment).
#[derive(Debug, Clone)]
pub struct SkippedFn {
    pub name: String,
    pub reason: String,
}

/// The functions of one header: those bound and those skipped.
#[derive(Debug)]
pub struct BindgenResult {
    pub mapped: Vec<MappedFn>,
    pub skipped: Vec<SkippedFn>,
}

impl Default for BindgenResult {
    fn default() -> (r: Self)
        ensures
            r.mapped@.len() == 0,
            r.skipped@.len() == 0,
    {
        BindgenResult { mapped: Vec::new(), skipped: Vec::new() }
    }
}

} // verus!
