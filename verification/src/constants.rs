//! Numbers of the engine's interface.
use vstd::prelude::*;

verus! {

pub const JS_TAG_BIG_DECIMAL: i32 = -11;

pub const JS_TAG_BIG_INT: i32 = -10;

pub const JS_TAG_BIG_FLOAT: i32 = -9;

pub const JS_TAG_SYMBOL: i32 = -8;

pub const JS_TAG_STRING: i32 = -7;

pub const JS_TAG_MODULE: i32 = -3;

pub const JS_TAG_FUNCTION_BYTECODE: i32 = -2;

pub const JS_TAG_OBJECT: i32 = -1;

pub const JS_TAG_INT: i32 = 0;

pub const JS_TAG_BOOL: i32 = 1;

pub const JS_TAG_NULL: i32 = 2;

pub const JS_TAG_UNDEFINED: i32 = 3;

pub const JS_TAG_EXCEPTION: i32 = 6;

pub const JS_TAG_FLOAT64: i32 = 7;

/// The atom that names nothing.
pub const JS_ATOM_NULL: u32 = 0;

pub const JS_EVAL_TYPE_GLOBAL: u32 = 0;

pub const JS_EVAL_TYPE_MODULE: u32 = 1;

pub const JS_EVAL_TYPE_MASK: u32 = 3;

pub const JS_EVAL_FLAG_COMPILE_ONLY: u32 = 32;

pub const JS_PROP_CONFIGURABLE: u32 = 1;

pub const JS_PROP_ENUMERABLE: u32 = 4;

pub const JS_PROP_HAS_CONFIGURABLE: u32 = 256;

pub const JS_PROP_HAS_ENUMERABLE: u32 = 1024;

pub const JS_PROP_HAS_GET: u32 = 2048;

pub const JS_PROP_THROW: u32 = 16384;

pub const JS_GPN_STRING_MASK: u32 = 1;

pub const JS_GPN_SYMBOL_MASK: u32 = 2;

pub const JS_GPN_ENUM_ONLY: u32 = 16;

} // verus!
