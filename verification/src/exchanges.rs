//! What each operation asks the engine for, and what it gives back, exchange by exchange.
//!
//! The laws here take an operation at its word, as its contract has it, and say what that means
//! for the single exchanges of the record: which stands where, with which arguments, and how the
//! result of the operation is made of the answers.
use crate::constants::{
    JS_ATOM_NULL, JS_EVAL_FLAG_COMPILE_ONLY, JS_EVAL_TYPE_GLOBAL, JS_EVAL_TYPE_MASK,
    JS_EVAL_TYPE_MODULE, JS_GPN_ENUM_ONLY, JS_GPN_STRING_MASK, JS_GPN_SYMBOL_MASK,
    JS_PROP_CONFIGURABLE, JS_PROP_ENUMERABLE, JS_PROP_HAS_CONFIGURABLE, JS_PROP_HAS_ENUMERABLE,
    JS_PROP_HAS_GET, JS_PROP_THROW, JS_TAG_BIG_DECIMAL, JS_TAG_BIG_FLOAT, JS_TAG_BIG_INT,
    JS_TAG_BOOL, JS_TAG_EXCEPTION, JS_TAG_FLOAT64, JS_TAG_FUNCTION_BYTECODE, JS_TAG_INT,
    JS_TAG_MODULE, JS_TAG_NULL, JS_TAG_OBJECT, JS_TAG_STRING, JS_TAG_SYMBOL, JS_TAG_UNDEFINED,
};
use crate::engine::{Address, Exchange, JSValue};
use crate::text::{c_text, nul_free, text_of};
use crate::value::{
    after_encoding, after_encodings, after_release, all_dropped, are_raws_of, becomes,
    c_string_read, dropped, dropped_in_steps, is_counted, is_raw_of, questions, read_through,
    released, text_read, typed, with_raw, JsArray, JsArrayBuffer, JsBigNum, JsException, JsFunction,
    JsFunctionByteCode, JsModule, JsObject, JsPromise, JsRef, JsString, JsValue, Probe,
};
use vstd::prelude::*;
use vstd::std_specs::convert::FromSpec;
use vstd::utf8::{decode_utf8, encode_utf8, valid_utf8};

verus! {

/// The tags of the engine are the numbers that its interface gives them:
/// negative for what is counted or internal, from zero up for the rest.
pub proof fn law_tags_of_the_engine()
    ensures
        [JS_TAG_BIG_DECIMAL, JS_TAG_BIG_INT, JS_TAG_BIG_FLOAT, JS_TAG_SYMBOL, JS_TAG_STRING]@
            == seq![-11i32, -10i32, -9i32, -8i32, -7i32],
        [JS_TAG_MODULE, JS_TAG_FUNCTION_BYTECODE, JS_TAG_OBJECT]@ == seq![-3i32, -2i32, -1i32],
        [JS_TAG_INT, JS_TAG_BOOL, JS_TAG_NULL, JS_TAG_UNDEFINED]@ == seq![0i32, 1i32, 2i32, 3i32],
        [JS_TAG_EXCEPTION, JS_TAG_FLOAT64]@ == seq![6i32, 7i32],
{
}

/// The flags of the engine are the bits that its interface gives them.
pub proof fn law_flags_of_the_engine()
    ensures
        JS_ATOM_NULL == 0,
        [JS_EVAL_TYPE_GLOBAL, JS_EVAL_TYPE_MODULE, JS_EVAL_TYPE_MASK, JS_EVAL_FLAG_COMPILE_ONLY]@
            == seq![0u32, 1u32, 3u32, 32u32],
        [JS_PROP_CONFIGURABLE, JS_PROP_ENUMERABLE, JS_PROP_HAS_CONFIGURABLE]@ == seq![
            1u32,
            4u32,
            256u32,
        ],
        [JS_PROP_HAS_ENUMERABLE, JS_PROP_HAS_GET, JS_PROP_THROW]@ == seq![
            1024u32,
            2048u32,
            16384u32,
        ],
        [JS_GPN_STRING_MASK, JS_GPN_SYMBOL_MASK, JS_GPN_ENUM_ONLY]@ == seq![1u32, 2u32, 16u32],
{
}

/// The answers about a value go into it as they are: the number, the bits, the truth value, and
/// for everything else the context and the raw value that was asked about.
pub proof fn law_answers_go_into_the_value(ctx: Address, p: Probe)
    ensures
        typed(ctx, p) matches JsValue::Int(n) ==> n == p.int,
        typed(ctx, p) matches JsValue::Float(bits) ==> bits == p.bits,
        typed(ctx, p) matches JsValue::Bool(b) ==> (b <==> p.truth != 0),
        typed(ctx, p) matches JsValue::BigNum(x) ==> x.0 == (JsRef { ctx, v: p.v }),
        typed(ctx, p) matches JsValue::String(x) ==> x.0 == (JsRef { ctx, v: p.v }),
        typed(ctx, p) matches JsValue::Module(x) ==> x.0 == (JsRef { ctx, v: p.v }),
        typed(ctx, p) matches JsValue::Object(x) ==> x.0 == (JsRef { ctx, v: p.v }),
        typed(ctx, p) matches JsValue::Array(x) ==> x.0 == (JsRef { ctx, v: p.v }),
        typed(ctx, p) matches JsValue::Promise(x) ==> x.0 == (JsRef { ctx, v: p.v }),
        typed(ctx, p) matches JsValue::ArrayBuffer(x) ==> x.0 == (JsRef { ctx, v: p.v }),
        typed(ctx, p) matches JsValue::Function(x) ==> x.0 == (JsRef { ctx, v: p.v }),
        typed(ctx, p) matches JsValue::Exception(x) ==> x.0 == (JsRef { ctx, v: p.v }),
        typed(ctx, p) matches JsValue::FunctionByteCode(x) ==> x.0 == (JsRef { ctx, v: p.v }),
        typed(ctx, p) matches JsValue::Other(x) ==> x == (JsRef { ctx, v: p.v }),
{
}

/// What is asked about a value asks about it, and each answer goes where it belongs.
pub proof fn law_answers_are_kept_apart(ctx: Address, p: Probe, i: int)
    requires
        0 <= i < questions(ctx, p).len(),
    ensures
        i == 0 ==> questions(ctx, p)[i] == (Exchange::GetNormTag { v: p.v, ret: p.tag }),
        i > 0 ==> {
            ||| questions(ctx, p)[i] == (Exchange::ToInt32 { ctx, v: p.v, ret: p.int })
            ||| questions(ctx, p)[i] == (Exchange::ToFloat64 { ctx, v: p.v, ret: p.bits })
            ||| questions(ctx, p)[i] == (Exchange::ToBool { ctx, v: p.v, ret: p.truth })
            ||| questions(ctx, p)[i] == (Exchange::IsFunction { ctx, v: p.v, ret: p.is_function })
            ||| questions(ctx, p)[i] == (Exchange::IsArrayBuffer {
                ctx,
                v: p.v,
                ret: p.is_array_buffer,
            })
            ||| questions(ctx, p)[i] == (Exchange::IsArray { ctx, v: p.v, ret: p.is_array })
            ||| questions(ctx, p)[i] == (Exchange::IsPromise { ctx, v: p.v, ret: p.is_promise })
        },
{
}

/// Which kind a value has shows in the tag that the engine gave, and for an object in the
/// questions behind it: function, buffer, array and promise, up to the first yes.
pub proof fn law_kind_shows_in_the_record(
    before: Seq<Exchange>,
    after: Seq<Exchange>,
    ctx: Address,
    v: JSValue,
    x: JsValue,
)
    requires
        becomes(before, after, ctx, v, x),
    ensures
        before.is_prefix_of(after),
        after.len() > before.len(),
        ({
            &&& after[before.len() as int] matches Exchange::GetNormTag { v: w, ret: tag }
            &&& w == v
            &&& (x is Int <==> tag == 0)
            &&& (x is Float <==> tag == 7)
            &&& (x is Bool <==> tag == 1)
            &&& (x is Null <==> tag == 2)
            &&& (x is UnDefined <==> tag == 3)
            &&& (x is Exception <==> tag == 6)
            &&& (x is String <==> tag == -7)
            &&& (x is Module <==> tag == -3)
            &&& (x is FunctionByteCode <==> tag == -2)
            &&& (x is BigNum <==> -11 <= tag <= -9)
            &&& (x is Object || x is Function || x is ArrayBuffer || x is Array || x is Promise
                <==> tag == -1)
        }),
        x is Null || x is UnDefined || x is Exception || x is String || x is Module
            || x is FunctionByteCode || x is BigNum || x is Other ==> after.len() == before.len()
            + 1,
        x is Function ==> after.len() == before.len() + 2,
        x is ArrayBuffer ==> after.len() == before.len() + 3,
        x is Array ==> after.len() == before.len() + 4,
        x is Promise || x is Object ==> after.len() == before.len() + 5,
        x is Function ==> {
            &&& after[before.len() + 1int] matches Exchange::IsFunction { ctx: c, v: w, ret }
            &&& c == ctx && w == v && ret != 0
        },
        x is ArrayBuffer || x is Array || x is Promise || x is Object ==> after[before.len() + 1int]
            == (Exchange::IsFunction { ctx, v, ret: 0 }),
        x is ArrayBuffer ==> {
            &&& after[before.len() + 2int] matches Exchange::IsArrayBuffer { ctx: c, v: w, ret }
            &&& c == ctx && w == v && ret != 0
        },
        x is Array || x is Promise || x is Object ==> after[before.len() + 2int] == (
        Exchange::IsArrayBuffer { ctx, v, ret: 0 }),
        x is Array ==> {
            &&& after[before.len() + 3int] matches Exchange::IsArray { ctx: c, v: w, ret }
            &&& c == ctx && w == v && ret != 0
        },
        x is Promise || x is Object ==> after[before.len() + 3int] == (Exchange::IsArray {
            ctx,
            v,
            ret: 0,
        }),
        x is Promise ==> {
            &&& after[before.len() + 4int] matches Exchange::IsPromise { ctx: c, v: w, ret }
            &&& c == ctx && w == v && ret != 0
        },
        x is Object ==> after[before.len() + 4int] == (Exchange::IsPromise { ctx, v, ret: 0 }),
{
    let p = choose|p: Probe|
        p.v == v && after == before + #[trigger] questions(ctx, p) && x == typed(ctx, p);
    let q = questions(ctx, p);
    assert forall|i: int| 0 <= i < q.len() implies after[before.len() + i] == #[trigger] q[i] by {}
    assert(after[before.len() + 0int] == q[0]);
    if q.len() > 1 {
        assert(after[before.len() + 1int] == q[1]);
    }
    if q.len() > 2 {
        assert(after[before.len() + 2int] == q[2]);
    }
    if q.len() > 3 {
        assert(after[before.len() + 3int] == q[3]);
    }
    if q.len() > 4 {
        assert(after[before.len() + 4int] == q[4]);
    }
}

/// A number, a double or a truth value is what the engine answered behind its tag, and any other
/// value but `null` and `undefined` refers to the raw value that was asked about.
pub proof fn law_content_shows_in_the_record(
    before: Seq<Exchange>,
    after: Seq<Exchange>,
    ctx: Address,
    v: JSValue,
    x: JsValue,
)
    requires
        becomes(before, after, ctx, v, x),
    ensures
        x matches JsValue::Int(n) ==> after == before.push(
            Exchange::GetNormTag { v, ret: 0 },
        ).push(Exchange::ToInt32 { ctx, v, ret: n }),
        x matches JsValue::Float(bits) ==> after == before.push(
            Exchange::GetNormTag { v, ret: 7 },
        ).push(Exchange::ToFloat64 { ctx, v, ret: bits }),
        x matches JsValue::Bool(b) ==> {
            &&& after.len() == before.len() + 2
            &&& after[before.len() as int] == (Exchange::GetNormTag { v, ret: 1 })
            &&& after[before.len() + 1int] matches Exchange::ToBool { ctx: c, v: w, ret }
            &&& c == ctx && w == v
            &&& (b <==> ret != 0)
        },
        x matches JsValue::BigNum(y) ==> y.0 == (JsRef { ctx, v }),
        x matches JsValue::String(y) ==> y.0 == (JsRef { ctx, v }),
        x matches JsValue::Module(y) ==> y.0 == (JsRef { ctx, v }),
        x matches JsValue::Object(y) ==> y.0 == (JsRef { ctx, v }),
        x matches JsValue::Array(y) ==> y.0 == (JsRef { ctx, v }),
        x matches JsValue::Promise(y) ==> y.0 == (JsRef { ctx, v }),
        x matches JsValue::ArrayBuffer(y) ==> y.0 == (JsRef { ctx, v }),
        x matches JsValue::Function(y) ==> y.0 == (JsRef { ctx, v }),
        x matches JsValue::Exception(y) ==> y.0 == (JsRef { ctx, v }),
        x matches JsValue::FunctionByteCode(y) ==> y.0 == (JsRef { ctx, v }),
        x matches JsValue::Other(y) ==> y == (JsRef { ctx, v }),
{
    let p = choose|p: Probe|
        p.v == v && after == before + #[trigger] questions(ctx, p) && x == typed(ctx, p);
    let q = questions(ctx, p);
    assert(after[before.len() + 0int] == q[0]);
    if q.len() > 1 {
        assert(after[before.len() + 1int] == q[1]);
    }
    if x is Int || x is Float {
        assert(after =~= before.push(q[0]).push(q[1]));
    }
}

/// On its way to the engine a number is made of that number, a double of its bits, and a truth
/// value of one exactly where it is true, by one call without a context that gives the raw value.
/// Anything that refers to a raw value is that raw value, and no call is made.
pub proof fn law_encoding_shows_in_the_record(before: Seq<Exchange>, x: JsValue, raw: JSValue)
    requires
        is_raw_of(raw, x),
    ensures
        match x {
            JsValue::Int(n) => after_encoding(before, x, raw) == before.push(
                Exchange::NewInt32 { ctx: 0, value: n, ret: raw },
            ),
            JsValue::Float(bits) => after_encoding(before, x, raw) == before.push(
                Exchange::NewFloat64 { ctx: 0, bits, ret: raw },
            ),
            JsValue::Bool(true) => after_encoding(before, x, raw) == before.push(
                Exchange::NewBool { ctx: 0, value: 1, ret: raw },
            ),
            JsValue::Bool(false) => after_encoding(before, x, raw) == before.push(
                Exchange::NewBool { ctx: 0, value: 0, ret: raw },
            ),
            JsValue::Null => after_encoding(before, x, raw) == before.push(
                Exchange::Null { ret: raw },
            ),
            JsValue::UnDefined => after_encoding(before, x, raw) == before.push(
                Exchange::Undefined { ret: raw },
            ),
            JsValue::BigNum(y) => raw == y.0.v && after_encoding(before, x, raw) == before,
            JsValue::String(y) => raw == y.0.v && after_encoding(before, x, raw) == before,
            JsValue::Module(y) => raw == y.0.v && after_encoding(before, x, raw) == before,
            JsValue::Object(y) => raw == y.0.v && after_encoding(before, x, raw) == before,
            JsValue::Array(y) => raw == y.0.v && after_encoding(before, x, raw) == before,
            JsValue::Promise(y) => raw == y.0.v && after_encoding(before, x, raw) == before,
            JsValue::ArrayBuffer(y) => raw == y.0.v && after_encoding(before, x, raw) == before,
            JsValue::Function(y) => raw == y.0.v && after_encoding(before, x, raw) == before,
            JsValue::Exception(y) => raw == y.0.v && after_encoding(before, x, raw) == before,
            JsValue::FunctionByteCode(y) => raw == y.0.v && after_encoding(before, x, raw)
                == before,
            JsValue::Other(y) => raw == y.v && after_encoding(before, x, raw) == before,
        },
{
}

/// Values go to the engine one after the other, first to last, each on its own.
pub proof fn law_encodings_go_one_by_one(
    before: Seq<Exchange>,
    xs: Seq<JsValue>,
    raws: Seq<JSValue>,
    x: JsValue,
    raw: JSValue,
)
    requires
        are_raws_of(raws.push(raw), xs.push(x)),
    ensures
        are_raws_of(raws, xs),
        raws.len() == xs.len(),
        is_raw_of(raw, x),
        after_encodings(before, Seq::empty(), Seq::empty()) == before,
        after_encodings(before, xs.push(x), raws.push(raw)) == after_encoding(
            after_encodings(before, xs, raws),
            x,
            raw,
        ),
{
    assert(xs.push(x).drop_last() =~= xs);
    assert(raws.push(raw).drop_last() =~= raws);
    assert forall|i: int| 0 <= i < xs.len() implies is_raw_of(#[trigger] raws[i], xs[i]) by {
        assert(is_raw_of(raws.push(raw)[i], xs.push(x)[i]));
    }
    assert(is_raw_of(raws.push(raw)[xs.len() as int], xs.push(x)[xs.len() as int]));
}

/// A doubled value has the kind and the context that it had, and refers to the raw value that the
/// doubling gave; a value without a reference stays as it is.
pub proof fn law_double_is_of_the_same_kind(x: JsValue, raw: JSValue)
    ensures
        match x {
            JsValue::BigNum(y) => with_raw(x, raw) == JsValue::BigNum(
                JsBigNum(JsRef { ctx: y.0.ctx, v: raw }),
            ),
            JsValue::String(y) => with_raw(x, raw) == JsValue::String(
                JsString(JsRef { ctx: y.0.ctx, v: raw }),
            ),
            JsValue::Module(y) => with_raw(x, raw) == JsValue::Module(
                JsModule(JsRef { ctx: y.0.ctx, v: raw }),
            ),
            JsValue::Object(y) => with_raw(x, raw) == JsValue::Object(
                JsObject(JsRef { ctx: y.0.ctx, v: raw }),
            ),
            JsValue::Array(y) => with_raw(x, raw) == JsValue::Array(
                JsArray(JsRef { ctx: y.0.ctx, v: raw }),
            ),
            JsValue::Promise(y) => with_raw(x, raw) == JsValue::Promise(
                JsPromise(JsRef { ctx: y.0.ctx, v: raw }),
            ),
            JsValue::ArrayBuffer(y) => with_raw(x, raw) == JsValue::ArrayBuffer(
                JsArrayBuffer(JsRef { ctx: y.0.ctx, v: raw }),
            ),
            JsValue::Function(y) => with_raw(x, raw) == JsValue::Function(
                JsFunction(JsRef { ctx: y.0.ctx, v: raw }),
            ),
            JsValue::Exception(y) => with_raw(x, raw) == JsValue::Exception(
                JsException(JsRef { ctx: y.0.ctx, v: raw }),
            ),
            JsValue::FunctionByteCode(y) => with_raw(x, raw) == JsValue::FunctionByteCode(
                JsFunctionByteCode(JsRef { ctx: y.0.ctx, v: raw }),
            ),
            JsValue::Other(y) => with_raw(x, raw) == JsValue::Other(
                JsRef { ctx: y.ctx, v: raw },
            ),
            _ => with_raw(x, raw) == x,
        },
{
}

/// Which values refer to a raw value: all but numbers, doubles, truth values, `null` and
/// `undefined`, and they refer to the one inside them.
pub proof fn law_reference_is_the_one_inside(x: JsValue)
    ensures
        x.reference() is None <==> x is Int || x is Float || x is Bool || x is Null
            || x is UnDefined,
        x matches JsValue::BigNum(y) ==> x.reference() == Some(y.0),
        x matches JsValue::String(y) ==> x.reference() == Some(y.0),
        x matches JsValue::Module(y) ==> x.reference() == Some(y.0),
        x matches JsValue::Object(y) ==> x.reference() == Some(y.0),
        x matches JsValue::Array(y) ==> x.reference() == Some(y.0),
        x matches JsValue::Promise(y) ==> x.reference() == Some(y.0),
        x matches JsValue::ArrayBuffer(y) ==> x.reference() == Some(y.0),
        x matches JsValue::Function(y) ==> x.reference() == Some(y.0),
        x matches JsValue::Exception(y) ==> x.reference() == Some(y.0),
        x matches JsValue::FunctionByteCode(y) ==> x.reference() == Some(y.0),
        x matches JsValue::Other(y) ==> x.reference() == Some(y),
{
}

/// Giving a reference up asks for the tag of its value. The reference is freed, in its own
/// context, exactly where the tag is that of a string, an object, compiled code, a big number or
/// a symbol.
pub proof fn law_release_shows_in_the_record(
    before: Seq<Exchange>,
    after: Seq<Exchange>,
    r: JsRef,
)
    requires
        released(before, after, r),
    ensures
        before.is_prefix_of(after),
        ({
            &&& after.len() > before.len()
            &&& after[before.len() as int] matches Exchange::GetNormTag { v, ret: tag }
            &&& v == r.v
            &&& if -11 <= tag <= -7 || tag == -2 || tag == -1 {
                after == before.push(Exchange::GetNormTag { v: r.v, ret: tag }).push(
                    Exchange::FreeValue { ctx: r.ctx, v: r.v },
                )
            } else {
                after == before.push(Exchange::GetNormTag { v: r.v, ret: tag })
            }
        }),
{
    let tag = choose|tag: i32| after == #[trigger] after_release(before, r, tag);
}

/// The tags of values that are counted by reference.
pub proof fn law_counted_tags(tag: i32)
    ensures
        is_counted(tag) <==> -11 <= tag <= -7 || tag == -2 || tag == -1,
{
}

/// Giving a value up gives up the reference inside it, and nothing is said where it has none.
pub proof fn law_giving_up_a_value(before: Seq<Exchange>, after: Seq<Exchange>, x: JsValue)
    requires
        dropped(before, after, x),
    ensures
        x is Int || x is Float || x is Bool || x is Null || x is UnDefined ==> after == before,
        x matches JsValue::BigNum(y) ==> released(before, after, y.0),
        x matches JsValue::String(y) ==> released(before, after, y.0),
        x matches JsValue::Module(y) ==> released(before, after, y.0),
        x matches JsValue::Object(y) ==> released(before, after, y.0),
        x matches JsValue::Array(y) ==> released(before, after, y.0),
        x matches JsValue::Promise(y) ==> released(before, after, y.0),
        x matches JsValue::ArrayBuffer(y) ==> released(before, after, y.0),
        x matches JsValue::Function(y) ==> released(before, after, y.0),
        x matches JsValue::Exception(y) ==> released(before, after, y.0),
        x matches JsValue::FunctionByteCode(y) ==> released(before, after, y.0),
        x matches JsValue::Other(y) ==> released(before, after, y),
{
}

/// Giving no values up says nothing.
pub proof fn law_giving_up_no_values(before: Seq<Exchange>, after: Seq<Exchange>)
    requires
        all_dropped(before, after, Seq::empty()),
    ensures
        after == before,
{
}

/// Giving values up gives up the first, then the rest.
pub proof fn law_giving_up_the_first_value(
    before: Seq<Exchange>,
    after: Seq<Exchange>,
    x: JsValue,
    rest: Seq<JsValue>,
)
    requires
        all_dropped(before, after, seq![x] + rest),
    ensures
        exists|mid: Seq<Exchange>| #[trigger]
            dropped(before, mid, x) && all_dropped(mid, after, rest),
{
    let xs = seq![x] + rest;
    let marks = choose|marks: Seq<Seq<Exchange>>| #[trigger]
        dropped_in_steps(marks, xs) && marks[0] == before && marks[xs.len() as int] == after;
    let fewer = marks.drop_first();
    assert(dropped(marks[0], marks[0int + 1], xs[0]));
    assert forall|i: int| 0 <= i < rest.len() implies dropped(
        fewer[i],
        fewer[i + 1],
        #[trigger] rest[i],
    ) by {
        assert(xs[i + 1] == rest[i]);
        assert(dropped(marks[i + 1], marks[i + 1 + 1], xs[i + 1]));
    }
    assert(dropped_in_steps(fewer, rest));
    assert(dropped(before, fewer[0], x) && all_dropped(fewer[0], after, rest));
}

/// Reading through a reference finds the value behind it, then gives the reference up.
pub proof fn law_reading_through_a_reference(
    before: Seq<Exchange>,
    after: Seq<Exchange>,
    r: JsRef,
    x: JsValue,
)
    requires
        read_through(before, after, r, x),
    ensures
        exists|known: Seq<Exchange>| #[trigger]
            becomes(before, known, r.ctx, r.v, x) && released(known, after, r),
{
}

/// The text of a value is what the bytes that the engine shows encode, and empty where it shows
/// none or they are not UTF-8. What the engine showed is given back to it.
pub proof fn law_text_shows_in_the_record(
    before: Seq<Exchange>,
    after: Seq<Exchange>,
    r: JsRef,
    text: Seq<char>,
)
    requires
        text_read(before, after, r, text),
    ensures
        before.is_prefix_of(after),
        ({
            &&& after.len() > before.len()
            &&& after[before.len() as int] matches Exchange::ToCString { ctx, v, ret: at }
            &&& ctx == r.ctx && v == r.v
            &&& if at == 0 {
                &&& after.len() == before.len() + 1
                &&& text.len() == 0
            } else {
                &&& after.len() == before.len() + 3
                &&& after[before.len() + 1int] matches Exchange::ReadCString {
                    text: read,
                    ret: bytes,
                }
                &&& read == at
                &&& after[before.len() + 2int] == (Exchange::FreeCString { ctx: r.ctx, text: at })
                &&& valid_utf8(bytes) ==> text == decode_utf8(bytes)
                &&& !valid_utf8(bytes) ==> text.len() == 0
            }
        }),
{
    let (at, bytes) = choose|at: Address, bytes: Seq<u8>|
        {
            let asked = before.push(Exchange::ToCString { ctx: r.ctx, v: r.v, ret: at });
            if at == 0 {
                after == asked && text == Seq::<char>::empty()
            } else {
                after == asked.push(#[trigger] c_string_read(at, bytes)).push(
                    Exchange::FreeCString { ctx: r.ctx, text: at },
                ) && text == text_of(bytes)
            }
        };
    if at != 0 {
        assert(after[before.len() + 1int] == c_string_read(at, bytes));
    }
}

/// The C string of a text without NUL is its whole encoding and a NUL: it ends with its only NUL,
/// and what is before that decodes to the text. The C string of any other text is empty.
pub proof fn law_c_string_is_the_whole_text(text: Seq<char>)
    ensures
        nul_free(text) <==> !encode_utf8(text).contains(0u8),
        !encode_utf8(text).contains(0u8) ==> {
            &&& c_text(text).len() == encode_utf8(text).len() + 1
            &&& c_text(text).last() == 0u8
            &&& c_text(text).drop_last() == encode_utf8(text)
            &&& valid_utf8(c_text(text).drop_last())
            &&& decode_utf8(c_text(text).drop_last()) == text
        },
        encode_utf8(text).contains(0u8) ==> c_text(text) == seq![0u8],
{
    broadcast use {vstd::utf8::encode_utf8_valid_utf8, vstd::utf8::encode_utf8_decode_utf8};

    if !encode_utf8(text).contains(0u8) {
        assert(c_text(text).drop_last() =~= encode_utf8(text));
    }
}

/// The text of some bytes has them as its encoding, where they are the encoding of a text; else
/// there is no text.
pub proof fn law_text_has_its_bytes(bytes: Seq<u8>, text: Seq<char>)
    ensures
        bytes == encode_utf8(text) ==> text_of(bytes) == text,
        !valid_utf8(bytes) ==> text_of(bytes).len() == 0,
{
    broadcast use {vstd::utf8::encode_utf8_valid_utf8, vstd::utf8::encode_utf8_decode_utf8};

}

/// A plain value, or one with a reference, that is made a value of any kind is that same value.
pub proof fn law_conversions_keep_the_value(n: i32, b: bool, r: JsRef)
    ensures
        <JsValue as FromSpec<i32>>::from_spec(n) == JsValue::Int(n),
        <JsValue as FromSpec<bool>>::from_spec(b) == JsValue::Bool(b),
        <JsValue as FromSpec<JsBigNum>>::from_spec(JsBigNum(r)) == JsValue::BigNum(JsBigNum(r)),
        <JsValue as FromSpec<JsString>>::from_spec(JsString(r)) == JsValue::String(JsString(r)),
        <JsValue as FromSpec<JsModule>>::from_spec(JsModule(r)) == JsValue::Module(JsModule(r)),
        <JsValue as FromSpec<JsObject>>::from_spec(JsObject(r)) == JsValue::Object(JsObject(r)),
        <JsValue as FromSpec<JsArray>>::from_spec(JsArray(r)) == JsValue::Array(JsArray(r)),
        <JsValue as FromSpec<JsPromise>>::from_spec(JsPromise(r)) == JsValue::Promise(
            JsPromise(r),
        ),
        <JsValue as FromSpec<JsArrayBuffer>>::from_spec(JsArrayBuffer(r)) == JsValue::ArrayBuffer(
            JsArrayBuffer(r),
        ),
        <JsValue as FromSpec<JsFunction>>::from_spec(JsFunction(r)) == JsValue::Function(
            JsFunction(r),
        ),
        <JsValue as FromSpec<JsException>>::from_spec(JsException(r)) == JsValue::Exception(
            JsException(r),
        ),
        <JsValue as FromSpec<JsFunctionByteCode>>::from_spec(JsFunctionByteCode(r))
            == JsValue::FunctionByteCode(JsFunctionByteCode(r)),
{
}

} // verus!
