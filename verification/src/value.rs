//! Values of the engine with their types, and the references that they hold.
use crate::constants::{
    JS_TAG_BIG_DECIMAL, JS_TAG_BIG_FLOAT, JS_TAG_BIG_INT, JS_TAG_BOOL, JS_TAG_EXCEPTION,
    JS_TAG_FLOAT64, JS_TAG_FUNCTION_BYTECODE, JS_TAG_INT, JS_TAG_MODULE, JS_TAG_NULL,
    JS_TAG_OBJECT, JS_TAG_STRING, JS_TAG_SYMBOL, JS_TAG_UNDEFINED,
};
use crate::engine::{Address, Engine, Exchange, JSValue, Session};
use crate::text::{decode_text, text_of};
use vstd::prelude::*;

verus! {

/// A reference to a value of a context.
///
/// It stands for one reference count of the engine. It cannot be copied: it is handed on, given
/// up with [`JsRef::release`], or doubled with [`JsRef::duplicate`].
#[derive(Debug, PartialEq, Eq, Structural)]
#[must_use]
pub struct JsRef {
    pub ctx: Address,
    pub v: JSValue,
}

#[derive(Debug, PartialEq, Eq, Structural)]
#[must_use]
pub struct JsObject(pub JsRef);

#[derive(Debug, PartialEq, Eq, Structural)]
#[must_use]
pub struct JsFunction(pub JsRef);

#[derive(Debug, PartialEq, Eq, Structural)]
#[must_use]
pub struct JsPromise(pub JsRef);

#[derive(Debug, PartialEq, Eq, Structural)]
#[must_use]
pub struct JsArray(pub JsRef);

#[derive(Debug, PartialEq, Eq, Structural)]
#[must_use]
pub struct JsArrayBuffer(pub JsRef);

#[derive(Debug, PartialEq, Eq, Structural)]
#[must_use]
pub struct JsString(pub JsRef);

#[derive(Debug, PartialEq, Eq, Structural)]
#[must_use]
pub struct JsModule(pub JsRef);

#[derive(Debug, PartialEq, Eq, Structural)]
#[must_use]
pub struct JsFunctionByteCode(pub JsRef);

#[derive(Debug, PartialEq, Eq, Structural)]
#[must_use]
pub struct JsBigNum(pub JsRef);

#[derive(Debug, PartialEq, Eq, Structural)]
#[must_use]
pub struct JsException(pub JsRef);

/// A value whose type is known.
///
/// A double is held by its bits.
#[derive(Debug, PartialEq, Eq, Structural)]
#[must_use]
pub enum JsValue {
    Int(i32),
    Float(u64),
    BigNum(JsBigNum),
    String(JsString),
    Module(JsModule),
    Object(JsObject),
    Array(JsArray),
    Promise(JsPromise),
    ArrayBuffer(JsArrayBuffer),
    Function(JsFunction),
    Bool(bool),
    Null,
    UnDefined,
    Exception(JsException),
    FunctionByteCode(JsFunctionByteCode),
    Other(JsRef),
}

/// What the engine answers about the value `v` while its type is being found.
#[derive(Debug, Clone, Copy, PartialEq, Eq, Structural)]
pub struct Probe {
    pub v: JSValue,
    pub tag: i32,
    pub int: i32,
    pub bits: u64,
    pub truth: i32,
    pub is_function: i32,
    pub is_array_buffer: i32,
    pub is_array: i32,
    pub is_promise: i32,
}

/// What is asked about an object: is it a function, an array buffer, an array, a promise, in
/// that order, up to the first yes.
pub open spec fn object_questions(ctx: Address, p: Probe) -> Seq<Exchange> {
    let function = Exchange::IsFunction { ctx, v: p.v, ret: p.is_function };
    let buffer = Exchange::IsArrayBuffer { ctx, v: p.v, ret: p.is_array_buffer };
    let array = Exchange::IsArray { ctx, v: p.v, ret: p.is_array };
    let promise = Exchange::IsPromise { ctx, v: p.v, ret: p.is_promise };
    if p.is_function != 0 {
        seq![function]
    } else if p.is_array_buffer != 0 {
        seq![function, buffer]
    } else if p.is_array != 0 {
        seq![function, buffer, array]
    } else {
        seq![function, buffer, array, promise]
    }
}

/// The whole conversation that finds the type of a value: its tag, then what the tag leaves
/// open.
pub open spec fn questions(ctx: Address, p: Probe) -> Seq<Exchange> {
    seq![Exchange::GetNormTag { v: p.v, ret: p.tag }] + (if p.tag == JS_TAG_INT {
        seq![Exchange::ToInt32 { ctx, v: p.v, ret: p.int }]
    } else if p.tag == JS_TAG_FLOAT64 {
        seq![Exchange::ToFloat64 { ctx, v: p.v, ret: p.bits }]
    } else if p.tag == JS_TAG_BOOL {
        seq![Exchange::ToBool { ctx, v: p.v, ret: p.truth }]
    } else if p.tag == JS_TAG_OBJECT {
        object_questions(ctx, p)
    } else {
        Seq::empty()
    })
}

/// The value that the answers describe.
pub open spec fn typed(ctx: Address, p: Probe) -> JsValue {
    let r = JsRef { ctx, v: p.v };
    if p.tag == JS_TAG_INT {
        JsValue::Int(p.int)
    } else if p.tag == JS_TAG_FLOAT64 {
        JsValue::Float(p.bits)
    } else if p.tag == JS_TAG_BIG_DECIMAL || p.tag == JS_TAG_BIG_INT || p.tag == JS_TAG_BIG_FLOAT {
        JsValue::BigNum(JsBigNum(r))
    } else if p.tag == JS_TAG_STRING {
        JsValue::String(JsString(r))
    } else if p.tag == JS_TAG_MODULE {
        JsValue::Module(JsModule(r))
    } else if p.tag == JS_TAG_OBJECT {
        if p.is_function != 0 {
            JsValue::Function(JsFunction(r))
        } else if p.is_array_buffer != 0 {
            JsValue::ArrayBuffer(JsArrayBuffer(r))
        } else if p.is_array != 0 {
            JsValue::Array(JsArray(r))
        } else if p.is_promise != 0 {
            JsValue::Promise(JsPromise(r))
        } else {
            JsValue::Object(JsObject(r))
        }
    } else if p.tag == JS_TAG_BOOL {
        JsValue::Bool(p.truth != 0)
    } else if p.tag == JS_TAG_NULL {
        JsValue::Null
    } else if p.tag == JS_TAG_EXCEPTION {
        JsValue::Exception(JsException(r))
    } else if p.tag == JS_TAG_UNDEFINED {
        JsValue::UnDefined
    } else if p.tag == JS_TAG_FUNCTION_BYTECODE {
        JsValue::FunctionByteCode(JsFunctionByteCode(r))
    } else {
        JsValue::Other(r)
    }
}

/// Between the records `before` and `after`, the raw value `v` of `ctx` was found to be `x`.
pub open spec fn becomes(
    before: Seq<Exchange>,
    after: Seq<Exchange>,
    ctx: Address,
    v: JSValue,
    x: JsValue,
) -> bool {
    exists|p: Probe|
        p.v == v && after == before + #[trigger] questions(ctx, p) && x == typed(ctx, p)
}

/// Whether values with this tag are counted by reference.
pub open spec fn is_counted(tag: i32) -> bool {
    ||| tag == JS_TAG_STRING
    ||| tag == JS_TAG_OBJECT
    ||| tag == JS_TAG_FUNCTION_BYTECODE
    ||| tag == JS_TAG_BIG_INT
    ||| tag == JS_TAG_BIG_FLOAT
    ||| tag == JS_TAG_BIG_DECIMAL
    ||| tag == JS_TAG_SYMBOL
}

/// The record after giving up a reference whose value turned out to have the tag `tag`.
pub open spec fn after_release(before: Seq<Exchange>, r: JsRef, tag: i32) -> Seq<Exchange> {
    let asked = before.push(Exchange::GetNormTag { v: r.v, ret: tag });
    if is_counted(tag) {
        asked.push(Exchange::FreeValue { ctx: r.ctx, v: r.v })
    } else {
        asked
    }
}

/// Between the two records the reference `r` was given up.
pub open spec fn released(before: Seq<Exchange>, after: Seq<Exchange>, r: JsRef) -> bool {
    exists|tag: i32| after == #[trigger] after_release(before, r, tag)
}

/// Between the two records the value behind `r` was found to be `x`, and `r` was given up.
pub open spec fn read_through(
    before: Seq<Exchange>,
    after: Seq<Exchange>,
    r: JsRef,
    x: JsValue,
) -> bool {
    exists|known: Seq<Exchange>| #[trigger]
        becomes(before, known, r.ctx, r.v, x) && released(known, after, r)
}

/// Between the two records the value `x` was given up.
pub open spec fn dropped(before: Seq<Exchange>, after: Seq<Exchange>, x: JsValue) -> bool {
    match x.reference() {
        Some(r) => released(before, after, r),
        None => after == before,
    }
}

/// Between the first and the last of the records `marks` the values `xs` were given up, first to
/// last, the i-th between `marks[i]` and `marks[i + 1]`.
pub open spec fn dropped_in_steps(marks: Seq<Seq<Exchange>>, xs: Seq<JsValue>) -> bool {
    &&& marks.len() == xs.len() + 1
    &&& forall|i: int| 0 <= i < xs.len() ==> dropped(marks[i], marks[i + 1], #[trigger] xs[i])
}

/// Between the two records the values `xs` were given up, first to last.
pub open spec fn all_dropped(
    before: Seq<Exchange>,
    after: Seq<Exchange>,
    xs: Seq<JsValue>,
) -> bool {
    exists|marks: Seq<Seq<Exchange>>| #[trigger]
        dropped_in_steps(marks, xs) && marks[0] == before && marks[xs.len() as int] == after
}

/// Whether `raw` is a raw form of `x`: for a value with a reference, the raw value referred to.
pub open spec fn is_raw_of(raw: JSValue, x: JsValue) -> bool {
    x.reference() matches Some(r) ==> raw == r.v
}

/// The record after turning `x` into `raw`. The engine makes a number, a truth value, `null` and
/// `undefined` anew, with no context; it is not asked for anything else.
pub open spec fn after_encoding(before: Seq<Exchange>, x: JsValue, raw: JSValue) -> Seq<Exchange> {
    match x {
        JsValue::Int(n) => before.push(Exchange::NewInt32 { ctx: 0, value: n, ret: raw }),
        JsValue::Float(b) => before.push(Exchange::NewFloat64 { ctx: 0, bits: b, ret: raw }),
        JsValue::Bool(b) => before.push(
            Exchange::NewBool {
                ctx: 0,
                value: if b {
                    1
                } else {
                    0
                },
                ret: raw,
            },
        ),
        JsValue::Null => before.push(Exchange::Null { ret: raw }),
        JsValue::UnDefined => before.push(Exchange::Undefined { ret: raw }),
        _ => before,
    }
}

/// The record after turning the values `xs` into `raws`, first to last.
pub open spec fn after_encodings(
    before: Seq<Exchange>,
    xs: Seq<JsValue>,
    raws: Seq<JSValue>,
) -> Seq<Exchange>
    decreases xs.len(),
{
    if xs.len() == 0 {
        before
    } else {
        after_encoding(
            after_encodings(before, xs.drop_last(), raws.drop_last()),
            xs.last(),
            raws.last(),
        )
    }
}

/// Whether `raws` are raw forms of `xs`, one for one.
pub open spec fn are_raws_of(raws: Seq<JSValue>, xs: Seq<JsValue>) -> bool {
    &&& raws.len() == xs.len()
    &&& forall|i: int| 0 <= i < xs.len() ==> is_raw_of(#[trigger] raws[i], xs[i])
}

/// `x` with `raw` in place of the raw value that it refers to.
pub open spec fn with_raw(x: JsValue, raw: JSValue) -> JsValue {
    match x {
        JsValue::BigNum(y) => JsValue::BigNum(JsBigNum(JsRef { ctx: y.0.ctx, v: raw })),
        JsValue::String(y) => JsValue::String(JsString(JsRef { ctx: y.0.ctx, v: raw })),
        JsValue::Module(y) => JsValue::Module(JsModule(JsRef { ctx: y.0.ctx, v: raw })),
        JsValue::Object(y) => JsValue::Object(JsObject(JsRef { ctx: y.0.ctx, v: raw })),
        JsValue::Array(y) => JsValue::Array(JsArray(JsRef { ctx: y.0.ctx, v: raw })),
        JsValue::Promise(y) => JsValue::Promise(JsPromise(JsRef { ctx: y.0.ctx, v: raw })),
        JsValue::ArrayBuffer(y) => JsValue::ArrayBuffer(
            JsArrayBuffer(JsRef { ctx: y.0.ctx, v: raw }),
        ),
        JsValue::Function(y) => JsValue::Function(JsFunction(JsRef { ctx: y.0.ctx, v: raw })),
        JsValue::Exception(y) => JsValue::Exception(JsException(JsRef { ctx: y.0.ctx, v: raw })),
        JsValue::FunctionByteCode(y) => JsValue::FunctionByteCode(
            JsFunctionByteCode(JsRef { ctx: y.0.ctx, v: raw }),
        ),
        JsValue::Other(y) => JsValue::Other(JsRef { ctx: y.ctx, v: raw }),
        _ => x,
    }
}

/// Between the two records the text `text` of the value behind `r` was read.
pub open spec fn text_read(
    before: Seq<Exchange>,
    after: Seq<Exchange>,
    r: JsRef,
    text: Seq<char>,
) -> bool {
    exists|at: Address, bytes: Seq<u8>|
        {
            let asked = before.push(Exchange::ToCString { ctx: r.ctx, v: r.v, ret: at });
            if at == 0 {
                after == asked && text == Seq::<char>::empty()
            } else {
                after == asked.push(#[trigger] c_string_read(at, bytes)).push(
                    Exchange::FreeCString { ctx: r.ctx, text: at },
                ) && text == text_of(bytes)
            }
        }
}

/// The reading of a C string.
pub open spec fn c_string_read(at: Address, bytes: Seq<u8>) -> Exchange {
    Exchange::ReadCString { text: at, ret: bytes }
}

/// The text of the value behind `r`, as the engine converts it; empty where it has none.
pub(crate) fn read_text<E: Engine>(js: &mut Session<E>, r: &JsRef) -> (text: String)
    ensures
        text_read(old(js).log(), final(js).log(), *r, text@),
{
    let ghost before = js.log();
    let at: Address = js.to_c_string(r.ctx, r.v);
    if at == 0 {
        assert(text_read(before, js.log(), *r, Seq::<char>::empty())) by {
            let any = c_string_read(at, Seq::empty());
        }
        return String::new();
    }
    let bytes = js.read_c_string(at);
    let text = decode_text(bytes.as_slice());
    js.free_c_string(r.ctx, at);
    assert(js.log() == before.push(Exchange::ToCString { ctx: r.ctx, v: r.v, ret: at }).push(
        c_string_read(at, bytes@),
    ).push(Exchange::FreeCString { ctx: r.ctx, text: at }));
    text
}

/// Whether a value with this tag has to be freed when the last of its owner goes.
pub fn needs_free(tag: i32) -> (yes: bool)
    ensures
        yes == is_counted(tag),
{
    tag == JS_TAG_STRING || tag == JS_TAG_OBJECT || tag == JS_TAG_FUNCTION_BYTECODE || tag
        == JS_TAG_BIG_INT || tag == JS_TAG_BIG_FLOAT || tag == JS_TAG_BIG_DECIMAL || tag
        == JS_TAG_SYMBOL
}

/// Gives up one reference to the value `v` of `ctx`.
fn give_up<E: Engine>(js: &mut Session<E>, ctx: Address, v: JSValue)
    ensures
        released(old(js).log(), final(js).log(), (JsRef { ctx, v })),
{
    let ghost before = js.log();
    let tag: i32 = js.get_norm_tag(v);
    if needs_free(tag) {
        js.free_value(ctx, v);
    }
    assert(js.log() == after_release(before, JsRef { ctx, v }, tag));
}

impl JsRef {
    /// A second reference to the same value.
    pub fn duplicate<E: Engine>(&self, js: &mut Session<E>) -> (copy: JsRef)
        ensures
            copy.ctx == self.ctx,
            final(js).log() == old(js).log().push(
                Exchange::DupValue { ctx: self.ctx, v: self.v, ret: copy.v },
            ),
    {
        JsRef { ctx: self.ctx, v: js.dup_value(self.ctx, self.v) }
    }

    /// Gives the reference up: the engine frees it where its value is counted.
    pub fn release<E: Engine>(self, js: &mut Session<E>)
        ensures
            released(old(js).log(), final(js).log(), self),
    {
        give_up(js, self.ctx, self.v);
    }

    /// The text of the value, for people to read.
    pub fn fmt<E: Engine>(&self, js: &mut Session<E>) -> (text: String)
        ensures
            text_read(old(js).log(), final(js).log(), *self, text@),
    {
        read_text(js, self)
    }
}

impl Probe {
    /// Asks the engine for the type of `v`, and for no more than that takes.
    pub fn ask<E: Engine>(js: &mut Session<E>, ctx: Address, v: JSValue) -> (p: Probe)
        ensures
            p.v == v,
            final(js).log() == old(js).log() + questions(ctx, p),
    {
        let ghost before = js.log();
        let tag: i32 = js.get_norm_tag(v);
        let mut p = Probe {
            v,
            tag,
            int: 0,
            bits: 0,
            truth: 0,
            is_function: 0,
            is_array_buffer: 0,
            is_array: 0,
            is_promise: 0,
        };
        if tag == JS_TAG_INT {
            p.int = js.to_int32(ctx, v);
        } else if tag == JS_TAG_FLOAT64 {
            p.bits = js.to_float64(ctx, v);
        } else if tag == JS_TAG_BOOL {
            p.truth = js.to_bool(ctx, v);
        } else if tag == JS_TAG_OBJECT {
            p.is_function = js.is_function(ctx, v);
            if p.is_function == 0 {
                p.is_array_buffer = js.is_array_buffer(ctx, v);
                if p.is_array_buffer == 0 {
                    p.is_array = js.is_array(ctx, v);
                    if p.is_array == 0 {
                        p.is_promise = js.is_promise(ctx, v);
                    }
                }
            }
        }
        assert(js.log() =~= before + questions(ctx, p));
        p
    }
}

impl JsValue {
    /// The reference inside the value, if it has one.
    pub open spec fn reference(self) -> Option<JsRef> {
        match self {
            JsValue::Int(_) => None,
            JsValue::Float(_) => None,
            JsValue::BigNum(x) => Some(x.0),
            JsValue::String(x) => Some(x.0),
            JsValue::Module(x) => Some(x.0),
            JsValue::Object(x) => Some(x.0),
            JsValue::Array(x) => Some(x.0),
            JsValue::Promise(x) => Some(x.0),
            JsValue::ArrayBuffer(x) => Some(x.0),
            JsValue::Function(x) => Some(x.0),
            JsValue::Bool(_) => None,
            JsValue::Null => None,
            JsValue::UnDefined => None,
            JsValue::Exception(x) => Some(x.0),
            JsValue::FunctionByteCode(x) => Some(x.0),
            JsValue::Other(x) => Some(x),
        }
    }

    /// The value that the answers `p` describe.
    pub fn from_answers(ctx: Address, p: &Probe) -> (x: JsValue)
        ensures
            x == typed(ctx, *p),
    {
        let r = JsRef { ctx, v: p.v };
        if p.tag == JS_TAG_INT {
            JsValue::Int(p.int)
        } else if p.tag == JS_TAG_FLOAT64 {
            JsValue::Float(p.bits)
        } else if p.tag == JS_TAG_BIG_DECIMAL || p.tag == JS_TAG_BIG_INT || p.tag
            == JS_TAG_BIG_FLOAT {
            JsValue::BigNum(JsBigNum(r))
        } else if p.tag == JS_TAG_STRING {
            JsValue::String(JsString(r))
        } else if p.tag == JS_TAG_MODULE {
            JsValue::Module(JsModule(r))
        } else if p.tag == JS_TAG_OBJECT {
            if p.is_function != 0 {
                JsValue::Function(JsFunction(r))
            } else if p.is_array_buffer != 0 {
                JsValue::ArrayBuffer(JsArrayBuffer(r))
            } else if p.is_array != 0 {
                JsValue::Array(JsArray(r))
            } else if p.is_promise != 0 {
                JsValue::Promise(JsPromise(r))
            } else {
                JsValue::Object(JsObject(r))
            }
        } else if p.tag == JS_TAG_BOOL {
            JsValue::Bool(p.truth != 0)
        } else if p.tag == JS_TAG_NULL {
            JsValue::Null
        } else if p.tag == JS_TAG_EXCEPTION {
            JsValue::Exception(JsException(r))
        } else if p.tag == JS_TAG_UNDEFINED {
            JsValue::UnDefined
        } else if p.tag == JS_TAG_FUNCTION_BYTECODE {
            JsValue::FunctionByteCode(JsFunctionByteCode(r))
        } else {
            JsValue::Other(r)
        }
    }

    /// The raw value `v` of `ctx` with its type.
    pub fn from_qjs_value<E: Engine>(js: &mut Session<E>, ctx: Address, v: JSValue) -> (x: JsValue)
        ensures
            becomes(old(js).log(), final(js).log(), ctx, v, x),
    {
        let p = Probe::ask(js, ctx, v);
        JsValue::from_answers(ctx, &p)
    }

    /// The value behind a reference, with its type. The reference is given up once the value is
    /// known: where the value names a counted one, it takes no count over from it.
    pub fn from_ref<E: Engine>(js: &mut Session<E>, r: JsRef) -> (x: JsValue)
        ensures
            read_through(old(js).log(), final(js).log(), r, x),
    {
        let x = JsValue::from_qjs_value(js, r.ctx, r.v);
        r.release(js);
        x
    }

    /// The value in the engine's encoding. The reference stays with `self`.
    pub fn get_qjs_value<E: Engine>(&self, js: &mut Session<E>) -> (raw: JSValue)
        ensures
            is_raw_of(raw, *self),
            final(js).log() == after_encoding(old(js).log(), *self, raw),
    {
        match self {
            JsValue::Int(n) => js.new_int32(0, *n),
            JsValue::Float(bits) => js.new_float64(0, *bits),
            JsValue::BigNum(x) => x.0.v,
            JsValue::String(x) => x.0.v,
            JsValue::Module(x) => x.0.v,
            JsValue::Object(x) => x.0.v,
            JsValue::Array(x) => x.0.v,
            JsValue::ArrayBuffer(x) => x.0.v,
            JsValue::Function(x) => x.0.v,
            JsValue::Promise(x) => x.0.v,
            JsValue::Bool(b) => js.new_bool(
                0,
                if *b {
                    1
                } else {
                    0
                },
            ),
            JsValue::Null => js.null(),
            JsValue::UnDefined => js.undefined(),
            JsValue::Exception(x) => x.0.v,
            JsValue::FunctionByteCode(x) => x.0.v,
            JsValue::Other(x) => x.v,
        }
    }

    /// The value in the engine's encoding. The reference goes with it.
    pub fn into_qjs_value<E: Engine>(self, js: &mut Session<E>) -> (raw: JSValue)
        ensures
            is_raw_of(raw, self),
            final(js).log() == after_encoding(old(js).log(), self, raw),
    {
        self.get_qjs_value(js)
    }

    /// Context and raw value of the reference inside the value, if it has one.
    fn place(&self) -> (at: Option<(Address, JSValue)>)
        ensures
            at == match self.reference() {
                Some(r) => Some((r.ctx, r.v)),
                None => None,
            },
    {
        match self {
            JsValue::BigNum(x) => Some((x.0.ctx, x.0.v)),
            JsValue::String(x) => Some((x.0.ctx, x.0.v)),
            JsValue::Module(x) => Some((x.0.ctx, x.0.v)),
            JsValue::Object(x) => Some((x.0.ctx, x.0.v)),
            JsValue::Array(x) => Some((x.0.ctx, x.0.v)),
            JsValue::Promise(x) => Some((x.0.ctx, x.0.v)),
            JsValue::ArrayBuffer(x) => Some((x.0.ctx, x.0.v)),
            JsValue::Function(x) => Some((x.0.ctx, x.0.v)),
            JsValue::Exception(x) => Some((x.0.ctx, x.0.v)),
            JsValue::FunctionByteCode(x) => Some((x.0.ctx, x.0.v)),
            JsValue::Other(x) => Some((x.ctx, x.v)),
            _ => None,
        }
    }

    /// Gives the value up, and with it the reference that it may hold.
    pub fn release<E: Engine>(self, js: &mut Session<E>)
        ensures
            dropped(old(js).log(), final(js).log(), self),
    {
        self.let_go(js);
    }

    /// Gives up the reference of a value that its owner will not use again.
    pub(crate) fn let_go<E: Engine>(&self, js: &mut Session<E>)
        ensures
            dropped(old(js).log(), final(js).log(), *self),
    {
        if let Some((ctx, v)) = self.place() {
            give_up(js, ctx, v);
        }
    }

    /// A second value like this one, with a reference of its own.
    pub fn duplicate<E: Engine>(&self, js: &mut Session<E>) -> (copy: JsValue)
        ensures
            match self.reference() {
                Some(r) => exists|raw: JSValue|
                    final(js).log() == old(js).log().push(
                        Exchange::DupValue { ctx: r.ctx, v: r.v, ret: raw },
                    ) && copy == #[trigger] with_raw(*self, raw),
                None => final(js).log() == old(js).log() && copy == *self,
            },
    {
        let (ctx, v) = match self.place() {
            Some(at) => at,
            None => {
                return match self {
                    JsValue::Int(n) => JsValue::Int(*n),
                    JsValue::Float(bits) => JsValue::Float(*bits),
                    JsValue::Bool(b) => JsValue::Bool(*b),
                    JsValue::Null => JsValue::Null,
                    _ => JsValue::UnDefined,
                };
            },
        };
        let raw: JSValue = js.dup_value(ctx, v);
        let r = JsRef { ctx, v: raw };
        let copy = match self {
            JsValue::BigNum(_) => JsValue::BigNum(JsBigNum(r)),
            JsValue::String(_) => JsValue::String(JsString(r)),
            JsValue::Module(_) => JsValue::Module(JsModule(r)),
            JsValue::Object(_) => JsValue::Object(JsObject(r)),
            JsValue::Array(_) => JsValue::Array(JsArray(r)),
            JsValue::Promise(_) => JsValue::Promise(JsPromise(r)),
            JsValue::ArrayBuffer(_) => JsValue::ArrayBuffer(JsArrayBuffer(r)),
            JsValue::Function(_) => JsValue::Function(JsFunction(r)),
            JsValue::Exception(_) => JsValue::Exception(JsException(r)),
            JsValue::FunctionByteCode(_) => JsValue::FunctionByteCode(JsFunctionByteCode(r)),
            _ => JsValue::Other(r),
        };
        assert(copy == with_raw(*self, raw));
        copy
    }
}

impl JsString {
    /// The text, empty where the engine has none or it is not UTF-8.
    pub fn to_string<E: Engine>(&self, js: &mut Session<E>) -> (text: String)
        ensures
            text_read(old(js).log(), final(js).log(), self.0, text@),
    {
        read_text(js, &self.0)
    }
}

impl JsBigNum {
    /// The number as the engine converts it.
    pub fn to_int64<E: Engine>(&self, js: &mut Session<E>) -> (n: i64)
        ensures
            final(js).log() == old(js).log().push(
                Exchange::ToBigInt64 { ctx: self.0.ctx, v: self.0.v, ret: n },
            ),
    {
        js.to_big_int64(self.0.ctx, self.0.v)
    }
}

impl JsException {
    /// Has the engine report the pending exception.
    pub fn dump_error<E: Engine>(&self, js: &mut Session<E>)
        ensures
            final(js).log() == old(js).log().push(Exchange::StdDumpError { ctx: self.0.ctx }),
    {
        js.std_dump_error(self.0.ctx);
    }
}

/// Gives values up, first to last.
pub fn release_all<E: Engine>(js: &mut Session<E>, xs: Vec<JsValue>)
    ensures
        all_dropped(old(js).log(), final(js).log(), xs@),
{
    let ghost mut marks: Seq<Seq<Exchange>> = seq![js.log()];
    let mut i: usize = 0;
    while i < xs.len()
        invariant
            i <= xs.len(),
            marks.len() == i + 1,
            marks[0] == old(js).log(),
            marks.last() == js.log(),
            forall|j: int| 0 <= j < i ==> dropped(marks[j], marks[j + 1], #[trigger] xs@[j]),
        decreases xs.len() - i,
    {
        xs[i].let_go(js);
        proof {
            marks = marks.push(js.log());
        }
        i = i + 1;
    }
    assert(dropped_in_steps(marks, xs@));
}

/// Values in the engine's encoding, first to last.
pub(crate) fn encode_all<E: Engine>(js: &mut Session<E>, xs: &[JsValue]) -> (raws: Vec<JSValue>)
    ensures
        are_raws_of(raws@, xs@),
        final(js).log() == after_encodings(old(js).log(), xs@, raws@),
{
    let ghost before = js.log();
    let mut raws: Vec<JSValue> = Vec::new();
    let mut i: usize = 0;
    while i < xs.len()
        invariant
            i <= xs.len(),
            are_raws_of(raws@, xs@.subrange(0, i as int)),
            js.log() == after_encodings(before, xs@.subrange(0, i as int), raws@),
        decreases xs.len() - i,
    {
        let ghost done = raws@;
        let raw: JSValue = xs[i].get_qjs_value(js);
        raws.push(raw);
        i = i + 1;
        assert(xs@.subrange(0, i as int).drop_last() =~= xs@.subrange(0, i - 1));
        assert(raws@.drop_last() =~= done);
    }
    assert(xs@.subrange(0, i as int) =~= xs@);
    raws
}

impl From<i32> for JsValue {
    fn from(v: i32) -> (x: Self) {
        JsValue::Int(v)
    }
}

impl vstd::std_specs::convert::FromSpecImpl<i32> for JsValue {
    open spec fn obeys_from_spec() -> bool {
        true
    }

    open spec fn from_spec(v: i32) -> Self {
        JsValue::Int(v)
    }
}

impl From<bool> for JsValue {
    fn from(v: bool) -> (x: Self) {
        JsValue::Bool(v)
    }
}

impl vstd::std_specs::convert::FromSpecImpl<bool> for JsValue {
    open spec fn obeys_from_spec() -> bool {
        true
    }

    open spec fn from_spec(v: bool) -> Self {
        JsValue::Bool(v)
    }
}

impl From<JsBigNum> for JsValue {
    fn from(v: JsBigNum) -> (x: Self) {
        JsValue::BigNum(v)
    }
}

impl vstd::std_specs::convert::FromSpecImpl<JsBigNum> for JsValue {
    open spec fn obeys_from_spec() -> bool {
        true
    }

    open spec fn from_spec(v: JsBigNum) -> Self {
        JsValue::BigNum(v)
    }
}

impl From<JsString> for JsValue {
    fn from(v: JsString) -> (x: Self) {
        JsValue::String(v)
    }
}

impl vstd::std_specs::convert::FromSpecImpl<JsString> for JsValue {
    open spec fn obeys_from_spec() -> bool {
        true
    }

    open spec fn from_spec(v: JsString) -> Self {
        JsValue::String(v)
    }
}

impl From<JsModule> for JsValue {
    fn from(v: JsModule) -> (x: Self) {
        JsValue::Module(v)
    }
}

impl vstd::std_specs::convert::FromSpecImpl<JsModule> for JsValue {
    open spec fn obeys_from_spec() -> bool {
        true
    }

    open spec fn from_spec(v: JsModule) -> Self {
        JsValue::Module(v)
    }
}

impl From<JsObject> for JsValue {
    fn from(v: JsObject) -> (x: Self) {
        JsValue::Object(v)
    }
}

impl vstd::std_specs::convert::FromSpecImpl<JsObject> for JsValue {
    open spec fn obeys_from_spec() -> bool {
        true
    }

    open spec fn from_spec(v: JsObject) -> Self {
        JsValue::Object(v)
    }
}

impl From<JsArray> for JsValue {
    fn from(v: JsArray) -> (x: Self) {
        JsValue::Array(v)
    }
}

impl vstd::std_specs::convert::FromSpecImpl<JsArray> for JsValue {
    open spec fn obeys_from_spec() -> bool {
        true
    }

    open spec fn from_spec(v: JsArray) -> Self {
        JsValue::Array(v)
    }
}

impl From<JsPromise> for JsValue {
    fn from(v: JsPromise) -> (x: Self) {
        JsValue::Promise(v)
    }
}

impl vstd::std_specs::convert::FromSpecImpl<JsPromise> for JsValue {
    open spec fn obeys_from_spec() -> bool {
        true
    }

    open spec fn from_spec(v: JsPromise) -> Self {
        JsValue::Promise(v)
    }
}

impl From<JsArrayBuffer> for JsValue {
    fn from(v: JsArrayBuffer) -> (x: Self) {
        JsValue::ArrayBuffer(v)
    }
}

impl vstd::std_specs::convert::FromSpecImpl<JsArrayBuffer> for JsValue {
    open spec fn obeys_from_spec() -> bool {
        true
    }

    open spec fn from_spec(v: JsArrayBuffer) -> Self {
        JsValue::ArrayBuffer(v)
    }
}

impl From<JsFunction> for JsValue {
    fn from(v: JsFunction) -> (x: Self) {
        JsValue::Function(v)
    }
}

impl vstd::std_specs::convert::FromSpecImpl<JsFunction> for JsValue {
    open spec fn obeys_from_spec() -> bool {
        true
    }

    open spec fn from_spec(v: JsFunction) -> Self {
        JsValue::Function(v)
    }
}

impl From<JsException> for JsValue {
    fn from(v: JsException) -> (x: Self) {
        JsValue::Exception(v)
    }
}

impl vstd::std_specs::convert::FromSpecImpl<JsException> for JsValue {
    open spec fn obeys_from_spec() -> bool {
        true
    }

    open spec fn from_spec(v: JsException) -> Self {
        JsValue::Exception(v)
    }
}

impl From<JsFunctionByteCode> for JsValue {
    fn from(v: JsFunctionByteCode) -> (x: Self) {
        JsValue::FunctionByteCode(v)
    }
}

impl vstd::std_specs::convert::FromSpecImpl<JsFunctionByteCode> for JsValue {
    open spec fn obeys_from_spec() -> bool {
        true
    }

    open spec fn from_spec(v: JsFunctionByteCode) -> Self {
        JsValue::FunctionByteCode(v)
    }
}

} // verus!
