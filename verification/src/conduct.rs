//! What the operations give where the engine behaves as a JavaScript engine does.
//!
//! The contracts of the operations hold whatever the engine answers. The predicates here speak of
//! a record and say that some of the answers in it agree with one another: that a value does not
//! change its type, that a property holds what was last written to it, that a string keeps its
//! text. Each law says what follows for the operations of this library in a record of that kind.
use crate::array::{
    array_read, buffer_answer, bytes_reading, count_of, element_answer, element_read, element_set,
    element_write, elements_failed, elements_read, length_answer, length_write, read_in_steps,
    reading_stopped, tag_answer, u32_read,
};
use crate::constants::{
    JS_TAG_BOOL, JS_TAG_EXCEPTION, JS_TAG_FLOAT64, JS_TAG_INT, JS_TAG_NULL, JS_TAG_OBJECT,
    JS_TAG_UNDEFINED,
};
use crate::context::{after_arguments, arguments_put};
use crate::engine::{Address, Exchange, JSAtom, JSValue};
use crate::laws::law_release_all_asks_once_per_reference;
use crate::object::{
    after_delete, property_deleted, property_got, property_set, property_write, published,
};
use crate::text::{before_nul, c_text, law_c_string_round_trip, nul_free, text_of};
use crate::value::{
    after_encoding, after_release, becomes, c_string_read, dropped, dropped_in_steps, is_raw_of,
    questions, text_read, typed, JsArray, JsException, JsObject, JsRef, JsValue, Probe,
};
use vstd::prelude::*;
use vstd::utf8::encode_utf8;

verus! {

/// What a record shows a property or an element to hold: nothing known, a raw value, or no value.
pub enum Held {
    Unknown,
    Value(JSValue),
    Nothing,
}

/// Whether two exchanges ask the same about the type of a value, or for the same part of a value
/// without parts.
pub open spec fn same_type_question(a: Exchange, b: Exchange) -> bool {
    match (a, b) {
        (Exchange::GetNormTag { v, .. }, Exchange::GetNormTag { v: w, .. }) => v == w,
        (Exchange::IsFunction { ctx, v, .. }, Exchange::IsFunction { ctx: c, v: w, .. }) => ctx == c
            && v == w,
        (Exchange::IsArrayBuffer { ctx, v, .. }, Exchange::IsArrayBuffer { ctx: c, v: w, .. }) => ctx
            == c && v == w,
        (Exchange::IsArray { ctx, v, .. }, Exchange::IsArray { ctx: c, v: w, .. }) => ctx == c && v
            == w,
        (Exchange::IsPromise { ctx, v, .. }, Exchange::IsPromise { ctx: c, v: w, .. }) => ctx == c
            && v == w,
        (Exchange::ToBool { ctx, v, .. }, Exchange::ToBool { ctx: c, v: w, .. }) => ctx == c && v
            == w,
        (Exchange::ToInt32 { ctx, v, .. }, Exchange::ToInt32 { ctx: c, v: w, .. }) => ctx == c && v
            == w,
        (Exchange::ToUint32 { ctx, v, .. }, Exchange::ToUint32 { ctx: c, v: w, .. }) => ctx == c && v
            == w,
        (Exchange::ToFloat64 { ctx, v, .. }, Exchange::ToFloat64 { ctx: c, v: w, .. }) => ctx == c
            && v == w,
        _ => false,
    }
}

/// Whether two exchanges read the same property or the same element.
pub open spec fn same_read(a: Exchange, b: Exchange) -> bool {
    match (a, b) {
        (
            Exchange::GetPropertyStr { ctx, obj, key, .. },
            Exchange::GetPropertyStr { ctx: c, obj: o, key: k, .. },
        ) => ctx == c && obj == o && key == k,
        (
            Exchange::GetPropertyUint32 { ctx, obj, index, .. },
            Exchange::GetPropertyUint32 { ctx: c, obj: o, index: i, .. },
        ) => ctx == c && obj == o && index == i,
        _ => false,
    }
}

/// From the exchange `from` on, a value keeps its type: the same question about it is always
/// answered alike.
pub open spec fn steady_types(log: Seq<Exchange>, from: int) -> bool {
    forall|i: int, j: int|
        from <= i < log.len() && from <= j < log.len() && #[trigger] same_type_question(
            log[i],
            log[j],
        ) ==> log[i] == log[j]
}

/// From the exchange `from` on, the same property and the same element is always read alike.
pub open spec fn steady_reads(log: Seq<Exchange>, from: int) -> bool {
    forall|i: int, j: int|
        from <= i < log.len() && from <= j < log.len() && #[trigger] same_read(log[i], log[j])
            ==> log[i] == log[j]
}

/// Whether `question`, where it asks about the value that `making` made of a number, a truth
/// value, `null` or `undefined`, is answered with what it was made of.
pub open spec fn reads_back(making: Exchange, question: Exchange) -> bool {
    match (making, question) {
        (Exchange::NewInt32 { ret, .. }, Exchange::GetNormTag { v, ret: tag }) => v == ret ==> tag
            == JS_TAG_INT,
        (Exchange::NewInt32 { value, ret, .. }, Exchange::ToInt32 { v, ret: n, .. }) => v == ret
            ==> n == value,
        (Exchange::NewInt64 { value, ret, .. }, Exchange::GetNormTag { v, ret: tag }) => v == ret
            ==> (tag == JS_TAG_INT <==> i32::MIN <= value <= i32::MAX),
        (Exchange::NewInt64 { value, ret, .. }, Exchange::ToUint32 { v, ret: n, .. }) => v == ret
            && 0 <= value <= i32::MAX ==> n == value,
        (Exchange::NewBool { ret, .. }, Exchange::GetNormTag { v, ret: tag }) => v == ret ==> tag
            == JS_TAG_BOOL,
        (Exchange::NewBool { value, ret, .. }, Exchange::ToBool { v, ret: b, .. }) => v == ret ==> (b
            != 0 <==> value != 0),
        (Exchange::Null { ret }, Exchange::GetNormTag { v, ret: tag }) => v == ret ==> tag
            == JS_TAG_NULL,
        (Exchange::Undefined { ret }, Exchange::GetNormTag { v, ret: tag }) => v == ret ==> tag
            == JS_TAG_UNDEFINED,
        _ => true,
    }
}

/// From the exchange `from` on, a value made of a number, a truth value, `null` or `undefined` is
/// read back as what it was made of.
pub open spec fn plain_values_read_back(log: Seq<Exchange>, from: int) -> bool {
    forall|i: int, j: int|
        from <= i < j < log.len() ==> #[trigger] reads_back(log[i], log[j])
}

/// Whether an exchange may run code of a script.
pub open spec fn runs_code(x: Exchange) -> bool {
    ||| x is Eval
    ||| x is EvalFunction
    ||| x is Call
    ||| x is Invoke
    ||| x is Require
    ||| x is StdLoop
    ||| x is ToString
    ||| x is ToCString
}

/// The name that a record shows an atom to stand for.
pub open spec fn atom_name(log: Seq<Exchange>, atom: JSAtom) -> Option<Seq<u8>>
    decreases log.len(),
{
    if log.len() == 0 {
        None
    } else {
        match log.last() {
            Exchange::NewAtom { name, ret, .. } => if ret == atom {
                Some(name)
            } else {
                atom_name(log.drop_last(), atom)
            },
            Exchange::FreeAtom { atom: freed, .. } => if freed == atom {
                None
            } else {
                atom_name(log.drop_last(), atom)
            },
            _ => atom_name(log.drop_last(), atom),
        }
    }
}

/// The number that a record shows a raw value to have been made of.
pub open spec fn number_made(log: Seq<Exchange>, raw: JSValue) -> Option<int>
    decreases log.len(),
{
    if log.len() == 0 {
        None
    } else {
        match log.last() {
            Exchange::NewInt64 { value, ret, .. } => if ret == raw {
                Some(value as int)
            } else {
                number_made(log.drop_last(), raw)
            },
            _ => number_made(log.drop_last(), raw),
        }
    }
}

/// What the property `key` of `obj` holds after the exchange `x`, where it held `was` at the end
/// of the record `log`.
pub open spec fn property_next(
    log: Seq<Exchange>,
    was: Held,
    x: Exchange,
    obj: JSValue,
    key: Seq<u8>,
) -> Held {
    match x {
        Exchange::SetPropertyStr { obj: o, key: k, value, .. } => if o == obj && k == key {
            Held::Value(value)
        } else {
            was
        },
        Exchange::GetPropertyStr { obj: o, key: k, ret, .. } => if o == obj && k == key {
            Held::Value(ret)
        } else {
            was
        },
        Exchange::DeleteProperty { obj: o, prop, .. } => if o == obj {
            match atom_name(log, prop) {
                Some(name) => if name == key {
                    Held::Nothing
                } else {
                    was
                },
                None => Held::Unknown,
            }
        } else {
            was
        },
        Exchange::DefineProperty { obj: o, .. } => if o == obj {
            Held::Unknown
        } else {
            was
        },
        Exchange::SetPropertyUint32 { obj: o, .. } => if o == obj {
            Held::Unknown
        } else {
            was
        },
        _ => if runs_code(x) {
            Held::Unknown
        } else {
            was
        },
    }
}

/// What a record shows the property `key` of `obj` to hold: what was last written to it or read
/// from it, nothing once it was deleted. Code of a script may have changed it.
pub open spec fn property_held(log: Seq<Exchange>, obj: JSValue, key: Seq<u8>) -> Held
    decreases log.len(),
{
    if log.len() == 0 {
        Held::Unknown
    } else {
        property_next(
            log.drop_last(),
            property_held(log.drop_last(), obj, key),
            log.last(),
            obj,
            key,
        )
    }
}

/// What the element `index` of `obj` holds after the exchange `x`, where it held `was` at the end
/// of the record `log`.
pub open spec fn element_next(
    log: Seq<Exchange>,
    was: Held,
    x: Exchange,
    obj: JSValue,
    index: u32,
) -> Held {
    match x {
        Exchange::NewArray { ret, .. } => if ret == obj {
            Held::Nothing
        } else {
            was
        },
        Exchange::SetPropertyUint32 { obj: o, index: i, value, .. } => if o == obj && i == index {
            Held::Value(value)
        } else {
            was
        },
        Exchange::GetPropertyUint32 { obj: o, index: i, ret, .. } => if o == obj && i == index {
            Held::Value(ret)
        } else {
            was
        },
        Exchange::SetPropertyStr { obj: o, key, value, .. } => if o == obj {
            match number_made(log, value) {
                Some(n) => if key != c_text("length"@) {
                    Held::Unknown
                } else if index < n {
                    was
                } else {
                    Held::Nothing
                },
                None => Held::Unknown,
            }
        } else {
            was
        },
        Exchange::DeleteProperty { obj: o, .. } => if o == obj {
            Held::Unknown
        } else {
            was
        },
        Exchange::DefineProperty { obj: o, .. } => if o == obj {
            Held::Unknown
        } else {
            was
        },
        _ => if runs_code(x) {
            Held::Unknown
        } else {
            was
        },
    }
}

/// What a record shows the element `index` of `obj` to hold: what was last written to it or read
/// from it, nothing where the array is new or was cut off before it. Code of a script may have
/// changed it.
pub open spec fn element_held(log: Seq<Exchange>, obj: JSValue, index: u32) -> Held
    decreases log.len(),
{
    if log.len() == 0 {
        Held::Unknown
    } else {
        element_next(
            log.drop_last(),
            element_held(log.drop_last(), obj, index),
            log.last(),
            obj,
            index,
        )
    }
}

/// Whether every tag of `raw` that is asked for behind the exchange `i` is that of `undefined`.
pub open spec fn undefined_behind(log: Seq<Exchange>, i: int, raw: JSValue) -> bool {
    forall|j: int|
        i < j < log.len() ==> ((#[trigger] log[j]) matches Exchange::GetNormTag { v, ret } ==> (v
            == raw ==> ret == JS_TAG_UNDEFINED))
}

/// Whether the answer `raw`, the exchange `i`, agrees with what is `held`: the value that is, and
/// `undefined` where there is none.
pub open spec fn answer_agrees(log: Seq<Exchange>, i: int, held: Held, raw: JSValue) -> bool {
    match held {
        Held::Unknown => true,
        Held::Value(v) => raw == v,
        Held::Nothing => undefined_behind(log, i, raw),
    }
}

/// Whether the exchange `i`, where it reads the property `key` of `obj`, agrees with the record.
pub open spec fn property_agrees(
    log: Seq<Exchange>,
    i: int,
    obj: JSValue,
    key: Seq<u8>,
) -> bool {
    log[i] matches Exchange::GetPropertyStr { obj: o, key: k, ret, .. } ==> (o == obj && k == key
        ==> answer_agrees(log, i, property_held(log.take(i), obj, key), ret))
}

/// From the exchange `from` on, the property `key` of `obj` is a plain one: it is read as what it
/// holds.
pub open spec fn plain_property(
    log: Seq<Exchange>,
    from: int,
    obj: JSValue,
    key: Seq<u8>,
) -> bool {
    forall|i: int| from <= i < log.len() ==> #[trigger] property_agrees(log, i, obj, key)
}

/// Whether the exchange `i`, where it reads the element `index` of `obj`, agrees with the record.
pub open spec fn element_agrees(log: Seq<Exchange>, i: int, obj: JSValue, index: u32) -> bool {
    log[i] matches Exchange::GetPropertyUint32 { obj: o, index: k, ret, .. } ==> (o == obj && k
        == index ==> answer_agrees(log, i, element_held(log.take(i), obj, index), ret))
}

/// From the exchange `from` on, the element `index` of `obj` is a plain one: it is read as what it
/// holds.
pub open spec fn plain_element(log: Seq<Exchange>, from: int, obj: JSValue, index: u32) -> bool {
    forall|i: int| from <= i < log.len() ==> #[trigger] element_agrees(log, i, obj, index)
}

/// Whether an exchange leaves all properties and elements as they are, and no atom or number
/// behind.
pub open spec fn is_neutral(x: Exchange) -> bool {
    match x {
        Exchange::SetPropertyStr { .. } => false,
        Exchange::GetPropertyStr { .. } => false,
        Exchange::SetPropertyUint32 { .. } => false,
        Exchange::GetPropertyUint32 { .. } => false,
        Exchange::DeleteProperty { .. } => false,
        Exchange::DefineProperty { .. } => false,
        Exchange::NewArray { .. } => false,
        Exchange::NewAtom { .. } => false,
        Exchange::FreeAtom { .. } => false,
        Exchange::NewInt64 { .. } => false,
        _ => !runs_code(x),
    }
}

proof fn lemma_push(log: Seq<Exchange>, x: Exchange)
    ensures
        forall|obj: JSValue, key: Seq<u8>| #[trigger]
            property_held(log.push(x), obj, key) == property_next(
                log,
                property_held(log, obj, key),
                x,
                obj,
                key,
            ),
        forall|obj: JSValue, index: u32| #[trigger]
            element_held(log.push(x), obj, index) == element_next(
                log,
                element_held(log, obj, index),
                x,
                obj,
                index,
            ),
        forall|atom: JSAtom|
            #![trigger atom_name(log.push(x), atom)]
            !(x is NewAtom) && !(x is FreeAtom) ==> atom_name(log.push(x), atom) == atom_name(
                log,
                atom,
            ),
        forall|atom: JSAtom|
            #![trigger atom_name(log.push(x), atom)]
            x matches Exchange::NewAtom { name, ret, .. } ==> (ret == atom ==> atom_name(
                log.push(x),
                atom,
            ) == Some(name)),
        forall|raw: JSValue|
            #![trigger number_made(log.push(x), raw)]
            x matches Exchange::NewInt64 { value, ret, .. } ==> (ret == raw ==> number_made(
                log.push(x),
                raw,
            ) == Some(value as int)),
{
    assert(log.push(x).drop_last() =~= log);
}

/// Whether two records show all properties and elements to hold the same.
pub open spec fn all_held_alike(a: Seq<Exchange>, b: Seq<Exchange>) -> bool {
    &&& forall|obj: JSValue, key: Seq<u8>| #[trigger]
        property_held(a, obj, key) == property_held(b, obj, key)
    &&& forall|obj: JSValue, index: u32| #[trigger]
        element_held(a, obj, index) == element_held(b, obj, index)
}

proof fn lemma_neutral(log: Seq<Exchange>, more: Seq<Exchange>)
    requires
        forall|i: int| 0 <= i < more.len() ==> is_neutral(#[trigger] more[i]),
    ensures
        all_held_alike(log + more, log),
    decreases more.len(),
{
    if more.len() == 0 {
        assert(log + more =~= log);
    } else {
        let fewer = more.drop_last();
        assert forall|i: int| 0 <= i < fewer.len() implies is_neutral(#[trigger] fewer[i]) by {
            assert(fewer[i] == more[i]);
        }
        lemma_neutral(log, fewer);
        lemma_push(log + fewer, more.last());
        assert(is_neutral(more[more.len() - 1]));
        assert(log + more =~= (log + fewer).push(more.last()));
    }
}

proof fn lemma_questions_neutral(log: Seq<Exchange>, ctx: Address, p: Probe)
    ensures
        all_held_alike(log + questions(ctx, p), log),
{
    lemma_neutral(log, questions(ctx, p));
}

proof fn lemma_becomes_extends(
    before: Seq<Exchange>,
    after: Seq<Exchange>,
    ctx: Address,
    v: JSValue,
    x: JsValue,
)
    requires
        becomes(before, after, ctx, v, x),
    ensures
        before.is_prefix_of(after),
        before.len() < after.len(),
        after[before.len() as int] matches Exchange::GetNormTag { v: w, .. } && w == v,
        all_held_alike(after, before),
{
    let p = choose|p: Probe|
        p.v == v && after == before + #[trigger] questions(ctx, p) && x == typed(ctx, p);
    lemma_questions_neutral(before, ctx, p);
    assert(after[before.len() as int] == questions(ctx, p)[0]);
}

proof fn lemma_same_value(
    log: Seq<Exchange>,
    from: int,
    b1: Seq<Exchange>,
    a1: Seq<Exchange>,
    b2: Seq<Exchange>,
    a2: Seq<Exchange>,
    ctx: Address,
    v: JSValue,
    x: JsValue,
    y: JsValue,
)
    requires
        steady_types(log, from),
        from <= b1.len(),
        from <= b2.len(),
        becomes(b1, a1, ctx, v, x),
        becomes(b2, a2, ctx, v, y),
        a1.is_prefix_of(log),
        a2.is_prefix_of(log),
    ensures
        x == y,
{
    let p = choose|p: Probe|
        p.v == v && a1 == b1 + #[trigger] questions(ctx, p) && x == typed(ctx, p);
    let q = choose|q: Probe|
        q.v == v && a2 == b2 + #[trigger] questions(ctx, q) && y == typed(ctx, q);
    let s = questions(ctx, p);
    let t = questions(ctx, q);
    let m = b1.len() as int;
    let n = b2.len() as int;
    assert forall|i: int| 0 <= i < s.len() implies log[m + i] == #[trigger] s[i] by {
        assert(a1[m + i] == s[i]);
    }
    assert forall|i: int| 0 <= i < t.len() implies log[n + i] == #[trigger] t[i] by {
        assert(a2[n + i] == t[i]);
    }
    assert(same_type_question(s[0], t[0]));
    assert(same_type_question(log[m + 0], log[n + 0]));
    assert(p.tag == q.tag);
    if p.tag == JS_TAG_INT || p.tag == JS_TAG_FLOAT64 || p.tag == JS_TAG_BOOL {
        assert(same_type_question(s[1], t[1]));
        assert(same_type_question(log[m + 1], log[n + 1]));
    } else if p.tag == JS_TAG_OBJECT {
        assert(same_type_question(s[1], t[1]));
        assert(same_type_question(log[m + 1], log[n + 1]));
        if p.is_function == 0 {
            assert(same_type_question(s[2], t[2]));
            assert(same_type_question(log[m + 2], log[n + 2]));
            if p.is_array_buffer == 0 {
                assert(same_type_question(s[3], t[3]));
                assert(same_type_question(log[m + 3], log[n + 3]));
                if p.is_array == 0 {
                    assert(same_type_question(s[4], t[4]));
                    assert(same_type_question(log[m + 4], log[n + 4]));
                }
            }
        }
    }
}

/// A raw value is found to be the same value whenever it gets its type.
pub proof fn law_value_keeps_its_type(
    b1: Seq<Exchange>,
    a1: Seq<Exchange>,
    b2: Seq<Exchange>,
    a2: Seq<Exchange>,
    ctx: Address,
    v: JSValue,
    x: JsValue,
    y: JsValue,
)
    requires
        becomes(b1, a1, ctx, v, x),
        a1.is_prefix_of(b2),
        becomes(b2, a2, ctx, v, y),
        steady_types(a2, b1.len() as int),
    ensures
        x == y,
{
    lemma_becomes_extends(b1, a1, ctx, v, x);
    lemma_becomes_extends(b2, a2, ctx, v, y);
    lemma_same_value(a2, b1.len() as int, b1, a1, b2, a2, ctx, v, x, y);
}

/// Whether the exchange `j`, where it makes the value anew that the exchange `i` and the one
/// behind it found, gives the raw value that was asked about.
pub open spec fn made_alike(log: Seq<Exchange>, i: int, j: int) -> bool {
    log[i] matches Exchange::GetNormTag { v, ret: tag } ==> match log[j] {
        Exchange::NewInt32 { value, ret, .. } => tag == JS_TAG_INT ==> (log[i
            + 1] matches Exchange::ToInt32 { v: w, ret: n, .. } ==> (w == v && n == value ==> ret
            == v)),
        Exchange::NewBool { value, ret, .. } => tag == JS_TAG_BOOL ==> (log[i
            + 1] matches Exchange::ToBool { v: w, ret: b, .. } ==> (w == v && (b != 0 <==> value
            != 0) ==> ret == v)),
        Exchange::Null { ret } => tag == JS_TAG_NULL ==> ret == v,
        Exchange::Undefined { ret } => tag == JS_TAG_UNDEFINED ==> ret == v,
        _ => true,
    }
}

/// From the exchange `from` on, numbers, truth values, `null` and `undefined` have one raw form.
pub open spec fn plain_values_have_one_form(log: Seq<Exchange>, from: int) -> bool {
    forall|i: int, j: int| from <= i < j < log.len() ==> #[trigger] made_alike(log, i, j)
}

/// A value that got its type and goes back to the engine is the raw value that it was, unless it
/// is a double. No reference is taken or given up on the way.
pub proof fn law_raw_round_trip(
    before: Seq<Exchange>,
    found: Seq<Exchange>,
    ctx: Address,
    v: JSValue,
    x: JsValue,
    raw: JSValue,
)
    requires
        becomes(before, found, ctx, v, x),
        x !is Float,
        is_raw_of(raw, x),
        plain_values_have_one_form(after_encoding(found, x, raw), before.len() as int),
    ensures
        raw == v,
        before.is_prefix_of(after_encoding(found, x, raw)),
        forall|i: int|
            before.len() <= i < after_encoding(found, x, raw).len() ==> !((#[trigger] after_encoding(
                found,
                x,
                raw,
            )[i]) is DupValue) && !(after_encoding(found, x, raw)[i] is FreeValue),
{
    let p = choose|p: Probe|
        p.v == v && found == before + #[trigger] questions(ctx, p) && x == typed(ctx, p);
    let s = questions(ctx, p);
    let after = after_encoding(found, x, raw);
    let m = before.len() as int;
    assert forall|i: int| 0 <= i < s.len() implies after[m + i] == s[i] by {
        assert(found[m + i] == s[i]);
    }
    assert(after[m + 0] == s[0]);
    if x is Int || x is Bool {
        assert(after[m + 1] == s[1]);
    }
    assert(made_alike(after, m, after.len() - 1) || after.len() == found.len());
    assert forall|i: int| m <= i < after.len() implies !((#[trigger] after[i]) is DupValue) && !(
    after[i] is FreeValue) by {
        if i < found.len() {
            assert(after[m + (i - m)] == s[i - m]);
        }
    }
}

proof fn lemma_set_shows(
    before: Seq<Exchange>,
    set: Seq<Exchange>,
    r: JsRef,
    key: Seq<char>,
    value: JsValue,
    outcome: JsValue,
) -> (raw: JSValue)
    requires
        property_set(before, set, r, key, value, outcome),
    ensures
        is_raw_of(raw, value),
        after_encoding(before, value, raw).is_prefix_of(set),
        before.is_prefix_of(set),
        property_held(set, r.v, c_text(key)) == Held::Value(raw),
        forall|obj: JSValue, k: Seq<u8>|
            obj != r.v || k != c_text(key) ==> #[trigger] property_held(set, obj, k)
                == property_held(before, obj, k),
        forall|obj: JSValue, index: u32|
            obj != r.v ==> #[trigger] element_held(set, obj, index) == element_held(
                before,
                obj,
                index,
            ),
{
    let (raw, status) = choose|raw: JSValue, status: i32|
        {
            let written = after_encoding(before, value, raw).push(
                #[trigger] property_write(r, key, raw, status),
            );
            &&& is_raw_of(raw, value)
            &&& if status != 0 {
                &&& outcome matches JsValue::Exception(e)
                &&& e.0.ctx == r.ctx
                &&& set == written.push(Exchange::Exception { ret: e.0.v })
            } else {
                &&& outcome == JsValue::UnDefined
                &&& set == written
            }
        };
    let encoded = after_encoding(before, value, raw);
    if encoded != before {
        lemma_push(before, encoded.last());
        assert(encoded =~= before.push(encoded.last()));
    }
    let written = encoded.push(property_write(r, key, raw, status));
    lemma_push(encoded, property_write(r, key, raw, status));
    if status != 0 {
        lemma_push(written, set.last());
        assert(set =~= written.push(set.last()));
    }
    raw
}

pub(crate) proof fn lemma_got_shows(
    before: Seq<Exchange>,
    after: Seq<Exchange>,
    r: JsRef,
    key: Seq<char>,
    x: JsValue,
) -> (raw: JSValue)
    requires
        property_got(before, after, r, key, x),
    ensures
        before.is_prefix_of(after),
        before.len() + 1 < after.len(),
        after[before.len() as int] == (Exchange::GetPropertyStr {
            ctx: r.ctx,
            obj: r.v,
            key: c_text(key),
            ret: raw,
        }),
        after[before.len() as int + 1] matches Exchange::GetNormTag { v, .. } && v == raw,
        becomes(before.push(after[before.len() as int]), after, r.ctx, raw, x),
        after.take(before.len() as int) == before,
        property_held(after, r.v, c_text(key)) == Held::Value(raw),
        forall|obj: JSValue, k: Seq<u8>|
            obj != r.v || k != c_text(key) ==> #[trigger] property_held(after, obj, k)
                == property_held(before, obj, k),
{
    let raw = choose|raw: JSValue| #[trigger]
        becomes(
            before.push(
                Exchange::GetPropertyStr { ctx: r.ctx, obj: r.v, key: c_text(key), ret: raw },
            ),
            after,
            r.ctx,
            raw,
            x,
        );
    let asked = before.push(
        Exchange::GetPropertyStr { ctx: r.ctx, obj: r.v, key: c_text(key), ret: raw },
    );
    lemma_becomes_extends(asked, after, r.ctx, raw, x);
    lemma_push(before, asked.last());
    assert(after[before.len() as int] == asked[before.len() as int]);
    assert(after.take(before.len() as int) =~= before);
    raw
}

/// The encodings of two different texts without NUL are different C strings.
proof fn lemma_c_text_injective(a: Seq<char>, b: Seq<char>)
    requires
        nul_free(a),
        nul_free(b),
        c_text(a) == c_text(b),
    ensures
        a == b,
{
    law_c_string_round_trip(a);
    law_c_string_round_trip(b);
}

pub(crate) proof fn lemma_made_value_read(
    log: Seq<Exchange>,
    from: int,
    before: Seq<Exchange>,
    value: JsValue,
    raw: JSValue,
    read: Seq<Exchange>,
    after: Seq<Exchange>,
    ctx: Address,
    x: JsValue,
)
    requires
        plain_values_read_back(log, from),
        from <= before.len(),
        value is Int || value is Bool || value is Null || value is UnDefined,
        after_encoding(before, value, raw).is_prefix_of(read),
        becomes(read, after, ctx, raw, x),
        after.is_prefix_of(log),
    ensures
        x == value,
{
    let p = choose|p: Probe|
        p.v == raw && after == read + #[trigger] questions(ctx, p) && x == typed(ctx, p);
    let s = questions(ctx, p);
    let encoded = after_encoding(before, value, raw);
    let m = before.len() as int;
    let n = read.len() as int;
    assert(encoded.len() == m + 1);
    assert(log[m] == encoded[m]) by {
        assert(read[m] == encoded[m]);
        assert(after[m] == read[m]);
    }
    assert(log[n] == s[0]) by {
        assert(after[n] == s[0]);
    }
    assert(reads_back(log[m], log[n]));
    if value is Int || value is Bool {
        assert(log[n + 1] == s[1]) by {
            assert(after[n + 1] == s[1]);
        }
        assert(reads_back(log[m], log[n + 1]));
    }
}

/// A plain property that was set is read as what it was set to: the raw value that was written
/// comes back, and a number, a truth value, `null` or `undefined` comes back as itself.
pub proof fn law_get_gives_back_set(
    before: Seq<Exchange>,
    set: Seq<Exchange>,
    after: Seq<Exchange>,
    r: JsRef,
    key: Seq<char>,
    value: JsValue,
    outcome: JsValue,
    x: JsValue,
)
    requires
        property_set(before, set, r, key, value, outcome),
        property_got(set, after, r, key, x),
        plain_property(after, before.len() as int, r.v, c_text(key)),
        plain_values_read_back(after, before.len() as int),
    ensures
        exists|raw: JSValue|
            is_raw_of(raw, value) && after_encoding(before, value, raw).is_prefix_of(set)
                && #[trigger] becomes(
                set.push(
                    Exchange::GetPropertyStr { ctx: r.ctx, obj: r.v, key: c_text(key), ret: raw },
                ),
                after,
                r.ctx,
                raw,
                x,
            ),
        value is Int || value is Bool || value is Null || value is UnDefined ==> x == value,
{
    let raw = lemma_set_shows(before, set, r, key, value, outcome);
    let back = lemma_got_shows(set, after, r, key, x);
    let i = set.len() as int;
    assert(property_agrees(after, i, r.v, c_text(key)));
    assert(back == raw);
    let read = set.push(after[i]);
    assert(becomes(read, after, r.ctx, raw, x));
    if value is Int || value is Bool || value is Null || value is UnDefined {
        assert(after_encoding(before, value, raw).is_prefix_of(read));
        lemma_made_value_read(
            after,
            before.len() as int,
            before,
            value,
            raw,
            read,
            after,
            r.ctx,
            x,
        );
    }
}

/// As [`law_get_gives_back_set`] for a value with a reference, which got its type between `named`
/// and `known`: the plain property that was set to it is read as the same value.
pub proof fn law_get_gives_back_reference(
    named: Seq<Exchange>,
    known: Seq<Exchange>,
    before: Seq<Exchange>,
    set: Seq<Exchange>,
    after: Seq<Exchange>,
    r: JsRef,
    key: Seq<char>,
    v: JSValue,
    value: JsValue,
    outcome: JsValue,
    x: JsValue,
)
    requires
        becomes(named, known, r.ctx, v, value),
        value.reference() is Some,
        known.is_prefix_of(before),
        property_set(before, set, r, key, value, outcome),
        property_got(set, after, r, key, x),
        plain_property(after, before.len() as int, r.v, c_text(key)),
        steady_types(after, named.len() as int),
    ensures
        x == value,
{
    let raw = lemma_set_shows(before, set, r, key, value, outcome);
    let back = lemma_got_shows(set, after, r, key, x);
    let i = set.len() as int;
    assert(property_agrees(after, i, r.v, c_text(key)));
    lemma_becomes_extends(named, known, r.ctx, v, value);
    assert(raw == v);
    lemma_same_value(
        after,
        named.len() as int,
        named,
        known,
        set.push(after[i]),
        after,
        r.ctx,
        v,
        value,
        x,
    );
}

/// Setting a property leaves every other property of the object as it was.
pub proof fn law_set_leaves_other_keys(
    before: Seq<Exchange>,
    set: Seq<Exchange>,
    r: JsRef,
    key: Seq<char>,
    value: JsValue,
    outcome: JsValue,
    other: Seq<char>,
)
    requires
        property_set(before, set, r, key, value, outcome),
        nul_free(key),
        nul_free(other),
        other != key,
    ensures
        property_held(set, r.v, c_text(other)) == property_held(before, r.v, c_text(other)),
{
    let raw = lemma_set_shows(before, set, r, key, value, outcome);
    if c_text(other) == c_text(key) {
        lemma_c_text_injective(other, key);
    }
}

proof fn lemma_reads_alike(
    start: Seq<Exchange>,
    before: Seq<Exchange>,
    later: Seq<Exchange>,
    after: Seq<Exchange>,
    r: JsRef,
    key: Seq<char>,
    x: JsValue,
    y: JsValue,
)
    requires
        property_got(start, before, r, key, x),
        before.is_prefix_of(later),
        property_held(later, r.v, c_text(key)) == property_held(before, r.v, c_text(key)),
        property_got(later, after, r, key, y),
        plain_property(after, start.len() as int, r.v, c_text(key)),
        steady_types(after, start.len() as int),
    ensures
        x == y,
{
    let first = lemma_got_shows(start, before, r, key, x);
    let second = lemma_got_shows(later, after, r, key, y);
    assert(property_agrees(after, later.len() as int, r.v, c_text(key)));
    lemma_same_value(
        after,
        start.len() as int,
        start.push(before[start.len() as int]),
        before,
        later.push(after[later.len() as int]),
        after,
        r.ctx,
        first,
        x,
        y,
    );
}

/// A plain property is read alike before and after another one is set.
pub proof fn law_set_keeps_other_reads(
    start: Seq<Exchange>,
    before: Seq<Exchange>,
    set: Seq<Exchange>,
    after: Seq<Exchange>,
    r: JsRef,
    key: Seq<char>,
    value: JsValue,
    outcome: JsValue,
    other: Seq<char>,
    x: JsValue,
    y: JsValue,
)
    requires
        property_got(start, before, r, other, x),
        property_set(before, set, r, key, value, outcome),
        property_got(set, after, r, other, y),
        nul_free(key),
        nul_free(other),
        other != key,
        plain_property(after, start.len() as int, r.v, c_text(other)),
        steady_types(after, start.len() as int),
    ensures
        x == y,
{
    let raw = lemma_set_shows(before, set, r, key, value, outcome);
    law_set_leaves_other_keys(before, set, r, key, value, outcome, other);
    lemma_reads_alike(start, before, set, after, r, other, x, y);
}

pub(crate) proof fn lemma_delete_shows(
    before: Seq<Exchange>,
    deleted: Seq<Exchange>,
    r: JsRef,
    key: Seq<char>,
)
    requires
        property_deleted(before, deleted, r, key),
    ensures
        before.is_prefix_of(deleted),
        property_held(deleted, r.v, c_text(key)) == Held::Nothing,
        forall|obj: JSValue, k: Seq<u8>|
            obj != r.v || k != c_text(key) ==> #[trigger] property_held(deleted, obj, k)
                == property_held(before, obj, k),
{
    let atom = choose|atom: JSAtom| deleted == #[trigger] after_delete(before, r, key, atom);
    let named = before.push(Exchange::NewAtom { ctx: r.ctx, name: c_text(key), ret: atom });
    let gone = named.push(Exchange::DeleteProperty { ctx: r.ctx, obj: r.v, prop: atom, flags: 0 });
    lemma_push(before, named.last());
    lemma_push(named, gone.last());
    lemma_push(gone, deleted.last());
    assert(atom_name(named, atom) == Some(c_text(key)));
}

/// A plain property that was deleted is read as `undefined`.
pub proof fn law_deleted_property_is_undefined(
    before: Seq<Exchange>,
    deleted: Seq<Exchange>,
    after: Seq<Exchange>,
    r: JsRef,
    key: Seq<char>,
    x: JsValue,
)
    requires
        property_deleted(before, deleted, r, key),
        property_got(deleted, after, r, key, x),
        plain_property(after, before.len() as int, r.v, c_text(key)),
    ensures
        x == JsValue::UnDefined,
{
    lemma_delete_shows(before, deleted, r, key);
    let raw = lemma_got_shows(deleted, after, r, key, x);
    let i = deleted.len() as int;
    assert(property_agrees(after, i, r.v, c_text(key)));
    assert(after[i + 1] matches Exchange::GetNormTag { ret, .. } && ret == JS_TAG_UNDEFINED);
    let read = deleted.push(after[i]);
    let p = choose|p: Probe|
        p.v == raw && after == read + #[trigger] questions(r.ctx, p) && x == typed(r.ctx, p);
    assert(after[i + 1] == questions(r.ctx, p)[0]);
}

/// A plain property is read alike before and after another one is deleted.
pub proof fn law_delete_keeps_other_reads(
    start: Seq<Exchange>,
    before: Seq<Exchange>,
    deleted: Seq<Exchange>,
    after: Seq<Exchange>,
    r: JsRef,
    key: Seq<char>,
    other: Seq<char>,
    x: JsValue,
    y: JsValue,
)
    requires
        property_got(start, before, r, other, x),
        property_deleted(before, deleted, r, key),
        property_got(deleted, after, r, other, y),
        nul_free(key),
        nul_free(other),
        other != key,
        plain_property(after, start.len() as int, r.v, c_text(other)),
        steady_types(after, start.len() as int),
    ensures
        x == y,
{
    lemma_delete_shows(before, deleted, r, key);
    if c_text(other) == c_text(key) {
        lemma_c_text_injective(other, key);
    }
    lemma_reads_alike(start, before, deleted, after, r, other, x, y);
}

/// Deleting a property that holds nothing changes no property of any object.
pub proof fn law_delete_of_nothing_changes_nothing(
    before: Seq<Exchange>,
    deleted: Seq<Exchange>,
    r: JsRef,
    key: Seq<char>,
    obj: JSValue,
    other: Seq<u8>,
)
    requires
        property_deleted(before, deleted, r, key),
        property_held(before, r.v, c_text(key)) == Held::Nothing,
    ensures
        property_held(deleted, obj, other) == property_held(before, obj, other),
{
    lemma_delete_shows(before, deleted, r, key);
}

/// Once deleted, a property holds nothing, so deleting it again changes nothing.
pub proof fn law_deleted_property_holds_nothing(
    before: Seq<Exchange>,
    deleted: Seq<Exchange>,
    r: JsRef,
    key: Seq<char>,
)
    requires
        property_deleted(before, deleted, r, key),
    ensures
        property_held(deleted, r.v, c_text(key)) == Held::Nothing,
{
    lemma_delete_shows(before, deleted, r, key);
}

/// Whether the exchange `j`, where it asks for the text of the string that the exchange `i` made,
/// and the reading behind it give the bytes that the string was made of, up to the first NUL.
pub open spec fn text_kept(log: Seq<Exchange>, i: int, j: int) -> bool {
    log[i] matches Exchange::NewStringLen { bytes, ret: string, .. } ==> (
    log[j] matches Exchange::ToCString { v, ret: at, .. } ==> (v == string ==> at != 0 && (j + 1
        < log.len() ==> (log[j + 1] matches Exchange::ReadCString { text, ret: read } ==> (text
        == at ==> read == before_nul(bytes))))))
}

/// From the exchange `from` on, strings keep their text.
pub open spec fn strings_keep_text(log: Seq<Exchange>, from: int) -> bool {
    forall|i: int, j: int| from <= i < j < log.len() ==> #[trigger] text_kept(log, i, j)
}

proof fn lemma_before_nul_whole(bytes: Seq<u8>)
    requires
        !bytes.contains(0u8),
    ensures
        before_nul(bytes) == bytes,
    decreases bytes.len(),
{
    if bytes.len() > 0 {
        assert(bytes.contains(bytes[0]));
        let rest = bytes.drop_first();
        assert(!rest.contains(0u8)) by {
            if rest.contains(0u8) {
                let i = choose|i: int| 0 <= i < rest.len() && rest[i] == 0u8;
                assert(bytes[i + 1] == 0u8);
            }
        }
        lemma_before_nul_whole(rest);
        assert(seq![bytes[0]] + rest =~= bytes);
    }
}

/// A string that was made of a text gives the text back, up to its first NUL.
pub proof fn law_string_gives_back_text(
    before: Seq<Exchange>,
    read: Seq<Exchange>,
    after: Seq<Exchange>,
    ctx: Address,
    s: Seq<char>,
    string: JsRef,
    text: Seq<char>,
)
    requires
        before.push(
            Exchange::NewStringLen { ctx, bytes: encode_utf8(s), ret: string.v },
        ).is_prefix_of(read),
        text_read(read, after, string, text),
        strings_keep_text(after, before.len() as int),
    ensures
        text == text_of(before_nul(encode_utf8(s))),
        nul_free(s) ==> text == s,
{
    broadcast use {vstd::utf8::encode_utf8_valid_utf8, vstd::utf8::encode_utf8_decode_utf8};

    let made = before.push(Exchange::NewStringLen { ctx, bytes: encode_utf8(s), ret: string.v });
    let m = before.len() as int;
    let n = read.len() as int;
    let (at, bytes) = choose|at: Address, bytes: Seq<u8>|
        {
            let asked = read.push(Exchange::ToCString { ctx: string.ctx, v: string.v, ret: at });
            if at == 0 {
                after == asked && text == Seq::<char>::empty()
            } else {
                after == asked.push(#[trigger] c_string_read(at, bytes)).push(
                    Exchange::FreeCString { ctx: string.ctx, text: at },
                ) && text == text_of(bytes)
            }
        };
    assert(after[m] == made[m]) by {
        assert(read[m] == made[m]);
    }
    assert(text_kept(after, m, n));
    if nul_free(s) {
        lemma_before_nul_whole(encode_utf8(s));
    }
}

/// Whether the exchange `j`, where it asks for the bytes of the buffer that the exchange `i` made,
/// and the readings behind it give the bytes that the buffer was made of.
pub open spec fn bytes_kept(log: Seq<Exchange>, i: int, j: int) -> bool {
    log[i] matches Exchange::NewArrayBufferCopy { bytes, ret: buffer, .. } ==> (
    log[j] matches Exchange::GetArrayBuffer { v, ret: at, .. } ==> (v == buffer ==> at.1
        == bytes.len() && forall|k: int|
        j < k < log.len() ==> ((#[trigger] log[k]) matches Exchange::ReadByte {
            base,
            offset,
            ret: byte,
        } ==> (base == at.0 && offset < bytes.len() ==> byte == bytes[offset as int]))))
}

/// From the exchange `from` on, buffers keep their bytes.
pub open spec fn buffers_keep_bytes(log: Seq<Exchange>, from: int) -> bool {
    forall|i: int, j: int| from <= i < j < log.len() ==> #[trigger] bytes_kept(log, i, j)
}

/// A buffer that was made of some bytes gives these bytes back.
pub proof fn law_buffer_gives_back_bytes(
    before: Seq<Exchange>,
    read: Seq<Exchange>,
    after: Seq<Exchange>,
    ctx: Address,
    bytes: Seq<u8>,
    buffer: JsRef,
    base: Address,
    back: Seq<u8>,
)
    requires
        before.push(
            Exchange::NewArrayBufferCopy { ctx, bytes, ret: buffer.v },
        ).is_prefix_of(read),
        after == read.push(buffer_answer(buffer, base, back.len() as usize)) + bytes_reading(
            base,
            back,
        ),
        back.len() <= usize::MAX,
        buffers_keep_bytes(after, before.len() as int),
    ensures
        back == bytes,
{
    let made = before.push(Exchange::NewArrayBufferCopy { ctx, bytes, ret: buffer.v });
    let m = before.len() as int;
    let n = read.len() as int;
    let asked = read.push(buffer_answer(buffer, base, back.len() as usize));
    assert(after[m] == made[m]) by {
        assert(read[m] == made[m]);
    }
    assert(after[n] == asked[n]);
    assert(bytes_kept(after, m, n));
    assert(back.len() == bytes.len());
    assert forall|i: int| 0 <= i < back.len() implies back[i] == bytes[i] by {
        assert(after[n + 1 + i] == bytes_reading(base, back)[i]);
    }
}

proof fn lemma_u32_read_extends(
    before: Seq<Exchange>,
    after: Seq<Exchange>,
    ctx: Address,
    v: JSValue,
    n: Option<u32>,
)
    requires
        u32_read(before, after, ctx, v, n),
    ensures
        before.is_prefix_of(after),
        before.len() < after.len(),
        after[before.len() as int] matches Exchange::GetNormTag { v: w, ret } && w == v && (n is Some
            <==> ret == JS_TAG_INT),
        n matches Some(k) ==> before.len() + 1 < after.len() && after[before.len() as int + 1] == (
        Exchange::ToUint32 { ctx, v, ret: k }),
{
    let tag = choose|tag: i32|
        {
            let asked = before.push(#[trigger] tag_answer(v, tag));
            match n {
                Some(k) => tag == JS_TAG_INT && after == asked.push(
                    Exchange::ToUint32 { ctx, v, ret: k },
                ),
                None => tag != JS_TAG_INT && after == asked,
            }
        };
    assert(after[before.len() as int] == tag_answer(v, tag));
}

proof fn lemma_same_number(
    log: Seq<Exchange>,
    from: int,
    b1: Seq<Exchange>,
    a1: Seq<Exchange>,
    b2: Seq<Exchange>,
    a2: Seq<Exchange>,
    ctx: Address,
    v: JSValue,
    m: Option<u32>,
    n: Option<u32>,
)
    requires
        steady_types(log, from),
        from <= b1.len(),
        from <= b2.len(),
        u32_read(b1, a1, ctx, v, m),
        u32_read(b2, a2, ctx, v, n),
        a1.is_prefix_of(log),
        a2.is_prefix_of(log),
    ensures
        m == n,
{
    lemma_u32_read_extends(b1, a1, ctx, v, m);
    lemma_u32_read_extends(b2, a2, ctx, v, n);
    let i = b1.len() as int;
    let j = b2.len() as int;
    assert(log[i] == a1[i] && log[j] == a2[j]);
    assert(same_type_question(log[i], log[j]));
    if m is Some {
        assert(log[i + 1] == a1[i + 1] && log[j + 1] == a2[j + 1]);
        assert(same_type_question(log[i + 1], log[j + 1]));
    }
}

proof fn lemma_element_read_extends(
    before: Seq<Exchange>,
    after: Seq<Exchange>,
    r: JsRef,
    i: u32,
    x: JsValue,
) -> (raw: JSValue)
    requires
        element_read(before, after, r, i, x),
    ensures
        before.is_prefix_of(after),
        before.len() + 1 < after.len(),
        after[before.len() as int] == element_answer(r, i, raw),
        exists|asked: Seq<Exchange>| #[trigger]
            becomes(asked, after, r.ctx, raw, x) && asked.len() == before.len() + 2,
{
    let (raw, tag) = choose|raw: JSValue, tag: i32|
        tag != JS_TAG_EXCEPTION && becomes(
            before.push(element_answer(r, i, raw)).push(#[trigger] tag_answer(raw, tag)),
            after,
            r.ctx,
            raw,
            x,
        );
    let asked = before.push(element_answer(r, i, raw)).push(tag_answer(raw, tag));
    lemma_becomes_extends(asked, after, r.ctx, raw, x);
    assert(after[before.len() as int] == asked[before.len() as int]);
    raw
}

proof fn lemma_steps_extend(
    marks: Seq<Seq<Exchange>>,
    r: JsRef,
    xs: Seq<JsValue>,
    m: int,
    n: int,
)
    requires
        read_in_steps(marks, r, xs),
        0 <= m <= n <= xs.len(),
    ensures
        marks[m].is_prefix_of(marks[n]),
    decreases n - m,
{
    if m < n {
        lemma_steps_extend(marks, r, xs, m, n - 1);
        assert(element_read(marks[n - 1], marks[n - 1 + 1], r, (n - 1) as u32, xs[n - 1]));
        let raw = lemma_element_read_extends(
            marks[n - 1],
            marks[n],
            r,
            (n - 1) as u32,
            xs[n - 1],
        );
    }
}

/// From the exchange `from` on, no element that is read and asked for its tag is an exception.
pub open spec fn no_exceptions(log: Seq<Exchange>, from: int) -> bool {
    forall|i: int|
        from <= i < log.len() ==> ((#[trigger] log[i]) matches Exchange::GetNormTag { ret, .. }
            ==> ret != JS_TAG_EXCEPTION)
}

/// Reading an array of plain elements ends well.
pub proof fn law_plain_array_is_read(
    before: Seq<Exchange>,
    after: Seq<Exchange>,
    r: JsRef,
    result: Result<Seq<JsValue>, JsException>,
)
    requires
        array_read(before, after, r, result),
        no_exceptions(after, before.len() as int),
    ensures
        result is Ok,
{
    if let Err(e) = result {
        let (raw, n, sized) = choose|raw: JSValue, n: Option<u32>, sized: Seq<Exchange>|
            {
                let freed = sized.push(Exchange::FreeValue { ctx: r.ctx, v: raw });
                &&& #[trigger] u32_read(before.push(length_answer(r, raw)), sized, r.ctx, raw, n)
                &&& elements_failed(freed, after, r, count_of(n), e)
            };
        let freed = sized.push(Exchange::FreeValue { ctx: r.ctx, v: raw });
        lemma_u32_read_extends(before.push(length_answer(r, raw)), sized, r.ctx, raw, n);
        let (marks, xs) = choose|marks: Seq<Seq<Exchange>>, xs: Seq<JsValue>| #[trigger]
            reading_stopped(freed, after, r, count_of(n), e, marks, xs);
        lemma_steps_extend(marks, r, xs, 0, xs.len() as int);
        let met = marks.last().push(element_answer(r, xs.len() as u32, e.0.v)).push(
            tag_answer(e.0.v, JS_TAG_EXCEPTION),
        );
        law_release_all_asks_once_per_reference(met, after, xs);
        let i = met.len() - 1;
        assert(after[i] == met[i]);
    }
}

/// What an array is read as agrees with its length and with its elements, each asked for on its
/// own: there are as many, and they are the same values.
pub proof fn law_vec_agrees_with_elements(
    before: Seq<Exchange>,
    read: Seq<Exchange>,
    sized: Seq<Exchange>,
    after: Seq<Exchange>,
    r: JsRef,
    xs: Seq<JsValue>,
    len: usize,
    i: u32,
    x: JsValue,
)
    requires
        array_read(before, read, r, Ok(xs)),
        exists|raw: JSValue, n: Option<u32>| #[trigger]
            u32_read(read.push(length_answer(r, raw)), sized, r.ctx, raw, n) && len == count_of(n),
        exists|raw: JSValue| #[trigger]
            becomes(sized.push(element_answer(r, i, raw)), after, r.ctx, raw, x),
        steady_reads(after, before.len() as int),
        steady_types(after, before.len() as int),
    ensures
        xs.len() == len,
        i < len ==> x == xs[i as int],
{
    let (raw, n, got) = choose|raw: JSValue, n: Option<u32>, got: Seq<Exchange>|
        {
            let freed = got.push(Exchange::FreeValue { ctx: r.ctx, v: raw });
            &&& #[trigger] u32_read(before.push(length_answer(r, raw)), got, r.ctx, raw, n)
            &&& elements_read(freed, read, r, count_of(n), xs)
        };
    let freed = got.push(Exchange::FreeValue { ctx: r.ctx, v: raw });
    let marks = choose|marks: Seq<Seq<Exchange>>|
        xs.len() == count_of(n) && #[trigger] read_in_steps(marks, r, xs) && marks[0] == freed
            && marks.last() == read;
    let (raw2, n2) = choose|raw2: JSValue, n2: Option<u32>| #[trigger]
        u32_read(read.push(length_answer(r, raw2)), sized, r.ctx, raw2, n2) && len == count_of(n2);
    let raw3 = choose|raw3: JSValue| #[trigger]
        becomes(sized.push(element_answer(r, i, raw3)), after, r.ctx, raw3, x);
    let asked = before.push(length_answer(r, raw));
    let asked2 = read.push(length_answer(r, raw2));
    let asked3 = sized.push(element_answer(r, i, raw3));
    lemma_u32_read_extends(asked, got, r.ctx, raw, n);
    lemma_steps_extend(marks, r, xs, 0, xs.len() as int);
    lemma_u32_read_extends(asked2, sized, r.ctx, raw2, n2);
    lemma_becomes_extends(asked3, after, r.ctx, raw3, x);
    let from = before.len() as int;
    assert(after[from] == asked[from]) by {
        assert(got[from] == asked[from]);
        assert(freed[from] == got[from]);
        assert(read[from] == freed[from]);
        assert(sized[from] == read[from]);
        assert(after[from] == sized[from]);
    }
    let k = read.len() as int;
    assert(after[k] == asked2[k]) by {
        assert(sized[k] == asked2[k]);
        assert(after[k] == sized[k]);
    }
    assert(same_read(after[from], after[k]));
    assert(raw == raw2);
    assert(got.is_prefix_of(freed));
    assert(freed.is_prefix_of(read));
    assert(read.is_prefix_of(sized));
    assert(sized.is_prefix_of(after));
    assert(got.is_prefix_of(after));
    lemma_same_number(after, from, asked, got, asked2, sized, r.ctx, raw, n, n2);
    if i < len {
        let a = marks[i as int];
        let b = marks[i as int + 1];
        assert(element_read(marks[i as int], marks[i as int + 1], r, i as int as u32, xs[i as int]));
        let raw4 = lemma_element_read_extends(a, b, r, i, xs[i as int]);
        lemma_steps_extend(marks, r, xs, 0, i as int);
        lemma_steps_extend(marks, r, xs, i as int + 1, xs.len() as int);
        assert(b.is_prefix_of(read));
        assert(b.is_prefix_of(after));
        assert(after[a.len() as int] == b[a.len() as int]);
        let l = sized.len() as int;
        assert(after[l] == asked3[l]);
        assert(same_read(after[a.len() as int], after[l]));
        assert(raw3 == raw4);
        let c = choose|c: Seq<Exchange>| #[trigger]
            becomes(c, b, r.ctx, raw4, xs[i as int]) && c.len() == a.len() + 2;
        lemma_same_value(after, from, c, b, asked3, after, r.ctx, raw3, xs[i as int], x);
    }
}

/// Whether an exchange writes to an object.
pub open spec fn is_write(x: Exchange) -> bool {
    ||| x is SetPropertyStr
    ||| x is SetPropertyUint32
    ||| x is DefineProperty
    ||| x is DeleteProperty
}

/// Whether the record `after` goes on from `before` without writing to an object or running code.
pub open spec fn only_reads(before: Seq<Exchange>, after: Seq<Exchange>) -> bool {
    &&& before.is_prefix_of(after)
    &&& forall|i: int|
        before.len() <= i < after.len() ==> !is_write(#[trigger] after[i]) && !runs_code(after[i])
}

proof fn lemma_only_reads_chain(a: Seq<Exchange>, b: Seq<Exchange>, c: Seq<Exchange>)
    requires
        only_reads(a, b),
        only_reads(b, c),
    ensures
        only_reads(a, c),
{
    assert forall|i: int| a.len() <= i < c.len() implies !is_write(#[trigger] c[i]) && !runs_code(
        c[i],
    ) by {
        if i < b.len() {
            assert(c[i] == b[i]);
        }
    }
}

proof fn lemma_becomes_only_reads(
    before: Seq<Exchange>,
    after: Seq<Exchange>,
    ctx: Address,
    v: JSValue,
    x: JsValue,
)
    requires
        becomes(before, after, ctx, v, x),
    ensures
        only_reads(before, after),
{
    let p = choose|p: Probe|
        p.v == v && after == before + #[trigger] questions(ctx, p) && x == typed(ctx, p);
    assert forall|i: int| before.len() <= i < after.len() implies !is_write(#[trigger] after[i])
        && !runs_code(after[i]) by {
        assert(after[i] == questions(ctx, p)[i - before.len()]);
    }
}

proof fn lemma_steps_only_read(
    marks: Seq<Seq<Exchange>>,
    r: JsRef,
    xs: Seq<JsValue>,
    n: int,
)
    requires
        read_in_steps(marks, r, xs),
        0 <= n <= xs.len(),
    ensures
        only_reads(marks[0], marks[n]),
    decreases n,
{
    if n > 0 {
        lemma_steps_only_read(marks, r, xs, n - 1);
        let a = marks[n - 1];
        let b = marks[n];
        let i = (n - 1) as u32;
        assert(element_read(marks[n - 1], marks[n - 1 + 1], r, i, xs[n - 1]));
        let (raw, tag) = choose|raw: JSValue, tag: i32|
            tag != JS_TAG_EXCEPTION && becomes(
                a.push(element_answer(r, i, raw)).push(#[trigger] tag_answer(raw, tag)),
                b,
                r.ctx,
                raw,
                xs[n - 1],
            );
        let asked = a.push(element_answer(r, i, raw)).push(tag_answer(raw, tag));
        lemma_becomes_only_reads(asked, b, r.ctx, raw, xs[n - 1]);
        assert(only_reads(a, asked));
        lemma_only_reads_chain(a, asked, b);
        lemma_only_reads_chain(marks[0], a, b);
    }
}

proof fn lemma_drops_only_read(marks: Seq<Seq<Exchange>>, xs: Seq<JsValue>, n: int)
    requires
        dropped_in_steps(marks, xs),
        0 <= n <= xs.len(),
    ensures
        only_reads(marks[0], marks[n]),
    decreases n,
{
    if n > 0 {
        lemma_drops_only_read(marks, xs, n - 1);
        assert(dropped(marks[n - 1], marks[n - 1 + 1], xs[n - 1]));
        if let Some(o) = xs[n - 1].reference() {
            let tag = choose|tag: i32| marks[n] == #[trigger] after_release(marks[n - 1], o, tag);
        }
        assert(only_reads(marks[n - 1], marks[n]));
        lemma_only_reads_chain(marks[0], marks[n - 1], marks[n]);
    }
}

/// Reading an array, whether it ends well or in an exception, writes to no object and runs no
/// code.
pub proof fn law_array_reading_only_reads(
    before: Seq<Exchange>,
    after: Seq<Exchange>,
    r: JsRef,
    result: Result<Seq<JsValue>, JsException>,
)
    requires
        array_read(before, after, r, result),
    ensures
        only_reads(before, after),
{
    let (raw, n, sized) = choose|raw: JSValue, n: Option<u32>, sized: Seq<Exchange>|
        {
            let freed = sized.push(Exchange::FreeValue { ctx: r.ctx, v: raw });
            &&& #[trigger] u32_read(before.push(length_answer(r, raw)), sized, r.ctx, raw, n)
            &&& match result {
                Ok(xs) => elements_read(freed, after, r, count_of(n), xs),
                Err(e) => elements_failed(freed, after, r, count_of(n), e),
            }
        };
    let asked = before.push(length_answer(r, raw));
    let tag = choose|tag: i32|
        {
            let told = asked.push(#[trigger] tag_answer(raw, tag));
            match n {
                Some(k) => tag == JS_TAG_INT && sized == told.push(
                    Exchange::ToUint32 { ctx: r.ctx, v: raw, ret: k },
                ),
                None => tag != JS_TAG_INT && sized == told,
            }
        };
    let freed = sized.push(Exchange::FreeValue { ctx: r.ctx, v: raw });
    assert(only_reads(before, freed));
    match result {
        Ok(xs) => {
            let marks = choose|marks: Seq<Seq<Exchange>>|
                xs.len() == count_of(n) && #[trigger] read_in_steps(marks, r, xs) && marks[0]
                    == freed && marks.last() == after;
            lemma_steps_only_read(marks, r, xs, xs.len() as int);
            lemma_only_reads_chain(before, freed, after);
        },
        Err(e) => {
            let (marks, xs) = choose|marks: Seq<Seq<Exchange>>, xs: Seq<JsValue>| #[trigger]
                reading_stopped(freed, after, r, count_of(n), e, marks, xs);
            lemma_steps_only_read(marks, r, xs, xs.len() as int);
            let met = marks.last().push(element_answer(r, xs.len() as u32, e.0.v)).push(
                tag_answer(e.0.v, JS_TAG_EXCEPTION),
            );
            assert(only_reads(marks.last(), met));
            let steps = choose|steps: Seq<Seq<Exchange>>| #[trigger]
                dropped_in_steps(steps, xs) && steps[0] == met && steps[xs.len() as int] == after;
            lemma_drops_only_read(steps, xs, xs.len() as int);
            lemma_only_reads_chain(before, freed, marks.last());
            lemma_only_reads_chain(before, marks.last(), met);
            lemma_only_reads_chain(before, met, after);
        },
    }
}

/// The length that an array was set to is the length that it has, up to the largest 32-bit
/// integer; above that it is read as zero.
pub proof fn law_length_gives_back_length(
    before: Seq<Exchange>,
    set: Seq<Exchange>,
    after: Seq<Exchange>,
    r: JsRef,
    n: usize,
    written: JSValue,
    status: i32,
    read: JSValue,
    found: Option<u32>,
)
    requires
        n <= i64::MAX,
        set == before.push(
            Exchange::NewInt64 { ctx: r.ctx, value: n as i64, ret: written },
        ).push(length_write(r, written, status)),
        u32_read(set.push(length_answer(r, read)), after, r.ctx, read, found),
        plain_property(after, before.len() as int, r.v, c_text("length"@)),
        plain_values_read_back(after, before.len() as int),
    ensures
        count_of(found) == if n <= i32::MAX {
            n as int
        } else {
            0
        },
{
    let key = c_text("length"@);
    let made = before.push(Exchange::NewInt64 { ctx: r.ctx, value: n as i64, ret: written });
    let asked = set.push(length_answer(r, read));
    lemma_push(made, length_write(r, written, status));
    assert(property_held(set, r.v, key) == Held::Value(written));
    lemma_u32_read_extends(asked, after, r.ctx, read, found);
    let m = before.len() as int;
    let k = set.len() as int;
    assert(after[m] == asked[m]);
    assert(after[k] == asked[k]);
    assert(after.take(k) =~= set);
    assert(property_agrees(after, k, r.v, key));
    assert(read == written);
    assert(reads_back(after[m], after[k + 1]));
    if found is Some {
        assert(reads_back(after[m], after[k + 2]));
    }
}

/// Setting the length of an array leaves the elements below it as they were, and none above.
pub proof fn law_length_cuts_elements(
    before: Seq<Exchange>,
    r: JsRef,
    n: usize,
    written: JSValue,
    status: i32,
    index: u32,
)
    requires
        n <= i64::MAX,
    ensures
        element_held(
            before.push(
                Exchange::NewInt64 { ctx: r.ctx, value: n as i64, ret: written },
            ).push(length_write(r, written, status)),
            r.v,
            index,
        ) == if index < n {
            element_held(before, r.v, index)
        } else {
            Held::Nothing
        },
{
    let made = before.push(Exchange::NewInt64 { ctx: r.ctx, value: n as i64, ret: written });
    lemma_push(before, made.last());
    lemma_push(made, length_write(r, written, status));
}

/// A plain element is read as the value that it holds, and as `undefined` where it holds none.
pub proof fn law_element_is_read_as_held(
    before: Seq<Exchange>,
    after: Seq<Exchange>,
    r: JsRef,
    i: u32,
    raw: JSValue,
    x: JsValue,
)
    requires
        becomes(before.push(element_answer(r, i, raw)), after, r.ctx, raw, x),
        plain_element(after, before.len() as int, r.v, i),
    ensures
        element_held(before, r.v, i) matches Held::Value(v) ==> raw == v,
        element_held(before, r.v, i) is Nothing ==> x == JsValue::UnDefined,
{
    let asked = before.push(element_answer(r, i, raw));
    lemma_becomes_extends(asked, after, r.ctx, raw, x);
    let k = before.len() as int;
    assert(after[k] == asked[k]);
    assert(after.take(k) =~= before);
    assert(element_agrees(after, k, r.v, i));
    if element_held(before, r.v, i) is Nothing {
        assert(after[k + 1] matches Exchange::GetNormTag { ret, .. } && ret == JS_TAG_UNDEFINED);
        let p = choose|p: Probe|
            p.v == raw && after == asked + #[trigger] questions(r.ctx, p) && x == typed(r.ctx, p);
        assert(after[k + 1] == questions(r.ctx, p)[0]);
    }
}

proof fn lemma_element_set_shows(
    before: Seq<Exchange>,
    set: Seq<Exchange>,
    r: JsRef,
    i: u32,
    x: JsValue,
) -> (raw: JSValue)
    requires
        element_set(before, set, r, i, x),
    ensures
        is_raw_of(raw, x),
        set == after_encoding(before, x, raw).push(element_write(r, i, raw)),
        before.is_prefix_of(set),
        element_held(set, r.v, i) == Held::Value(raw),
        forall|obj: JSValue, index: u32|
            obj != r.v || index != i ==> #[trigger] element_held(set, obj, index) == element_held(
                before,
                obj,
                index,
            ),
        forall|obj: JSValue, key: Seq<u8>|
            obj != r.v ==> #[trigger] property_held(set, obj, key) == property_held(
                before,
                obj,
                key,
            ),
{
    let raw = choose|raw: JSValue|
        is_raw_of(raw, x) && set == after_encoding(before, x, raw).push(
            #[trigger] element_write(r, i, raw),
        );
    let encoded = after_encoding(before, x, raw);
    if encoded != before {
        lemma_push(before, encoded.last());
        assert(encoded =~= before.push(encoded.last()));
    }
    lemma_push(encoded, element_write(r, i, raw));
    raw
}

/// A plain element that was set is read as what it was set to: the raw value that was written
/// comes back, and a number, a truth value, `null` or `undefined` comes back as itself.
pub proof fn law_element_gives_back_set(
    before: Seq<Exchange>,
    set: Seq<Exchange>,
    after: Seq<Exchange>,
    r: JsRef,
    i: u32,
    value: JsValue,
    raw: JSValue,
    x: JsValue,
)
    requires
        element_set(before, set, r, i, value),
        becomes(set.push(element_answer(r, i, raw)), after, r.ctx, raw, x),
        plain_element(after, before.len() as int, r.v, i),
        plain_values_read_back(after, before.len() as int),
    ensures
        is_raw_of(raw, value),
        set == after_encoding(before, value, raw).push(element_write(r, i, raw)),
        value is Int || value is Bool || value is Null || value is UnDefined ==> x == value,
{
    let written = lemma_element_set_shows(before, set, r, i, value);
    let asked = set.push(element_answer(r, i, raw));
    lemma_becomes_extends(asked, after, r.ctx, raw, x);
    let k = set.len() as int;
    assert(after[k] == asked[k]);
    assert(after.take(k) =~= set);
    assert(element_agrees(after, k, r.v, i));
    assert(raw == written);
    if value is Int || value is Bool || value is Null || value is UnDefined {
        lemma_made_value_read(
            after,
            before.len() as int,
            before,
            value,
            raw,
            asked,
            after,
            r.ctx,
            x,
        );
    }
}

/// As [`law_element_gives_back_set`] for a value with a reference, which got its type between
/// `named` and `known`: the plain element that was set to it is read as the same value.
pub proof fn law_element_gives_back_reference(
    named: Seq<Exchange>,
    known: Seq<Exchange>,
    before: Seq<Exchange>,
    set: Seq<Exchange>,
    after: Seq<Exchange>,
    r: JsRef,
    i: u32,
    v: JSValue,
    value: JsValue,
    raw: JSValue,
    x: JsValue,
)
    requires
        becomes(named, known, r.ctx, v, value),
        value.reference() is Some,
        known.is_prefix_of(before),
        element_set(before, set, r, i, value),
        becomes(set.push(element_answer(r, i, raw)), after, r.ctx, raw, x),
        plain_element(after, before.len() as int, r.v, i),
        steady_types(after, named.len() as int),
    ensures
        x == value,
{
    let written = lemma_element_set_shows(before, set, r, i, value);
    let asked = set.push(element_answer(r, i, raw));
    lemma_becomes_extends(asked, after, r.ctx, raw, x);
    let k = set.len() as int;
    assert(after[k] == asked[k]);
    assert(after.take(k) =~= set);
    assert(element_agrees(after, k, r.v, i));
    lemma_becomes_extends(named, known, r.ctx, v, value);
    assert(raw == v);
    lemma_same_value(
        after,
        named.len() as int,
        named,
        known,
        asked,
        after,
        r.ctx,
        v,
        value,
        x,
    );
}

/// Setting an element leaves every other element as it was, and every property of other objects.
pub proof fn law_element_set_leaves_others(
    before: Seq<Exchange>,
    set: Seq<Exchange>,
    r: JsRef,
    i: u32,
    value: JsValue,
    obj: JSValue,
    index: u32,
    key: Seq<u8>,
)
    requires
        element_set(before, set, r, i, value),
    ensures
        obj != r.v || index != i ==> element_held(set, obj, index) == element_held(
            before,
            obj,
            index,
        ),
        obj != r.v ==> property_held(set, obj, key) == property_held(before, obj, key),
{
    let raw = lemma_element_set_shows(before, set, r, i, value);
}

/// Whether the raw value `string` was made of the text `text` between the two records.
pub open spec fn string_made(
    before: Seq<Exchange>,
    after: Seq<Exchange>,
    ctx: Address,
    text: Seq<char>,
    string: JSValue,
) -> bool {
    exists|k: int|
        before.len() <= k < after.len() && #[trigger] after[k] == (Exchange::NewStringLen {
            ctx,
            bytes: encode_utf8(text),
            ret: string,
        })
}

proof fn lemma_arguments_show(
    base: Seq<Exchange>,
    ctx: Address,
    array: JSValue,
    args: Seq<Seq<char>>,
    strings: Seq<JSValue>,
)
    requires
        strings.len() == args.len(),
        args.len() <= 0x1_0000_0000,
    ensures
        base.is_prefix_of(after_arguments(base, ctx, array, args, strings)),
        forall|obj: JSValue, index: u32| #[trigger]
            element_held(after_arguments(base, ctx, array, args, strings), obj, index) == if obj
                == array && index < args.len() {
                Held::Value(strings[index as int])
            } else {
                element_held(base, obj, index)
            },
        forall|obj: JSValue, key: Seq<u8>|
            obj != array ==> #[trigger] property_held(
                after_arguments(base, ctx, array, args, strings),
                obj,
                key,
            ) == property_held(base, obj, key),
        forall|i: int|
            0 <= i < args.len() ==> #[trigger] string_made(
                base,
                after_arguments(base, ctx, array, args, strings),
                ctx,
                args[i],
                strings[i],
            ),
    decreases args.len(),
{
    if args.len() > 0 {
        let rest = args.drop_last();
        let fewer = strings.drop_last();
        let n = args.len() - 1;
        lemma_arguments_show(base, ctx, array, rest, fewer);
        let done = after_arguments(base, ctx, array, rest, fewer);
        let made = done.push(
            Exchange::NewStringLen { ctx, bytes: encode_utf8(args.last()), ret: strings.last() },
        );
        let all = after_arguments(base, ctx, array, args, strings);
        lemma_push(done, made.last());
        lemma_push(made, all.last());
        assert(all =~= made.push(all.last()));
        assert forall|i: int| 0 <= i < args.len() implies #[trigger] string_made(
            base,
            all,
            ctx,
            args[i],
            strings[i],
        ) by {
            if i < n {
                assert(string_made(base, done, ctx, rest[i], fewer[i]));
                let k = choose|k: int|
                    base.len() <= k < done.len() && #[trigger] done[k] == (Exchange::NewStringLen {
                        ctx,
                        bytes: encode_utf8(rest[i]),
                        ret: fewer[i],
                    });
                assert(all[k] == done[k]);
            } else {
                assert(all[done.len() as int] == made.last());
            }
        }
        assert forall|obj: JSValue, index: u32| #[trigger]
            element_held(all, obj, index) == (if obj == array && index < args.len() {
                Held::Value(strings[index as int])
            } else {
                element_held(base, obj, index)
            }) by {
            if index < n {
                assert(fewer[index as int] == strings[index as int]);
            }
        }
    }
}

/// Between the two records the array `array` was made, filled with the strings `strings` of the
/// texts `args` and nothing else, and put into the global object `global` as `args`. No other
/// property and no element of another object was touched.
pub open spec fn arguments_shown(
    before: Seq<Exchange>,
    after: Seq<Exchange>,
    ctx: Address,
    args: Seq<Seq<char>>,
    array: JSValue,
    global: JSValue,
    strings: Seq<JSValue>,
) -> bool {
    &&& after.len() > before.len()
    &&& after[before.len() as int] == (Exchange::NewArray { ctx, ret: array })
    &&& strings.len() == args.len()
    &&& forall|i: int|
        0 <= i < args.len() ==> #[trigger] string_made(before, after, ctx, args[i], strings[i])
    &&& property_held(after, global, c_text("args"@)) == Held::Value(array)
    &&& array != global ==> forall|index: u32| #[trigger]
        element_held(after, array, index) == if index < args.len() {
            Held::Value(strings[index as int])
        } else {
            Held::Nothing
        }
    &&& forall|obj: JSValue, index: u32|
        obj != array && obj != global ==> #[trigger] element_held(after, obj, index)
            == element_held(before, obj, index)
    &&& forall|obj: JSValue, key: Seq<u8>|
        obj != array && !(obj == global && key == c_text("args"@)) ==> #[trigger] property_held(
            after,
            obj,
            key,
        ) == property_held(before, obj, key)
}

pub(crate) proof fn lemma_dropped_shows(before: Seq<Exchange>, after: Seq<Exchange>, x: JsValue)
    requires
        dropped(before, after, x),
    ensures
        before.is_prefix_of(after),
        all_held_alike(after, before),
{
    if let Some(r) = x.reference() {
        let tag = choose|tag: i32| after == #[trigger] after_release(before, r, tag);
        let asked = before.push(Exchange::GetNormTag { v: r.v, ret: tag });
        lemma_push(before, asked.last());
        if after != asked {
            lemma_push(asked, after.last());
            assert(after =~= asked.push(after.last()));
        }
    }
}

proof fn lemma_published_shows(
    before: Seq<Exchange>,
    after: Seq<Exchange>,
    r: JsRef,
    key: Seq<char>,
    value: JsValue,
)
    requires
        published(before, after, r, key, value),
    ensures
        before.is_prefix_of(after),
        value.reference() matches Some(o) ==> property_held(after, r.v, c_text(key))
            == Held::Value(o.v),
        forall|obj: JSValue, k: Seq<u8>|
            obj != r.v || k != c_text(key) ==> #[trigger] property_held(after, obj, k)
                == property_held(before, obj, k),
        forall|obj: JSValue, index: u32|
            obj != r.v ==> #[trigger] element_held(after, obj, index) == element_held(
                before,
                obj,
                index,
            ),
{
    let (outcome, set) = choose|outcome: JsValue, set: Seq<Exchange>| #[trigger]
        property_set(before, set, r, key, value, outcome) && #[trigger] dropped(
            set,
            after,
            outcome,
        );
    let raw = lemma_set_shows(before, set, r, key, value, outcome);
    lemma_dropped_shows(set, after, outcome);
}

/// Whatever was put there before, putting arguments makes a new array, which holds exactly their
/// texts, the global `args`; an array that was there before keeps its elements, and every other
/// property keeps what it holds.
#[verifier::spinoff_prover]
#[verifier::rlimit(30)]
pub proof fn law_arguments_fill_a_new_array(
    before: Seq<Exchange>,
    after: Seq<Exchange>,
    ctx: Address,
    args: Seq<Seq<char>>,
)
    requires
        arguments_put(before, after, ctx, args),
        args.len() <= 0x1_0000_0000,
    ensures
        exists|array: JSValue, global: JSValue, strings: Seq<JSValue>| #[trigger]
            arguments_shown(before, after, ctx, args, array, global, strings),
{
    let (array, strings, global, set) = choose|
        array: JSValue,
        strings: Seq<JSValue>,
        global: JSValue,
        set: Seq<Exchange>,
    |
        {
            &&& strings.len() == args.len()
            &&& #[trigger] published(
                after_arguments(
                    before.push(Exchange::NewArray { ctx, ret: array }),
                    ctx,
                    array,
                    args,
                    strings,
                ).push(Exchange::GetGlobalObject { ctx, ret: global }),
                set,
                JsRef { ctx, v: global },
                "args"@,
                JsValue::Array(JsArray(JsRef { ctx, v: array })),
            )
            &&& dropped(set, after, JsValue::Object(JsObject(JsRef { ctx, v: global })))
        };
    let g = JsRef { ctx, v: global };
    let value = JsValue::Array(JsArray(JsRef { ctx, v: array }));
    let new = before.push(Exchange::NewArray { ctx, ret: array });
    let filled = after_arguments(new, ctx, array, args, strings);
    let asked = filled.push(Exchange::GetGlobalObject { ctx, ret: global });
    lemma_push(before, new.last());
    lemma_arguments_show(new, ctx, array, args, strings);
    lemma_push(filled, asked.last());
    lemma_published_shows(asked, set, g, "args"@, value);
    lemma_dropped_shows(set, after, JsValue::Object(JsObject(g)));
    assert(filled.is_prefix_of(after));
    assert(after[before.len() as int] == new[before.len() as int]) by {
        assert(filled[before.len() as int] == new[before.len() as int]);
    }
    assert forall|i: int| 0 <= i < args.len() implies #[trigger] string_made(
        before,
        after,
        ctx,
        args[i],
        strings[i],
    ) by {
        assert(string_made(new, filled, ctx, args[i], strings[i]));
        let k = choose|k: int|
            new.len() <= k < filled.len() && #[trigger] filled[k] == (Exchange::NewStringLen {
                ctx,
                bytes: encode_utf8(args[i]),
                ret: strings[i],
            });
        assert(after[k] == filled[k]);
    }
    assert forall|index: u32| array != global implies #[trigger] element_held(after, array, index)
        == (if index < args.len() {
        Held::Value(strings[index as int])
    } else {
        Held::Nothing
    }) by {
        assert(element_held(after, array, index) == element_held(set, array, index));
        assert(element_held(set, array, index) == element_held(asked, array, index));
        assert(element_held(asked, array, index) == element_held(filled, array, index));
        assert(element_held(new, array, index) is Nothing);
    }
    assert forall|obj: JSValue, index: u32| obj != array && obj != global implies #[trigger]
        element_held(after, obj, index) == element_held(before, obj, index) by {
        assert(element_held(after, obj, index) == element_held(set, obj, index));
        assert(element_held(set, obj, index) == element_held(asked, obj, index));
        assert(element_held(asked, obj, index) == element_held(filled, obj, index));
        assert(element_held(new, obj, index) == element_held(before, obj, index));
    }
    assert forall|obj: JSValue, key: Seq<u8>|
        obj != array && !(obj == global && key == c_text("args"@)) implies #[trigger] property_held(
        after,
        obj,
        key,
    ) == property_held(before, obj, key) by {
        assert(property_held(after, obj, key) == property_held(set, obj, key));
        assert(property_held(set, obj, key) == property_held(asked, obj, key));
        assert(property_held(asked, obj, key) == property_held(filled, obj, key));
        assert(property_held(new, obj, key) == property_held(before, obj, key));
    }
    assert(arguments_shown(before, after, ctx, args, array, global, strings));
}

/// A plain property is read as the value that it holds, and as `undefined` where it holds none.
pub proof fn law_property_is_read_as_held(
    before: Seq<Exchange>,
    after: Seq<Exchange>,
    r: JsRef,
    key: Seq<char>,
    x: JsValue,
)
    requires
        property_got(before, after, r, key, x),
        plain_property(after, before.len() as int, r.v, c_text(key)),
    ensures
        property_held(before, r.v, c_text(key)) is Nothing ==> x == JsValue::UnDefined,
        property_held(before, r.v, c_text(key)) matches Held::Value(v) ==> becomes(
            before.push(
                Exchange::GetPropertyStr { ctx: r.ctx, obj: r.v, key: c_text(key), ret: v },
            ),
            after,
            r.ctx,
            v,
            x,
        ),
{
    let raw = lemma_got_shows(before, after, r, key, x);
    let i = before.len() as int;
    assert(property_agrees(after, i, r.v, c_text(key)));
    if property_held(before, r.v, c_text(key)) is Nothing {
        assert(after[i + 1] matches Exchange::GetNormTag { ret, .. } && ret == JS_TAG_UNDEFINED);
        let read = before.push(after[i]);
        let p = choose|p: Probe|
            p.v == raw && after == read + #[trigger] questions(r.ctx, p) && x == typed(r.ctx, p);
        assert(after[i + 1] == questions(r.ctx, p)[0]);
    }
}

/// Whether `question`, where it converts the value that `making` made of a double, is answered
/// with the same bits.
pub open spec fn double_reads_back(making: Exchange, question: Exchange) -> bool {
    match (making, question) {
        (Exchange::NewFloat64 { bits, ret, .. }, Exchange::ToFloat64 { v, ret: back, .. }) => v
            == ret ==> back == bits,
        _ => true,
    }
}

/// From the exchange `from` on, a double is read back with the bits that it was made of.
pub open spec fn doubles_read_back(log: Seq<Exchange>, from: int) -> bool {
    forall|i: int, j: int|
        from <= i < j < log.len() ==> #[trigger] double_reads_back(log[i], log[j])
}

/// A value that was made of a double and is found to be a double is the double that it was made
/// of, bit for bit.
pub proof fn law_double_comes_back(
    before: Seq<Exchange>,
    read: Seq<Exchange>,
    after: Seq<Exchange>,
    ctx: Address,
    bits: u64,
    raw: JSValue,
    x: JsValue,
)
    requires
        before.push(Exchange::NewFloat64 { ctx: 0, bits, ret: raw }).is_prefix_of(read),
        becomes(read, after, ctx, raw, x),
        doubles_read_back(after, before.len() as int),
    ensures
        x is Float ==> x == JsValue::Float(bits),
{
    if x is Float {
        let made = before.push(Exchange::NewFloat64 { ctx: 0, bits, ret: raw });
        let p = choose|p: Probe|
            p.v == raw && after == read + #[trigger] questions(ctx, p) && x == typed(ctx, p);
        let m = before.len() as int;
        let n = read.len() as int + 1;
        assert(after[m] == made[m]) by {
            assert(read[m] == made[m]);
        }
        assert(after[n] == questions(ctx, p)[1]);
        assert(double_reads_back(after[m], after[n]));
    }
}

/// A plain property that was set to a double and is found to be a double is that double.
pub proof fn law_get_gives_back_double(
    before: Seq<Exchange>,
    set: Seq<Exchange>,
    after: Seq<Exchange>,
    r: JsRef,
    key: Seq<char>,
    bits: u64,
    outcome: JsValue,
    x: JsValue,
)
    requires
        property_set(before, set, r, key, JsValue::Float(bits), outcome),
        property_got(set, after, r, key, x),
        plain_property(after, before.len() as int, r.v, c_text(key)),
        doubles_read_back(after, before.len() as int),
    ensures
        x is Float ==> x == JsValue::Float(bits),
{
    let value = JsValue::Float(bits);
    let raw = lemma_set_shows(before, set, r, key, value, outcome);
    let back = lemma_got_shows(set, after, r, key, x);
    let i = set.len() as int;
    assert(property_agrees(after, i, r.v, c_text(key)));
    let read = set.push(after[i]);
    assert(after_encoding(before, value, raw).is_prefix_of(read));
    law_double_comes_back(before, read, after, r.ctx, bits, raw, x);
}

/// A plain element that was set to a double and is found to be a double is that double.
pub proof fn law_element_gives_back_double(
    before: Seq<Exchange>,
    set: Seq<Exchange>,
    after: Seq<Exchange>,
    r: JsRef,
    i: u32,
    bits: u64,
    raw: JSValue,
    x: JsValue,
)
    requires
        element_set(before, set, r, i, JsValue::Float(bits)),
        becomes(set.push(element_answer(r, i, raw)), after, r.ctx, raw, x),
        plain_element(after, before.len() as int, r.v, i),
        doubles_read_back(after, before.len() as int),
    ensures
        x is Float ==> x == JsValue::Float(bits),
{
    let value = JsValue::Float(bits);
    let written = lemma_element_set_shows(before, set, r, i, value);
    let asked = set.push(element_answer(r, i, raw));
    lemma_becomes_extends(asked, after, r.ctx, raw, x);
    let k = set.len() as int;
    assert(after[k] == asked[k]);
    assert(after.take(k) =~= set);
    assert(element_agrees(after, k, r.v, i));
    assert(after_encoding(before, value, raw).is_prefix_of(asked));
    law_double_comes_back(before, asked, after, r.ctx, bits, raw, x);
}

} // verus!
