//! What holds across the operations of this library, whatever the engine answers.
use crate::array::{array_read, count_of, length_answer, u32_read};
use crate::cjs::{
    accessor_defined, cjs_set_up, dirname_of, dirname_told, file_named, function_made,
    global_answer, specifier_resolved, CjsCallbacks, JsDirName,
};
use crate::constants::{
    JS_EVAL_FLAG_COMPILE_ONLY, JS_EVAL_TYPE_GLOBAL, JS_EVAL_TYPE_MODULE, JS_TAG_BIG_DECIMAL,
    JS_TAG_BIG_FLOAT, JS_TAG_BIG_INT, JS_TAG_BOOL, JS_TAG_EXCEPTION, JS_TAG_FLOAT64,
    JS_TAG_FUNCTION_BYTECODE, JS_TAG_INT, JS_TAG_MODULE, JS_TAG_NULL, JS_TAG_OBJECT, JS_TAG_STRING,
    JS_TAG_UNDEFINED,
};
use crate::context::{
    after_report, code_run, eval_exchange, evaluated, is_module, module_run, Context,
};
use crate::engine::{Address, Exchange, JSAtom, JSValue};
use crate::function::{call_answered, call_received, JsFn};
use crate::object::{
    entry_listed, entry_stored, has_name, listed_in_steps, listed_name, listed_value,
    names_distinct, names_listed, place_of, property_set, published, table_listed, table_reading,
    table_release, value_of_name, with_entry, Entries,
};
use crate::path::{joined, parent, trimmed, without_last};
use crate::value::{
    after_encoding, after_release, all_dropped, becomes, dropped, dropped_in_steps, is_counted,
    is_raw_of, questions, released, text_read, typed, with_raw, JsException, JsFunction, JsObject,
    JsRef, JsValue, Probe,
};
use vstd::prelude::*;
use vstd::utf8::encode_utf8;

verus! {

/// What was said while a value got its type determines the type and the value.
pub proof fn law_record_determines_value(
    before: Seq<Exchange>,
    after: Seq<Exchange>,
    ctx: Address,
    v: JSValue,
    x: JsValue,
    y: JsValue,
)
    requires
        becomes(before, after, ctx, v, x),
        becomes(before, after, ctx, v, y),
    ensures
        x == y,
{
    let p = choose|p: Probe|
        p.v == v && after == before + #[trigger] questions(ctx, p) && x == typed(ctx, p);
    let q = choose|q: Probe|
        q.v == v && after == before + #[trigger] questions(ctx, q) && y == typed(ctx, q);
    let a = questions(ctx, p);
    let b = questions(ctx, q);
    assert((before + a).len() == before.len() + a.len());
    assert((before + b).len() == before.len() + b.len());
    assert forall|i: int| 0 <= i < a.len() implies a[i] == b[i] by {
        assert((before + a)[before.len() + i] == a[i]);
        assert((before + b)[before.len() + i] == b[i]);
    }
    assert(a[0] == b[0]);
    assert(p.tag == q.tag);
    if p.tag == JS_TAG_INT || p.tag == JS_TAG_FLOAT64 || p.tag == JS_TAG_BOOL {
        assert(a[1] == b[1]);
    } else if p.tag == JS_TAG_OBJECT {
        assert(a[1] == b[1]);
        if p.is_function == 0 {
            assert(a[2] == b[2]);
            if p.is_array_buffer == 0 {
                assert(a[3] == b[3]);
                if p.is_array == 0 {
                    assert(a[4] == b[4]);
                }
            }
        }
    }
}

/// The tag settles the kind of a value; for an object, the first question answered with yes does.
pub proof fn law_kind_follows_tag(ctx: Address, p: Probe)
    ensures
        typed(ctx, p) is Int <==> p.tag == JS_TAG_INT,
        typed(ctx, p) is Float <==> p.tag == JS_TAG_FLOAT64,
        typed(ctx, p) is BigNum <==> p.tag == JS_TAG_BIG_DECIMAL || p.tag == JS_TAG_BIG_INT || p.tag
            == JS_TAG_BIG_FLOAT,
        typed(ctx, p) is String <==> p.tag == JS_TAG_STRING,
        typed(ctx, p) is Module <==> p.tag == JS_TAG_MODULE,
        typed(ctx, p) is Bool <==> p.tag == JS_TAG_BOOL,
        typed(ctx, p) is Null <==> p.tag == JS_TAG_NULL,
        typed(ctx, p) is UnDefined <==> p.tag == JS_TAG_UNDEFINED,
        typed(ctx, p) is Exception <==> p.tag == JS_TAG_EXCEPTION,
        typed(ctx, p) is FunctionByteCode <==> p.tag == JS_TAG_FUNCTION_BYTECODE,
        typed(ctx, p) is Function <==> p.tag == JS_TAG_OBJECT && p.is_function != 0,
        typed(ctx, p) is ArrayBuffer <==> p.tag == JS_TAG_OBJECT && p.is_function == 0
            && p.is_array_buffer != 0,
        typed(ctx, p) is Array <==> p.tag == JS_TAG_OBJECT && p.is_function == 0
            && p.is_array_buffer == 0 && p.is_array != 0,
        typed(ctx, p) is Promise <==> p.tag == JS_TAG_OBJECT && p.is_function == 0
            && p.is_array_buffer == 0 && p.is_array == 0 && p.is_promise != 0,
        typed(ctx, p) is Object <==> p.tag == JS_TAG_OBJECT && p.is_function == 0
            && p.is_array_buffer == 0 && p.is_array == 0 && p.is_promise == 0,
{
}

/// A counted value never loses its reference on getting its type, so giving the typed value up
/// frees it.
pub proof fn law_counted_values_keep_reference(ctx: Address, p: Probe)
    ensures
        is_counted(p.tag) ==> typed(ctx, p).reference() == Some(JsRef { ctx, v: p.v }),
{
}

/// A value with a reference goes back to the engine as the raw value that it came from, and
/// nothing is said for it.
pub proof fn law_reference_round_trip(
    before: Seq<Exchange>,
    after: Seq<Exchange>,
    ctx: Address,
    v: JSValue,
    x: JsValue,
    raw: JSValue,
)
    requires
        becomes(before, after, ctx, v, x),
        x.reference() is Some,
        is_raw_of(raw, x),
    ensures
        x.reference() == Some(JsRef { ctx, v }),
        raw == v,
        after_encoding(after, x, raw) == after,
{
}

/// A number, a truth value, `null` or `undefined` goes back to the engine by one call, which makes
/// it anew of what the engine answered when it got its type.
pub proof fn law_plain_round_trip(after: Seq<Exchange>, ctx: Address, p: Probe, raw: JSValue)
    ensures
        typed(ctx, p) is Int ==> after_encoding(after, typed(ctx, p), raw) == after.push(
            Exchange::NewInt32 { ctx: 0, value: p.int, ret: raw },
        ),
        typed(ctx, p) is Float ==> after_encoding(after, typed(ctx, p), raw) == after.push(
            Exchange::NewFloat64 { ctx: 0, bits: p.bits, ret: raw },
        ),
        typed(ctx, p) is Bool ==> after_encoding(after, typed(ctx, p), raw) == after.push(
            Exchange::NewBool {
                ctx: 0,
                value: if p.truth != 0 {
                    1
                } else {
                    0
                },
                ret: raw,
            },
        ),
        typed(ctx, p) is Null ==> after_encoding(after, typed(ctx, p), raw) == after.push(
            Exchange::Null { ret: raw },
        ),
        typed(ctx, p) is UnDefined ==> after_encoding(after, typed(ctx, p), raw) == after.push(
            Exchange::Undefined { ret: raw },
        ),
{
}

/// A value of each kind keeps its kind and its context when it is doubled, and a doubled
/// reference to the same raw value is the same value.
pub proof fn law_duplicate_keeps_kind(x: JsValue, raw: JSValue)
    ensures
        match x.reference() {
            Some(r) => with_raw(x, raw).reference() == Some(JsRef { ctx: r.ctx, v: raw })
                && with_raw(x, r.v) == x,
            None => with_raw(x, raw) == x,
        },
        with_raw(with_raw(x, raw), raw) == with_raw(x, raw),
{
}

/// How many of the exchanges ask for a tag.
pub open spec fn tags_asked(log: Seq<Exchange>) -> nat {
    log.filter(|e: Exchange| e is GetNormTag).len()
}

/// How many of the exchanges free a value.
pub open spec fn values_freed(log: Seq<Exchange>) -> nat {
    log.filter(|e: Exchange| e is FreeValue).len()
}

/// How many of the values hold a reference.
pub open spec fn references_in(xs: Seq<JsValue>) -> nat {
    xs.filter(|x: JsValue| x.reference() is Some).len()
}

/// Giving up one reference asks for its tag once, and frees it exactly where the tag is that of a
/// counted value.
pub proof fn law_release_frees_counted_values(before: Seq<Exchange>, r: JsRef, tag: i32)
    ensures
        tags_asked(after_release(before, r, tag)) == tags_asked(before) + 1,
        values_freed(after_release(before, r, tag)) == values_freed(before) + if is_counted(tag) {
            1nat
        } else {
            0nat
        },
        is_counted(tag) ==> after_release(before, r, tag).last() == (Exchange::FreeValue {
            ctx: r.ctx,
            v: r.v,
        }),
{
    broadcast use Seq::lemma_filter_len_push;

}

/// How many references to `v` a record shows to have been taken by doubling.
pub open spec fn taken_of(log: Seq<Exchange>, v: JSValue) -> nat {
    log.filter(|e: Exchange| e matches Exchange::DupValue { ret, .. } && ret == v).len()
}

/// How many references to `v` a record shows to have been freed.
pub open spec fn freed_of(log: Seq<Exchange>, v: JSValue) -> nat {
    log.filter(|e: Exchange| e matches Exchange::FreeValue { v: w, .. } && w == v).len()
}

/// Doubling a reference and giving the double up takes one reference, and frees one exactly where
/// the value is counted. Where the engine doubles a reference to the same raw value, the double
/// is the same reference, and a counted value is referred to as often as before.
pub proof fn law_duplicate_then_release(
    before: Seq<Exchange>,
    r: JsRef,
    copy: JsRef,
    tag: i32,
)
    requires
        copy.ctx == r.ctx,
    ensures
        ({
            let doubled = before.push(Exchange::DupValue { ctx: r.ctx, v: r.v, ret: copy.v });
            let after = after_release(doubled, copy, tag);
            let freed: nat = if is_counted(tag) {
                1
            } else {
                0
            };
            &&& taken_of(doubled, copy.v) == taken_of(before, copy.v) + 1
            &&& freed_of(doubled, copy.v) == freed_of(before, copy.v)
            &&& taken_of(after, copy.v) == taken_of(before, copy.v) + 1
            &&& freed_of(after, copy.v) == freed_of(before, copy.v) + freed
            &&& copy.v == r.v ==> copy == r
            &&& is_counted(tag) ==> taken_of(after, copy.v) - freed_of(after, copy.v) == taken_of(
                before,
                copy.v,
            ) - freed_of(before, copy.v)
        }),
{
    broadcast use Seq::lemma_filter_len_push;

}

/// Giving up a value without a reference says nothing.
pub proof fn law_plain_values_need_no_release(before: Seq<Exchange>, x: JsValue)
    requires
        x.reference() is None,
    ensures
        forall|after: Seq<Exchange>| dropped(before, after, x) <==> after == before,
{
}

proof fn lemma_dropped_prefix(
    marks: Seq<Seq<Exchange>>,
    xs: Seq<JsValue>,
    n: int,
)
    requires
        dropped_in_steps(marks, xs),
        0 <= n <= xs.len(),
    ensures
        marks[0].is_prefix_of(marks[n]),
        tags_asked(marks[n]) == tags_asked(marks[0]) + references_in(xs.take(n)),
        values_freed(marks[0]) <= values_freed(marks[n]) <= values_freed(marks[0]) + references_in(
            xs.take(n),
        ),
    decreases n,
{
    broadcast use Seq::lemma_filter_len_push;

    if n == 0 {
        assert(xs.take(0) =~= Seq::<JsValue>::empty());
        assert(references_in(xs.take(0)) == 0) by {
            reveal(Seq::filter);
        }
    } else {
        lemma_dropped_prefix(marks, xs, n - 1);
        let x = xs[n - 1];
        assert(xs.take(n) =~= xs.take(n - 1).push(x));
        assert(dropped(marks[n - 1], marks[n - 1 + 1], x));
        if let Some(r) = x.reference() {
            let tag = choose|tag: i32| marks[n] == #[trigger] after_release(marks[n - 1], r, tag);
            law_release_frees_counted_values(marks[n - 1], r, tag);
        }
    }
}

/// Giving up values asks for one tag for each reference among them, no more and no less, and
/// frees no more than these.
pub proof fn law_release_all_asks_once_per_reference(
    before: Seq<Exchange>,
    after: Seq<Exchange>,
    xs: Seq<JsValue>,
)
    requires
        all_dropped(before, after, xs),
    ensures
        before.is_prefix_of(after),
        tags_asked(after) == tags_asked(before) + references_in(xs),
        values_freed(before) <= values_freed(after) <= values_freed(before) + references_in(xs),
{
    let marks = choose|marks: Seq<Seq<Exchange>>| #[trigger]
        dropped_in_steps(marks, xs) && marks[0] == before && marks[xs.len() as int] == after;
    lemma_dropped_prefix(marks, xs, xs.len() as int);
    assert(xs.take(xs.len() as int) =~= xs);
}

/// Putting a value under a name is an update of the map from names to values, keeps the names
/// distinct, and leaves every other name alone.
pub proof fn law_entries_are_a_map(
    entries: Entries,
    name: Seq<char>,
    x: JsValue,
    other: Seq<char>,
)
    requires
        names_distinct(entries),
    ensures
        names_distinct(with_entry(entries, name, x)),
        value_of_name(with_entry(entries, name, x), name) == Some(x),
        other != name ==> value_of_name(with_entry(entries, name, x), other) == value_of_name(
            entries,
            other,
        ),
{
    let now = with_entry(entries, name, x);
    if has_name(entries, name) {
        let p = place_of(entries, name);
        assert(now[p] == (name, x));
        assert(has_name(now, name));
    } else {
        assert(now[entries.len() as int] == (name, x));
        assert(has_name(now, name));
        assert forall|i: int, j: int| 0 <= i < j < now.len() implies (#[trigger] now[i]).0 != (
        #[trigger] now[j]).0 by {
            if j == entries.len() {
                assert(entries[i].0 != name);
            }
        }
    }
    let q = place_of(now, name);
    assert(now[q].0 == name);
    if other != name {
        if has_name(entries, other) {
            let k = place_of(entries, other);
            assert(now[k] == entries[k]);
            assert(has_name(now, other));
            let l = place_of(now, other);
            assert(now[l].0 == other);
            assert(entries[l].0 == other);
            assert(k == l);
        } else if has_name(now, other) {
            let l = place_of(now, other);
            assert(now[l].0 == other);
            assert(entries[l].0 == other);
        }
    }
}

/// However the listing of properties ends, with entries or with an exception, the last thing said
/// is that each name that was read is freed, and then the table of names.
pub proof fn law_listing_gives_table_back(
    before: Seq<Exchange>,
    after: Seq<Exchange>,
    r: JsRef,
    table: Address,
    count: u32,
    result: Result<Entries, JsException>,
)
    requires
        table_listed(before, after, r, table, count, result),
    ensures
        exists|names: Seq<JSAtom>, listed: Seq<Exchange>| #[trigger]
            names_listed(before + table_reading(table, names), listed, r, names, result)
                && names.len() == count && after.len() == listed.len() + count + 1 && (forall|
                i: int,
            |
                0 <= i < count ==> #[trigger] after[listed.len() + i] == (Exchange::FreeAtom {
                    ctx: r.ctx,
                    atom: names[i],
                })) && after.last() == (Exchange::JsFree { ctx: r.ctx, memory: table }),
{
    let (names, listed) = choose|names: Seq<JSAtom>, listed: Seq<Exchange>|
        {
            &&& names.len() == count
            &&& #[trigger] names_listed(
                before + table_reading(table, names),
                listed,
                r,
                names,
                result,
            )
            &&& after == listed + table_release(r.ctx, table, names)
        };
    assert(names_listed(before + table_reading(table, names), listed, r, names, result));
    assert(after.last() == table_release(r.ctx, table, names).last());
}

proof fn lemma_stages_grow_slowly(
    marks: Seq<Seq<Exchange>>,
    stages: Seq<Entries>,
    r: JsRef,
    names: Seq<JSAtom>,
    n: int,
)
    requires
        listed_in_steps(marks, stages, r, names),
        0 <= n <= names.len(),
    ensures
        names_distinct(stages[n]),
        stages[n].len() <= n,
    decreases n,
{
    if n > 0 {
        lemma_stages_grow_slowly(marks, stages, r, names, n - 1);
        let held = stages[n - 1];
        let now = stages[n];
        assert(entry_listed(marks[n - 1], held, marks[n - 1 + 1], now, r, names[n - 1]));
        if now != held {
            let (name, x) = choose|name: Seq<char>, x: JsValue| now == #[trigger]
                with_entry(held, name, x);
            law_entries_are_a_map(held, name, x, name);
        }
    }
}

/// Behind the record `before` the property `name` of `r` was found to be `pair`: the text of its
/// name and its value, or nothing where the name is no string.
pub open spec fn property_found(
    before: Seq<Exchange>,
    r: JsRef,
    name: JSAtom,
    pair: Option<(Seq<char>, JsValue)>,
) -> bool {
    exists|x: JsValue, read: Seq<Exchange>, n: JsValue, named: Seq<Exchange>|
        {
            &&& #[trigger] listed_value(before, read, r, name, x)
            &&& #[trigger] listed_name(read, named, r, name, n)
            &&& match n {
                JsValue::String(s) => exists|text: Seq<char>, told: Seq<Exchange>| #[trigger]
                    text_read(named, told, s.0, text) && pair == Some((text, x)),
                _ => pair is None,
            }
        }
}

/// The properties `names` of `r` were found to be `pairs` one after the other, the i-th behind
/// `marks[i]`.
pub open spec fn found_in_steps(
    marks: Seq<Seq<Exchange>>,
    r: JsRef,
    names: Seq<JSAtom>,
    pairs: Seq<Option<(Seq<char>, JsValue)>>,
) -> bool {
    &&& marks.len() == names.len() + 1
    &&& pairs.len() == names.len()
    &&& forall|i: int|
        0 <= i < names.len() ==> property_found(marks[i], r, #[trigger] names[i], pairs[i])
}

/// The value of the last of `pairs` with the text `name`.
pub open spec fn last_value(
    pairs: Seq<Option<(Seq<char>, JsValue)>>,
    name: Seq<char>,
) -> Option<JsValue>
    decreases pairs.len(),
{
    if pairs.len() == 0 {
        None
    } else {
        match pairs.last() {
            Some((text, x)) => if text == name {
                Some(x)
            } else {
                last_value(pairs.drop_last(), name)
            },
            None => last_value(pairs.drop_last(), name),
        }
    }
}

/// Whether all of `pairs` have a text, and no two the same.
pub open spec fn named_apart(pairs: Seq<Option<(Seq<char>, JsValue)>>) -> bool {
    &&& forall|i: int| 0 <= i < pairs.len() ==> (#[trigger] pairs[i]) is Some
    &&& forall|i: int, j: int|
        0 <= i < j < pairs.len() ==> (#[trigger] pairs[i])->Some_0.0 != (
        #[trigger] pairs[j])->Some_0.0
}

proof fn lemma_entry_found(
    before: Seq<Exchange>,
    held: Entries,
    after: Seq<Exchange>,
    now: Entries,
    r: JsRef,
    name: JSAtom,
) -> (pair: Option<(Seq<char>, JsValue)>)
    requires
        entry_listed(before, held, after, now, r, name),
    ensures
        property_found(before, r, name, pair),
        match pair {
            Some((text, x)) => now == with_entry(held, text, x),
            None => now == held,
        },
{
    let (x, read, n, named) = choose|
        x: JsValue,
        read: Seq<Exchange>,
        n: JsValue,
        named: Seq<Exchange>,
    |
        {
            &&& #[trigger] listed_value(before, read, r, name, x)
            &&& x !is Exception
            &&& #[trigger] listed_name(read, named, r, name, n)
            &&& match n {
                JsValue::Exception(_) => false,
                JsValue::String(s) => entry_stored(named, held, after, now, s.0, x),
                _ => now == held && all_dropped(named, after, seq![n, x]),
            }
        };
    assert(listed_value(before, read, r, name, x) && listed_name(read, named, r, name, n));
    if let JsValue::String(s) = n {
        let (text, told, freed) = choose|
            text: Seq<char>,
            told: Seq<Exchange>,
            freed: Seq<Exchange>,
        |
            {
                &&& #[trigger] text_read(named, told, s.0, text)
                &&& now == with_entry(held, text, x)
                &&& match value_of_name(held, text) {
                    Some(old_value) => dropped(told, freed, old_value),
                    None => freed == told,
                }
                &&& #[trigger] released(freed, after, s.0)
            };
        assert(text_read(named, told, s.0, text));
        Some((text, x))
    } else {
        None
    }
}

proof fn lemma_stage_holds_last_values(
    marks: Seq<Seq<Exchange>>,
    stages: Seq<Entries>,
    r: JsRef,
    names: Seq<JSAtom>,
    n: int,
) -> (pairs: Seq<Option<(Seq<char>, JsValue)>>)
    requires
        listed_in_steps(marks, stages, r, names),
        0 <= n <= names.len(),
    ensures
        pairs.len() == n,
        forall|i: int|
            0 <= i < n ==> property_found(marks[i], r, #[trigger] names[i], pairs[i]),
        forall|k: Seq<char>| #[trigger] value_of_name(stages[n], k) == last_value(pairs, k),
        named_apart(pairs) ==> stages[n].len() == n && forall|i: int|
            0 <= i < n ==> #[trigger] stages[n][i] == pairs[i]->Some_0,
    decreases n,
{
    if n == 0 {
        let none = Seq::<Option<(Seq<char>, JsValue)>>::empty();
        assert(stages[0] =~= Seq::<(Seq<char>, JsValue)>::empty());
        none
    } else {
        let fewer = lemma_stage_holds_last_values(marks, stages, r, names, n - 1);
        let held = stages[n - 1];
        let now = stages[n];
        assert(entry_listed(marks[n - 1], held, marks[n - 1 + 1], now, r, names[n - 1]));
        let pair = lemma_entry_found(marks[n - 1], held, marks[n], now, r, names[n - 1]);
        lemma_stages_grow_slowly(marks, stages, r, names, n - 1);
        let pairs = fewer.push(pair);
        assert(pairs.drop_last() =~= fewer);
        assert forall|k: Seq<char>| #[trigger] value_of_name(now, k) == last_value(pairs, k) by {
            if let Some((text, x)) = pair {
                law_entries_are_a_map(held, text, x, k);
            }
            assert(value_of_name(held, k) == last_value(fewer, k));
        }
        if named_apart(pairs) {
            assert forall|i: int| 0 <= i < n - 1 implies #[trigger] fewer[i] == pairs[i] by {}
            assert(named_apart(fewer));
            assert(pairs[n - 1] is Some);
            let text = pair->Some_0.0;
            assert(!has_name(held, text)) by {
                if has_name(held, text) {
                    let i = place_of(held, text);
                    assert(held[i].0 == text);
                    assert(held[i] == fewer[i]->Some_0);
                    assert(pairs[i]->Some_0.0 != pairs[n - 1]->Some_0.0);
                }
            }
            assert(now == held.push(pair->Some_0));
        }
        pairs
    }
}

/// In a listing each name has the value of the last property that was found with this text, and
/// there is no name with which none was found.
pub proof fn law_listing_holds_last_values(
    before: Seq<Exchange>,
    after: Seq<Exchange>,
    r: JsRef,
    names: Seq<JSAtom>,
    entries: Entries,
)
    requires
        names_listed(before, after, r, names, Ok(entries)),
    ensures
        exists|marks: Seq<Seq<Exchange>>, pairs: Seq<Option<(Seq<char>, JsValue)>>| #[trigger]
            found_in_steps(marks, r, names, pairs) && marks[0] == before && marks.last() == after
                && forall|k: Seq<char>| #[trigger]
                value_of_name(entries, k) == last_value(pairs, k),
{
    let (marks, stages) = choose|marks: Seq<Seq<Exchange>>, stages: Seq<Entries>|
        {
            &&& #[trigger] listed_in_steps(marks, stages, r, names)
            &&& marks[0] == before
            &&& marks.last() == after
            &&& stages.last() == entries
        };
    let pairs = lemma_stage_holds_last_values(marks, stages, r, names, names.len() as int);
    assert(found_in_steps(marks, r, names, pairs));
}

/// A listing has no name twice, and no more entries than the object has names. Where every name is
/// a string and no two have the same text, it has an entry for each, in their order.
pub proof fn law_listing_fits_its_names(
    before: Seq<Exchange>,
    after: Seq<Exchange>,
    r: JsRef,
    names: Seq<JSAtom>,
    entries: Entries,
)
    requires
        names_listed(before, after, r, names, Ok(entries)),
    ensures
        names_distinct(entries),
        entries.len() <= names.len(),
        exists|marks: Seq<Seq<Exchange>>, pairs: Seq<Option<(Seq<char>, JsValue)>>| #[trigger]
            found_in_steps(marks, r, names, pairs) && marks[0] == before && marks.last() == after
                && (named_apart(pairs) ==> entries.len() == names.len() && forall|i: int|
                0 <= i < names.len() ==> #[trigger] entries[i] == pairs[i]->Some_0),
{
    let (marks, stages) = choose|marks: Seq<Seq<Exchange>>, stages: Seq<Entries>|
        {
            &&& #[trigger] listed_in_steps(marks, stages, r, names)
            &&& marks[0] == before
            &&& marks.last() == after
            &&& stages.last() == entries
        };
    lemma_stages_grow_slowly(marks, stages, r, names, names.len() as int);
    let pairs = lemma_stage_holds_last_values(marks, stages, r, names, names.len() as int);
    assert(found_in_steps(marks, r, names, pairs));
}

/// An array that is read to its end has as many elements as the engine says; none where the
/// engine does not give its length as an integer.
pub proof fn law_array_has_its_length(
    before: Seq<Exchange>,
    after: Seq<Exchange>,
    r: JsRef,
    xs: Seq<JsValue>,
)
    requires
        array_read(before, after, r, Ok(xs)),
    ensures
        exists|raw: JSValue, n: Option<u32>, sized: Seq<Exchange>| #[trigger]
            u32_read(before.push(length_answer(r, raw)), sized, r.ctx, raw, n) && xs.len()
                == count_of(n),
{
}

/// The two ways to evaluate a text differ in their kind, and compiling keeps the kind.
pub proof fn law_module_flags()
    ensures
        is_module(JS_EVAL_TYPE_MODULE),
        !is_module(JS_EVAL_TYPE_GLOBAL),
        forall|flags: u32| #[trigger]
            is_module(flags | JS_EVAL_FLAG_COMPILE_ONLY) == is_module(flags),
{
    assert(1u32 & 3u32 == 1u32) by (bit_vector);
    assert(0u32 & 3u32 == 0u32) by (bit_vector);
    assert forall|flags: u32| #[trigger]
        is_module(flags | JS_EVAL_FLAG_COMPILE_ONLY) == is_module(flags) by {
        assert((flags | 32u32) & 3u32 == flags & 3u32) by (bit_vector);
    }
}

/// A script is handed to the engine once and run at once. A module is compiled, and what came of
/// that is run exactly where the engine does not call it an exception.
pub proof fn law_module_runs_once_compiled(
    before: Seq<Exchange>,
    after: Seq<Exchange>,
    ctx: Address,
    code: Seq<char>,
    filename: Seq<char>,
    flags: u32,
    raw: JSValue,
)
    requires
        code_run(before, after, ctx, code, filename, flags, raw),
    ensures
        before.is_prefix_of(after),
        !is_module(flags) ==> after == before.push(
            eval_exchange(ctx, code, filename, flags, raw),
        ),
        is_module(flags) ==> {
            &&& after.len() >= before.len() + 2
            &&& after[before.len() as int] matches Exchange::Eval { ret: compiled, .. }
            &&& after[before.len() as int + 1] matches Exchange::IsException { v, ret: answer }
            &&& v == compiled
            &&& if answer <= 0 {
                &&& after.len() == before.len() + 3
                &&& after.last() == (Exchange::EvalFunction { ctx, function: compiled, ret: raw })
            } else {
                &&& after.len() == before.len() + 2
                &&& raw == compiled
            }
        },
{
}

proof fn lemma_no_loop_in_questions(
    before: Seq<Exchange>,
    after: Seq<Exchange>,
    ctx: Address,
    v: JSValue,
    x: JsValue,
)
    requires
        becomes(before, after, ctx, v, x),
    ensures
        before.is_prefix_of(after),
        forall|i: int| before.len() <= i < after.len() ==> !((#[trigger] after[i]) is StdLoop),
{
    let p = choose|p: Probe|
        p.v == v && after == before + #[trigger] questions(ctx, p) && x == typed(ctx, p);
    assert forall|i: int| before.len() <= i < after.len() implies !((
    #[trigger] after[i]) is StdLoop) by {
        assert(after[i] == questions(ctx, p)[i - before.len()]);
    }
}

/// After a module the pending jobs are run once, and at the end, whatever came of compiling it and
/// of running it.
pub proof fn law_jobs_run_after_every_module(
    before: Seq<Exchange>,
    after: Seq<Exchange>,
    ctx: Address,
    code: Seq<char>,
    filename: Seq<char>,
)
    requires
        module_run(before, after, ctx, code, filename),
    ensures
        before.is_prefix_of(after),
        after.len() > before.len(),
        after.last() == (Exchange::StdLoop { ctx }),
        forall|i: int| before.len() <= i < after.len() - 1 ==> !((#[trigger] after[i]) is StdLoop),
{
    let (x, run, freed) = choose|x: JsValue, run: Seq<Exchange>, freed: Seq<Exchange>|
        {
            &&& #[trigger] evaluated(before, run, ctx, code, filename, JS_EVAL_TYPE_MODULE, x)
            &&& #[trigger] dropped(run, freed, x)
            &&& after == freed.push(Exchange::StdLoop { ctx })
        };
    let (done, raw, answer) = choose|done: Seq<Exchange>, raw: JSValue, answer: i32|
        {
            &&& #[trigger] code_run(before, done, ctx, code, filename, JS_EVAL_TYPE_MODULE, raw)
            &&& becomes(#[trigger] after_report(done, ctx, raw, answer), run, ctx, raw, x)
        };
    let told = after_report(done, ctx, raw, answer);
    lemma_no_loop_in_questions(told, run, ctx, raw, x);
    law_module_runs_once_compiled(before, done, ctx, code, filename, JS_EVAL_TYPE_MODULE, raw);
    law_module_flags();
    lemma_dropped_extends(run, freed, x);
    assert(done.is_prefix_of(told));
    assert(told.is_prefix_of(run));
    assert forall|i: int| before.len() <= i < after.len() - 1 implies !((
    #[trigger] after[i]) is StdLoop) by {
        assert(after[i] == freed[i]);
        if i < done.len() {
            assert(freed[i] == done[i]);
        } else if i < told.len() {
            assert(freed[i] == told[i]);
        } else if i < run.len() {
            assert(freed[i] == run[i]);
        } else if let Some(r) = x.reference() {
            let tag = choose|tag: i32| freed == #[trigger] after_release(run, r, tag);
        }
    }
}

/// A directory is a proper beginning of the name of what it holds.
pub proof fn law_parent_is_shorter_prefix(path: Seq<char>)
    ensures
        parent(path) matches Some(dir) ==> dir.is_prefix_of(path) && dir.len() < path.len(),
{
    lemma_trimmed_prefix(path);
    let whole = trimmed(path);
    lemma_without_last_prefix(whole);
    lemma_trimmed_prefix(without_last(whole));
    lemma_trimmed_end(path);
    if parent(path) is Some {
        if whole.last() == '/' {
            assert(whole =~= seq!['/']);
        }
        assert(without_last(whole).len() < whole.len()) by {
            lemma_without_last_prefix(whole.drop_last());
        }
    }
}

proof fn lemma_trimmed_prefix(path: Seq<char>)
    ensures
        trimmed(path).is_prefix_of(path),
    decreases path.len(),
{
    if path.len() > 1 && (path.last() == '/' || path.last() == '.' && path[path.len() - 2] == '/') {
        lemma_trimmed_prefix(path.drop_last());
    }
}

proof fn lemma_trimmed_end(path: Seq<char>)
    ensures
        trimmed(path).len() > 1 ==> trimmed(path).last() != '/',
    decreases path.len(),
{
    if path.len() > 1 && (path.last() == '/' || path.last() == '.' && path[path.len() - 2] == '/') {
        lemma_trimmed_end(path.drop_last());
    }
}

proof fn lemma_without_last_prefix(path: Seq<char>)
    ensures
        without_last(path).is_prefix_of(path),
    decreases path.len(),
{
    if path.len() > 0 && path.last() != '/' {
        lemma_without_last_prefix(path.drop_last());
    }
}

/// A relative name joined to a directory begins with the directory and ends with the name.
pub proof fn law_joined_keeps_both(base: Seq<char>, path: Seq<char>)
    requires
        path.len() == 0 || path[0] != '/',
    ensures
        base.is_prefix_of(joined(base, path)),
        path.is_suffix_of(joined(base, path)),
{
}

/// A module that is not named relative to a file is asked for by its own name, and the engine is
/// not asked where the calling code is.
pub proof fn law_plain_specifier_is_kept(
    before: Seq<Exchange>,
    after: Seq<Exchange>,
    ctx: Address,
    specifier: Seq<char>,
    name: Seq<char>,
)
    requires
        specifier.len() == 0 || specifier[0] != '.',
        specifier_resolved(before, after, ctx, specifier, name),
    ensures
        name == specifier,
        after == before,
{
}

/// A file whose name has no slash is in the directory with the empty name.
pub proof fn law_parent_of_bare_name(path: Seq<char>)
    requires
        path.len() > 0,
        !path.contains('/'),
    ensures
        parent(path) == Some(Seq::<char>::empty()),
{
    assert(path.contains(path.last()));
    if path.len() > 1 {
        assert(path.contains(path[path.len() - 2]));
    }
    assert(trimmed(path) == path);
    assert(path != seq!['/']) by {
        assert(path.contains(path[0]));
    }
    lemma_without_last_of_bare_name(path);
    assert(trimmed(Seq::<char>::empty()) =~= Seq::<char>::empty());
}

proof fn lemma_without_last_of_bare_name(path: Seq<char>)
    requires
        !path.contains('/'),
    ensures
        without_last(path) == Seq::<char>::empty(),
    decreases path.len(),
{
    if path.len() > 0 {
        assert(path.contains(path.last()));
        let rest = path.drop_last();
        assert(!rest.contains('/')) by {
            if rest.contains('/') {
                let i = choose|i: int| 0 <= i < rest.len() && rest[i] == '/';
                assert(path[i] == '/');
            }
        }
        lemma_without_last_of_bare_name(rest);
    } else {
        assert(path =~= Seq::<char>::empty());
    }
}

/// The empty name, and a name of slashes alone, have no directory.
pub proof fn law_root_has_no_parent(path: Seq<char>)
    requires
        forall|i: int| 0 <= i < path.len() ==> path[i] == '/',
    ensures
        parent(path) is None,
    decreases path.len(),
{
    if path.len() > 1 {
        law_root_has_no_parent(path.drop_last());
    } else if path.len() == 1 {
        assert(path =~= seq!['/']);
    }
}

/// The property `__dirname` that is set up for CommonJS modules is a getter, and the getter is the
/// native function at `callbacks.get_dirname`: it is called anew at each reading.
pub proof fn law_dirname_is_a_getter(
    before: Seq<Exchange>,
    after: Seq<Exchange>,
    ctx: Address,
    callbacks: CjsCallbacks,
)
    requires
        cjs_set_up(before, after, ctx, callbacks),
    ensures
        exists|record: Seq<Exchange>, global: JSValue, getter: JSValue, set: Seq<Exchange>|
            before.is_prefix_of(record) && set.is_prefix_of(after) && #[trigger] accessor_defined(
                record.push(function_made(ctx, callbacks.get_dirname, "get_dirname"@, getter)),
                set,
                JsRef { ctx, v: global },
                getter,
            ),
{
    let (global, module, with_module, require, with_require, getter, with_dirname) = choose|
        global: JSValue,
        module: JSValue,
        with_module: Seq<Exchange>,
        require: JSValue,
        with_require: Seq<Exchange>,
        getter: JSValue,
        with_dirname: Seq<Exchange>,
    |
        {
            &&& #[trigger] published(
                before.push(global_answer(ctx, global)).push(
                    Exchange::NewObject { ctx, ret: module },
                ),
                with_module,
                JsRef { ctx, v: global },
                "module"@,
                JsValue::Object(JsObject(JsRef { ctx, v: module })),
            )
            &&& #[trigger] published(
                with_module.push(function_made(ctx, callbacks.require, "require"@, require)),
                with_require,
                JsRef { ctx, v: global },
                "require"@,
                JsValue::Function(JsFunction(JsRef { ctx, v: require })),
            )
            &&& #[trigger] accessor_defined(
                with_require.push(
                    function_made(ctx, callbacks.get_dirname, "get_dirname"@, getter),
                ),
                with_dirname,
                JsRef { ctx, v: global },
                getter,
            )
            &&& all_dropped(
                with_dirname,
                after,
                seq![
                    JsValue::Function(JsFunction(JsRef { ctx, v: getter })),
                    JsValue::Object(JsObject(JsRef { ctx, v: global })),
                ],
            )
        };
    let asked = before.push(global_answer(ctx, global)).push(
        Exchange::NewObject { ctx, ret: module },
    );
    lemma_published_extends(
        asked,
        with_module,
        JsRef { ctx, v: global },
        "module"@,
        JsValue::Object(JsObject(JsRef { ctx, v: module })),
    );
    lemma_published_extends(
        with_module.push(function_made(ctx, callbacks.require, "require"@, require)),
        with_require,
        JsRef { ctx, v: global },
        "require"@,
        JsValue::Function(JsFunction(JsRef { ctx, v: require })),
    );
    assert(before.is_prefix_of(with_require));
    law_release_all_asks_once_per_reference(
        with_dirname,
        after,
        seq![
            JsValue::Function(JsFunction(JsRef { ctx, v: getter })),
            JsValue::Object(JsObject(JsRef { ctx, v: global })),
        ],
    );
}

proof fn lemma_published_extends(
    before: Seq<Exchange>,
    after: Seq<Exchange>,
    r: JsRef,
    key: Seq<char>,
    value: JsValue,
)
    requires
        published(before, after, r, key, value),
    ensures
        before.is_prefix_of(after),
{
    let (outcome, set) = choose|outcome: JsValue, set: Seq<Exchange>| #[trigger]
        property_set(before, set, r, key, value, outcome) && #[trigger] dropped(
            set,
            after,
            outcome,
        );
    assert(before.is_prefix_of(set));
    if let Some(o) = outcome.reference() {
        let tag = choose|tag: i32| after == #[trigger] after_release(set, o, tag);
    }
}

/// What a reader of `__dirname` is told: between `called` and `returned`, the file of the reader
/// was found to be `file`, and its text `text` where it is a string.
pub open spec fn reader_told(
    called: Seq<Exchange>,
    returned: Seq<Exchange>,
    ctx: Address,
    file: JsValue,
    text: Seq<char>,
    answer: JsValue,
) -> bool {
    exists|asked: Seq<Exchange>, read: Seq<Exchange>|
        {
            &&& #[trigger] file_named(called, asked, ctx, 1, file)
            &&& file is String ==> #[trigger] text_read(asked, read, file->String_0.0, text)
            &&& file !is String ==> read == asked
            &&& if file is String && parent(text) is Some {
                &&& answer matches JsValue::String(s)
                &&& s.0.ctx == ctx
                &&& returned.len() > read.len()
                &&& returned[read.len() as int] == (Exchange::NewStringLen {
                    ctx,
                    bytes: encode_utf8(parent(text)->Some_0),
                    ret: s.0.v,
                })
            } else {
                answer == JsValue::Null
            }
        }
}

/// Each reading of `__dirname` tells the directory of the file that its own reader is in: a string
/// made of the parent of the file's name, and `null` where the reader has no file whose name is a
/// string or the name has no parent.
pub proof fn law_dirname_of_reader(
    before: Seq<Exchange>,
    called: Seq<Exchange>,
    returned: Seq<Exchange>,
    after: Seq<Exchange>,
    context: Context,
    this_obj: JSValue,
    len: i32,
    argv: Address,
    this_val: JsValue,
    args: Seq<JsValue>,
    answer: JsValue,
    raw: JSValue,
)
    requires
        call_received(before, called, context, this_obj, len, argv, this_val, args),
        JsDirName::answers(context, called, returned, this_val, args, answer),
        call_answered(returned, after, answer, args, raw),
    ensures
        exists|file: JsValue, text: Seq<char>| #[trigger]
            reader_told(called, returned, context.ctx, file, text, answer),
        is_raw_of(raw, answer),
{
    let ctx = context.ctx;
    let told = choose|told: Seq<Exchange>| #[trigger]
        dirname_told(called, told, ctx, answer) && dropped(told, returned, this_val);
    let (file, asked) = choose|file: JsValue, asked: Seq<Exchange>|
        {
            &&& #[trigger] file_named(called, asked, ctx, 1, file)
            &&& match file {
                JsValue::String(f) => dirname_of(asked, told, f.0, ctx, answer),
                _ => answer == JsValue::Null && dropped(asked, told, file),
            }
        };
    lemma_dropped_extends(told, returned, this_val);
    if let JsValue::String(f) = file {
        let (text, read) = choose|text: Seq<char>, read: Seq<Exchange>|
            {
                &&& #[trigger] text_read(asked, read, f.0, text)
                &&& match parent(text) {
                    Some(dir) => {
                        &&& answer matches JsValue::String(s)
                        &&& s.0.ctx == ctx
                        &&& released(
                            read.push(
                                Exchange::NewStringLen {
                                    ctx,
                                    bytes: encode_utf8(dir),
                                    ret: s.0.v,
                                },
                            ),
                            told,
                            f.0,
                        )
                    },
                    None => answer == JsValue::Null && released(read, told, f.0),
                }
            };
        if parent(text) is Some {
            let made = read.push(
                Exchange::NewStringLen {
                    ctx,
                    bytes: encode_utf8(parent(text)->Some_0),
                    ret: answer->String_0.0.v,
                },
            );
            lemma_dropped_extends(made, told, JsValue::Other(f.0));
            assert(told[read.len() as int] == made[read.len() as int]);
            assert(returned[read.len() as int] == told[read.len() as int]);
        }
        assert(reader_told(called, returned, ctx, file, text, answer)) by {
            assert(file_named(called, asked, ctx, 1, file) && text_read(asked, read, f.0, text));
        }
    } else {
        let text = Seq::<char>::empty();
        assert(reader_told(called, returned, ctx, file, text, answer)) by {
            let any = text_read(asked, asked, file->String_0.0, text);
            assert(file_named(called, asked, ctx, 1, file));
        }
    }
}

proof fn lemma_dropped_extends(before: Seq<Exchange>, after: Seq<Exchange>, x: JsValue)
    requires
        dropped(before, after, x),
    ensures
        before.is_prefix_of(after),
{
    if let Some(r) = x.reference() {
        let tag = choose|tag: i32| after == #[trigger] after_release(before, r, tag);
    }
}

} // verus!
