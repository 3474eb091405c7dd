//! What the operations on objects and arrays ask the engine for, exchange by exchange.
use crate::array::{
    array_of, array_read, buffer_answer, bytes_reading, count_of, element_answer, element_read,
    element_set, element_write, elements_failed, elements_read, length_answer, length_write,
    number_of, read_in_steps, reading_stopped, tag_answer, u32_read,
};
use crate::conduct::{law_value_keeps_its_type, steady_types};
use crate::engine::{Address, Exchange, JSAtom, JSValue};
use crate::exchanges::{
    law_giving_up_a_value, law_giving_up_no_values, law_giving_up_the_first_value,
    law_release_shows_in_the_record, law_text_shows_in_the_record,
};
use crate::laws::law_release_all_asks_once_per_reference;
use crate::object::{
    after_delete, after_invoke, entries_of, entry_failed, entry_listed, entry_stored, has_name,
    listed, listed_in_steps, listed_name, listed_value, listing_of, listing_stopped, names_distinct,
    names_listed, names_request, place_of, property_deleted, property_got, property_set,
    property_write, published, table_listed, table_reading, table_release, value_of_name, values_of,
    with_entry, Entries,
};
use crate::text::c_text;
use crate::value::{
    after_encoding, all_dropped, becomes, dropped, is_raw_of, questions, released, text_read, typed,
    JsException, JsRef, JsValue, Probe,
};
use vstd::prelude::*;

verus! {

proof fn lemma_becomes_goes_on(
    before: Seq<Exchange>,
    after: Seq<Exchange>,
    ctx: Address,
    v: JSValue,
    x: JsValue,
)
    requires
        becomes(before, after, ctx, v, x),
    ensures
        before.is_prefix_of(after),
        before.len() < after.len(),
        after.take(before.len() as int) == before,
{
    let p = choose|p: Probe|
        p.v == v && after == before + #[trigger] questions(ctx, p) && x == typed(ctx, p);
    assert(after.take(before.len() as int) =~= before);
}

/// Reading a property asks the object for the key, once, and gives what the answer is found to be.
pub proof fn law_property_read(
    before: Seq<Exchange>,
    after: Seq<Exchange>,
    r: JsRef,
    key: Seq<char>,
    x: JsValue,
)
    requires
        property_got(before, after, r, key, x),
    ensures
        ({
            &&& before.is_prefix_of(after)
            &&& after.len() > before.len()
            &&& after[before.len() as int] matches Exchange::GetPropertyStr {
                ctx,
                obj,
                key: k,
                ret: raw,
            }
            &&& ctx == r.ctx && obj == r.v && k == c_text(key)
            &&& becomes(before.push(after[before.len() as int]), after, r.ctx, raw, x)
        }),
{
    let raw = choose|raw: JSValue| #[trigger]
        becomes(
            before.push(
                Exchange::GetPropertyStr { ctx: r.ctx, obj: r.v, key: c_text(key), ret: raw },
            ),
            after,
            r.ctx,
            raw,
            x,
        );
    let asked = before.push(
        Exchange::GetPropertyStr { ctx: r.ctx, obj: r.v, key: c_text(key), ret: raw },
    );
    lemma_becomes_goes_on(asked, after, r.ctx, raw, x);
    assert(after[before.len() as int] == asked[before.len() as int]);
}

/// Setting a property turns the value into a raw one and writes that under the key. The outcome is
/// `undefined` where the engine reports zero, and else the exception marker that it gives.
pub proof fn law_property_write(
    before: Seq<Exchange>,
    after: Seq<Exchange>,
    r: JsRef,
    key: Seq<char>,
    value: JsValue,
    outcome: JsValue,
)
    requires
        property_set(before, after, r, key, value, outcome),
    ensures
        exists|raw: JSValue|
            {
                let made = #[trigger] after_encoding(before, value, raw);
                &&& is_raw_of(raw, value)
                &&& made.is_prefix_of(after)
                &&& after.len() > made.len()
                &&& after[made.len() as int] matches Exchange::SetPropertyStr {
                    ctx,
                    obj,
                    key: k,
                    value: w,
                    ret: status,
                }
                &&& ctx == r.ctx && obj == r.v && k == c_text(key) && w == raw
                &&& if status == 0 {
                    &&& outcome == JsValue::UnDefined
                    &&& after.len() == made.len() + 1
                } else {
                    &&& outcome matches JsValue::Exception(e)
                    &&& e.0.ctx == r.ctx
                    &&& after.len() == made.len() + 2
                    &&& after[made.len() + 1int] == (Exchange::Exception { ret: e.0.v })
                }
            },
{
    let (raw, status) = choose|raw: JSValue, status: i32|
        {
            let written = after_encoding(before, value, raw).push(
                #[trigger] property_write(r, key, raw, status),
            );
            &&& is_raw_of(raw, value)
            &&& if status != 0 {
                &&& outcome matches JsValue::Exception(e)
                &&& e.0.ctx == r.ctx
                &&& after == written.push(Exchange::Exception { ret: e.0.v })
            } else {
                &&& outcome == JsValue::UnDefined
                &&& after == written
            }
        };
    let made = after_encoding(before, value, raw);
    assert(after[made.len() as int] == property_write(r, key, raw, status));
}

/// A property that is set for good is written once, and an exception marker that comes of it is
/// given up.
pub proof fn law_property_published(
    before: Seq<Exchange>,
    after: Seq<Exchange>,
    r: JsRef,
    key: Seq<char>,
    value: JsValue,
)
    requires
        published(before, after, r, key, value),
    ensures
        exists|raw: JSValue|
            {
                let made = #[trigger] after_encoding(before, value, raw);
                &&& is_raw_of(raw, value)
                &&& made.is_prefix_of(after)
                &&& after.len() > made.len()
                &&& after[made.len() as int] matches Exchange::SetPropertyStr {
                    ctx,
                    obj,
                    key: k,
                    value: w,
                    ret: status,
                }
                &&& ctx == r.ctx && obj == r.v && k == c_text(key) && w == raw
                &&& if status == 0 {
                    after.len() == made.len() + 1
                } else {
                    &&& after.len() > made.len() + 1
                    &&& after[made.len() + 1int] matches Exchange::Exception { ret: e }
                    &&& released(after.take(made.len() + 2int), after, JsRef { ctx: r.ctx, v: e })
                }
            },
{
    let (outcome, set) = choose|outcome: JsValue, set: Seq<Exchange>| #[trigger]
        property_set(before, set, r, key, value, outcome) && #[trigger] dropped(
            set,
            after,
            outcome,
        );
    law_property_write(before, set, r, key, value, outcome);
    law_giving_up_a_value(set, after, outcome);
    if let JsValue::Exception(e) = outcome {
        law_release_shows_in_the_record(set, after, e.0);
        assert(after.take(set.len() as int) =~= set);
    }
    let raw = choose|raw: JSValue|
        {
            let made = #[trigger] after_encoding(before, value, raw);
            &&& is_raw_of(raw, value)
            &&& made.is_prefix_of(set)
            &&& set.len() > made.len()
            &&& set[made.len() as int] matches Exchange::SetPropertyStr {
                ctx,
                obj,
                key: k,
                value: w,
                ret: status,
            }
            &&& ctx == r.ctx && obj == r.v && k == c_text(key) && w == raw
            &&& if status == 0 {
                &&& outcome == JsValue::UnDefined
                &&& set.len() == made.len() + 1
            } else {
                &&& outcome matches JsValue::Exception(e)
                &&& e.0.ctx == r.ctx
                &&& set.len() == made.len() + 2
                &&& set[made.len() + 1int] == (Exchange::Exception { ret: e.0.v })
            }
        };
    let made = after_encoding(before, value, raw);
    assert(after[made.len() as int] == set[made.len() as int]);
    if outcome is Exception {
        assert(after[made.len() + 1int] == set[made.len() + 1int]);
    }
}

/// Calling a method interns its name, calls it on the object and the raw arguments, as many as are
/// given, and frees the name again.
pub proof fn law_method_call(
    before: Seq<Exchange>,
    this: JsRef,
    name: Seq<char>,
    atom: JSAtom,
    raws: Seq<JSValue>,
    argc: i32,
    raw: JSValue,
)
    ensures
        after_invoke(before, this, name, atom, raws, argc, raw) == before + seq![
            Exchange::NewAtom { ctx: this.ctx, name: c_text(name), ret: atom },
            Exchange::Invoke {
                ctx: this.ctx,
                this: this.v,
                name: atom,
                argc,
                argv: raws,
                ret: raw,
            },
            Exchange::FreeAtom { ctx: this.ctx, atom },
        ],
{
}

/// Deleting a property interns the key, deletes it from the object without flags, and frees the
/// interned key.
pub proof fn law_property_delete(
    before: Seq<Exchange>,
    after: Seq<Exchange>,
    r: JsRef,
    key: Seq<char>,
)
    requires
        property_deleted(before, after, r, key),
    ensures
        ({
            &&& before.is_prefix_of(after)
            &&& after.len() == before.len() + 3
            &&& after[before.len() as int] matches Exchange::NewAtom { ctx, name, ret: atom }
            &&& ctx == r.ctx && name == c_text(key)
            &&& after[before.len() + 1int] == (Exchange::DeleteProperty {
                ctx: r.ctx,
                obj: r.v,
                prop: atom,
                flags: 0,
            })
            &&& after[before.len() + 2int] == (Exchange::FreeAtom { ctx: r.ctx, atom })
        }),
{
    let atom = choose|atom: JSAtom| after == #[trigger] after_delete(before, r, key, atom);
}

/// The names and values of a listing are those that are handed out, one for one and in order.
pub proof fn law_listing_is_handed_out_whole(held: Result<Vec<(String, JsValue)>, JsException>)
    ensures
        held matches Err(e) ==> listing_of(held) == Err::<Entries, JsException>(e),
        held matches Ok(v) ==> {
            &&& listing_of(held) matches Ok(entries)
            &&& entries == entries_of(v@)
            &&& entries.len() == v@.len()
            &&& forall|i: int|
                0 <= i < v@.len() ==> (#[trigger] entries[i]).0 == v@[i].0@ && entries[i].1
                    == v@[i].1
        },
{
}

/// The values of entries are theirs, one for one and in order.
pub proof fn law_values_of_entries(entries: Entries)
    ensures
        values_of(entries).len() == entries.len(),
        forall|i: int| 0 <= i < entries.len() ==> #[trigger] values_of(entries)[i] == entries[i].1,
{
}

/// A name that is among the entries keeps its place and gets the new value, one that is not is
/// added at the end, and nothing else changes.
pub proof fn law_entry_is_put(entries: Entries, name: Seq<char>, x: JsValue)
    requires
        forall|i: int, j: int|
            0 <= i < j < entries.len() ==> (#[trigger] entries[i]).0 != (#[trigger] entries[j]).0,
    ensures
        names_distinct(entries),
        forall|i: int|
            0 <= i < entries.len() && (#[trigger] entries[i]).0 == name ==> with_entry(
                entries,
                name,
                x,
            ) == entries.update(i, (name, x)) && value_of_name(entries, name) == Some(entries[i].1),
        (forall|i: int| 0 <= i < entries.len() ==> (#[trigger] entries[i]).0 != name)
            ==> with_entry(entries, name, x) == entries.push((name, x)) && value_of_name(
            entries,
            name,
        ) is None,
{
    assert forall|i: int| 0 <= i < entries.len() && (#[trigger] entries[i]).0 == name implies
        with_entry(entries, name, x) == entries.update(i, (name, x)) && value_of_name(
        entries,
        name,
    ) == Some(entries[i].1) by {
        assert(has_name(entries, name));
        let p = place_of(entries, name);
        assert(entries[p].0 == name);
        assert(p == i);
    }
    if forall|i: int| 0 <= i < entries.len() ==> (#[trigger] entries[i]).0 != name {
        assert(!has_name(entries, name));
    }
}

/// In a listing the value of a property is what the engine's answer for it is found to be: the
/// object is asked, as itself, for the property that the name stands for.
pub proof fn law_listed_value(
    before: Seq<Exchange>,
    after: Seq<Exchange>,
    r: JsRef,
    name: JSAtom,
    x: JsValue,
)
    requires
        listed_value(before, after, r, name, x),
    ensures
        ({
            &&& before.is_prefix_of(after)
            &&& after.len() > before.len()
            &&& after[before.len() as int] matches Exchange::GetPropertyInternal {
                ctx,
                obj,
                prop,
                receiver,
                throw_ref_error,
                ret: raw,
            }
            &&& ctx == r.ctx && obj == r.v && prop == name && receiver == r.v && throw_ref_error
                == 0
            &&& becomes(before.push(after[before.len() as int]), after, r.ctx, raw, x)
        }),
{
    let raw = choose|raw: JSValue| #[trigger]
        becomes(
            before.push(
                Exchange::GetPropertyInternal {
                    ctx: r.ctx,
                    obj: r.v,
                    prop: name,
                    receiver: r.v,
                    throw_ref_error: 0,
                    ret: raw,
                },
            ),
            after,
            r.ctx,
            raw,
            x,
        );
    let asked = before.push(
        Exchange::GetPropertyInternal {
            ctx: r.ctx,
            obj: r.v,
            prop: name,
            receiver: r.v,
            throw_ref_error: 0,
            ret: raw,
        },
    );
    lemma_becomes_goes_on(asked, after, r.ctx, raw, x);
    assert(after[before.len() as int] == asked[before.len() as int]);
}

/// In a listing the name of a property is what the string that the engine makes of it is found to
/// be.
pub proof fn law_listed_name(
    before: Seq<Exchange>,
    after: Seq<Exchange>,
    r: JsRef,
    name: JSAtom,
    x: JsValue,
)
    requires
        listed_name(before, after, r, name, x),
    ensures
        ({
            &&& before.is_prefix_of(after)
            &&& after.len() > before.len()
            &&& after[before.len() as int] matches Exchange::AtomToString { ctx, atom, ret: raw }
            &&& ctx == r.ctx && atom == name
            &&& becomes(before.push(after[before.len() as int]), after, r.ctx, raw, x)
        }),
{
    let raw = choose|raw: JSValue| #[trigger]
        becomes(
            before.push(Exchange::AtomToString { ctx: r.ctx, atom: name, ret: raw }),
            after,
            r.ctx,
            raw,
            x,
        );
    let asked = before.push(Exchange::AtomToString { ctx: r.ctx, atom: name, ret: raw });
    lemma_becomes_goes_on(asked, after, r.ctx, raw, x);
    assert(after[before.len() as int] == asked[before.len() as int]);
}

/// The value that a property is listed with is the value that it is read as: where the engine
/// answers both with the same raw value, and values keep their types, there is no difference.
pub proof fn law_listed_value_is_the_value_read(
    before: Seq<Exchange>,
    read: Seq<Exchange>,
    later: Seq<Exchange>,
    after: Seq<Exchange>,
    r: JsRef,
    name: JSAtom,
    key: Seq<char>,
    x: JsValue,
    y: JsValue,
)
    requires
        listed_value(before, read, r, name, x),
        read.is_prefix_of(later),
        property_got(later, after, r, key, y),
        ({
            &&& after[before.len() as int] matches Exchange::GetPropertyInternal { ret: a, .. }
            &&& after[later.len() as int] matches Exchange::GetPropertyStr { ret: b, .. }
            &&& a == b
        }),
        steady_types(after, before.len() as int),
    ensures
        x == y,
{
    law_listed_value(before, read, r, name, x);
    law_property_read(later, after, r, key, y);
    assert(after[before.len() as int] == read[before.len() as int]);
    law_value_keeps_its_type(
        before.push(read[before.len() as int]),
        read,
        later.push(after[later.len() as int]),
        after,
        r.ctx,
        read[before.len() as int]->GetPropertyInternal_ret,
        x,
        y,
    );
}

/// A property is listed by its value and then its name. Where the name is a string, its text gets
/// the value: a value that the text had is given up, and then the name. Any other name is given
/// up, and then the value, and the entries stay as they are.
pub proof fn law_property_is_listed(
    before: Seq<Exchange>,
    held: Entries,
    after: Seq<Exchange>,
    now: Entries,
    r: JsRef,
    name: JSAtom,
)
    requires
        entry_listed(before, held, after, now, r, name),
    ensures
        exists|x: JsValue, read: Seq<Exchange>, n: JsValue, named: Seq<Exchange>|
            {
                &&& #[trigger] listed_value(before, read, r, name, x)
                &&& #[trigger] listed_name(read, named, r, name, n)
                &&& x !is Exception
                &&& n !is Exception
                &&& n !is String ==> now == held && exists|mid: Seq<Exchange>| #[trigger]
                    dropped(named, mid, n) && dropped(mid, after, x)
                &&& n matches JsValue::String(s) ==> exists|
                    text: Seq<char>,
                    told: Seq<Exchange>,
                    freed: Seq<Exchange>,
                |
                    {
                        &&& #[trigger] text_read(named, told, s.0, text)
                        &&& #[trigger] released(freed, after, s.0)
                        &&& now == with_entry(held, text, x)
                        &&& value_of_name(held, text) is None ==> freed == told
                        &&& value_of_name(held, text) matches Some(old_value) ==> dropped(
                            told,
                            freed,
                            old_value,
                        )
                    }
            },
{
    let (x, read, n, named) = choose|
        x: JsValue,
        read: Seq<Exchange>,
        n: JsValue,
        named: Seq<Exchange>,
    |
        {
            &&& #[trigger] listed_value(before, read, r, name, x)
            &&& x !is Exception
            &&& #[trigger] listed_name(read, named, r, name, n)
            &&& match n {
                JsValue::Exception(_) => false,
                JsValue::String(s) => entry_stored(named, held, after, now, s.0, x),
                _ => now == held && all_dropped(named, after, seq![n, x]),
            }
        };
    if n is String {
        let s = n->String_0;
        let (text, told, freed) = choose|
            text: Seq<char>,
            told: Seq<Exchange>,
            freed: Seq<Exchange>,
        |
            {
                &&& #[trigger] text_read(named, told, s.0, text)
                &&& now == with_entry(held, text, x)
                &&& match value_of_name(held, text) {
                    Some(old_value) => dropped(told, freed, old_value),
                    None => freed == told,
                }
                &&& #[trigger] released(freed, after, s.0)
            };
        assert(text_read(named, told, s.0, text) && released(freed, after, s.0));
    } else {
        lemma_two_dropped(named, after, n, x);
    }
    assert(listed_value(before, read, r, name, x) && listed_name(read, named, r, name, n));
}

pub(crate) proof fn lemma_two_dropped(
    before: Seq<Exchange>,
    after: Seq<Exchange>,
    x: JsValue,
    y: JsValue,
)
    requires
        all_dropped(before, after, seq![x, y]),
    ensures
        exists|mid: Seq<Exchange>| #[trigger] dropped(before, mid, x) && dropped(mid, after, y),
{
    assert(seq![x, y] =~= seq![x] + seq![y]);
    law_giving_up_the_first_value(before, after, x, seq![y]);
    let mid = choose|mid: Seq<Exchange>| #[trigger]
        dropped(before, mid, x) && all_dropped(mid, after, seq![y]);
    assert(seq![y] =~= seq![y] + Seq::<JsValue>::empty());
    law_giving_up_the_first_value(mid, after, y, Seq::empty());
    let end = choose|end: Seq<Exchange>| #[trigger]
        dropped(mid, end, y) && all_dropped(end, after, Seq::<JsValue>::empty());
    law_giving_up_no_values(end, after);
}

/// A property cannot be listed where its value is an exception, or else its name; the value is
/// then given up, and the exception that was met is the one that is told.
pub proof fn law_property_is_not_listed(
    before: Seq<Exchange>,
    after: Seq<Exchange>,
    r: JsRef,
    name: JSAtom,
    e: JsException,
)
    requires
        entry_failed(before, after, r, name, e),
    ensures
        exists|x: JsValue, read: Seq<Exchange>|
            {
                &&& #[trigger] listed_value(before, read, r, name, x)
                &&& x matches JsValue::Exception(y) ==> y == e && after == read
                &&& x !is Exception ==> exists|named: Seq<Exchange>| #[trigger]
                    listed_name(read, named, r, name, JsValue::Exception(e)) && dropped(
                        named,
                        after,
                        x,
                    )
            },
{
}

/// A listing that ends well lists the properties one after the other, in the order of their names,
/// from no entries on to those that it gives.
pub proof fn law_listing_goes_name_by_name(
    before: Seq<Exchange>,
    after: Seq<Exchange>,
    r: JsRef,
    names: Seq<JSAtom>,
    entries: Entries,
)
    requires
        names_listed(before, after, r, names, Ok(entries)),
    ensures
        names.len() == 0 ==> after == before && entries.len() == 0,
        names.len() > 0 ==> exists|mid: Seq<Exchange>, held: Entries|
            names_listed(before, mid, r, names.drop_last(), Ok(held)) && #[trigger] entry_listed(
                mid,
                held,
                after,
                entries,
                r,
                names.last(),
            ),
{
    let (marks, stages) = choose|marks: Seq<Seq<Exchange>>, stages: Seq<Entries>|
        {
            &&& #[trigger] listed_in_steps(marks, stages, r, names)
            &&& marks[0] == before
            &&& marks.last() == after
            &&& stages.last() == entries
        };
    if names.len() > 0 {
        let n = names.len() - 1;
        let m = marks.drop_last();
        let t = stages.drop_last();
        let fewer = names.drop_last();
        assert forall|i: int| 0 <= i < fewer.len() implies entry_listed(
            m[i],
            t[i],
            m[i + 1],
            t[i + 1],
            r,
            #[trigger] fewer[i],
        ) by {
            assert(names[i] == fewer[i]);
        }
        assert(listed_in_steps(m, t, r, fewer));
        assert(names_listed(before, marks[n], r, fewer, Ok(stages[n])));
        assert(entry_listed(marks[n], stages[n], marks[n + 1], stages[n + 1], r, names[n]));
        assert(entry_listed(marks[n], stages[n], after, entries, r, names.last()));
    }
}

/// A listing that ends in an exception lists the properties up to one that cannot be listed, gives
/// up the values that it has by then, first to last, and tells the exception.
pub proof fn law_listing_stops_at_the_first_exception(
    before: Seq<Exchange>,
    after: Seq<Exchange>,
    r: JsRef,
    names: Seq<JSAtom>,
    e: JsException,
)
    requires
        names_listed(before, after, r, names, Err(e)),
    ensures
        exists|n: int, mid: Seq<Exchange>, held: Entries, failed: Seq<Exchange>|
            {
                &&& 0 <= n < names.len()
                &&& #[trigger] names_listed(before, mid, r, names.take(n), Ok(held))
                &&& #[trigger] entry_failed(mid, failed, r, names[n], e)
                &&& all_dropped(failed, after, values_of(held))
            },
{
    let (marks, stages, failed) = choose|
        marks: Seq<Seq<Exchange>>,
        stages: Seq<Entries>,
        failed: Seq<Exchange>,
    | #[trigger]
        listing_stopped(before, after, r, names, e, marks, stages, failed);
    let n = marks.len() - 1;
    assert(names_listed(before, marks.last(), r, names.take(n), Ok(stages.last())));
    assert(entry_failed(marks.last(), failed, r, names[n], e));
}

/// A listing asks once for the names: strings and symbols, enumerable ones only. Where the engine
/// refuses, its exception marker is the result. Else every name in the table is read, the
/// properties are listed, and each name and then the table is freed, whatever came of it.
pub proof fn law_listing_shows_in_the_record(
    before: Seq<Exchange>,
    after: Seq<Exchange>,
    r: JsRef,
    result: Result<Entries, JsException>,
)
    requires
        listed(before, after, r, result),
    ensures
        ({
            &&& before.is_prefix_of(after)
            &&& after.len() > before.len()
            &&& after[before.len() as int] matches Exchange::GetOwnPropertyNames {
                ctx,
                obj,
                flags,
                ret: told,
            }
            &&& ctx == r.ctx && obj == r.v && flags == 19
            &&& told.0 != 0 ==> {
                &&& result matches Err(e)
                &&& e.0.ctx == r.ctx
                &&& after == before.push(after[before.len() as int]).push(
                    Exchange::Exception { ret: e.0.v },
                )
            }
            &&& told.0 == 0 ==> exists|names: Seq<JSAtom>, start: Seq<Exchange>, end: Seq<Exchange>|
                {
                    &&& #[trigger] names_listed(start, end, r, names, result)
                    &&& names.len() == told.2
                    &&& start.len() == before.len() + 1 + told.2
                    &&& before.push(after[before.len() as int]).is_prefix_of(start)
                    &&& forall|i: int|
                        0 <= i < told.2 ==> #[trigger] start[before.len() + 1 + i] == (
                        Exchange::ReadPropertyAtom {
                            table: told.1,
                            index: i as u32,
                            ret: names[i],
                        })
                    &&& after.len() == end.len() + told.2 + 1
                    &&& end.is_prefix_of(after)
                    &&& forall|i: int|
                        0 <= i < told.2 ==> #[trigger] after[end.len() + i] == (Exchange::FreeAtom {
                            ctx: r.ctx,
                            atom: names[i],
                        })
                    &&& after.last() == (Exchange::JsFree { ctx: r.ctx, memory: told.1 })
                }
        }),
{
    assert(1u32 | 2u32 | 16u32 == 19u32) by (bit_vector);
    let (status, table, count) = choose|status: i32, table: Address, count: u32|
        {
            let asked = before.push(#[trigger] names_request(r, status, table, count));
            if status != 0 {
                &&& result matches Err(e)
                &&& e.0.ctx == r.ctx
                &&& after == asked.push(Exchange::Exception { ret: e.0.v })
            } else {
                table_listed(asked, after, r, table, count, result)
            }
        };
    let asked = before.push(names_request(r, status, table, count));
    if status == 0 {
        let (names, end) = choose|names: Seq<JSAtom>, end: Seq<Exchange>|
            {
                &&& names.len() == count
                &&& #[trigger] names_listed(
                    asked + table_reading(table, names),
                    end,
                    r,
                    names,
                    result,
                )
                &&& after == end + table_release(r.ctx, table, names)
            };
        let start = asked + table_reading(table, names);
        lemma_names_listed_goes_on(start, end, r, names, result);
        assert(before.is_prefix_of(start));
        assert(before.is_prefix_of(end));
        assert(before.is_prefix_of(after));
        assert(after[before.len() as int] == asked[before.len() as int]) by {
            assert(start[before.len() as int] == asked[before.len() as int]);
            assert(end[before.len() as int] == start[before.len() as int]);
        }
        assert forall|i: int| 0 <= i < count implies #[trigger] start[before.len() + 1 + i] == (
        Exchange::ReadPropertyAtom { table, index: i as u32, ret: names[i] }) by {
            assert(start[asked.len() + i] == table_reading(table, names)[i]);
        }
        assert forall|i: int| 0 <= i < count implies #[trigger] after[end.len() + i] == (
        Exchange::FreeAtom { ctx: r.ctx, atom: names[i] }) by {
            assert(after[end.len() + i] == table_release(r.ctx, table, names)[i]);
        }
        assert(after.last() == table_release(r.ctx, table, names).last());
        assert(names_listed(start, end, r, names, result));
        assert(before.push(after[before.len() as int]) =~= asked);
    } else {
        assert(after[before.len() as int] == asked[before.len() as int]);
        assert(before.push(after[before.len() as int]) =~= asked);
    }
}

proof fn lemma_entry_goes_on(
    before: Seq<Exchange>,
    held: Entries,
    after: Seq<Exchange>,
    now: Entries,
    r: JsRef,
    name: JSAtom,
)
    requires
        entry_listed(before, held, after, now, r, name),
    ensures
        before.is_prefix_of(after),
{
    law_property_is_listed(before, held, after, now, r, name);
    let (x, read, n, named) = choose|
        x: JsValue,
        read: Seq<Exchange>,
        n: JsValue,
        named: Seq<Exchange>,
    |
        {
            &&& #[trigger] listed_value(before, read, r, name, x)
            &&& x !is Exception
            &&& #[trigger] listed_name(read, named, r, name, n)
            &&& match n {
                JsValue::Exception(_) => false,
                JsValue::String(s) => entry_stored(named, held, after, now, s.0, x),
                _ => now == held && all_dropped(named, after, seq![n, x]),
            }
        };
    law_listed_value(before, read, r, name, x);
    law_listed_name(read, named, r, name, n);
    if n is String {
        let s = n->String_0;
        let (text, told, freed) = choose|
            text: Seq<char>,
            told: Seq<Exchange>,
            freed: Seq<Exchange>,
        |
            {
                &&& #[trigger] text_read(named, told, s.0, text)
                &&& now == with_entry(held, text, x)
                &&& match value_of_name(held, text) {
                    Some(old_value) => dropped(told, freed, old_value),
                    None => freed == told,
                }
                &&& #[trigger] released(freed, after, s.0)
            };
        law_text_shows_in_the_record(named, told, s.0, text);
        if let Some(o) = value_of_name(held, text) {
            lemma_drop_goes_on(told, freed, o);
        }
        law_release_shows_in_the_record(freed, after, s.0);
    } else {
        law_release_all_asks_once_per_reference(named, after, seq![n, x]);
    }
}

pub(crate) proof fn lemma_drop_goes_on(before: Seq<Exchange>, after: Seq<Exchange>, x: JsValue)
    requires
        dropped(before, after, x),
    ensures
        before.is_prefix_of(after),
{
    if let Some(o) = x.reference() {
        law_release_shows_in_the_record(before, after, o);
    }
}

proof fn lemma_listing_goes_on(
    marks: Seq<Seq<Exchange>>,
    stages: Seq<Entries>,
    r: JsRef,
    names: Seq<JSAtom>,
    n: int,
)
    requires
        listed_in_steps(marks, stages, r, names),
        0 <= n <= names.len(),
    ensures
        marks[0].is_prefix_of(marks[n]),
    decreases n,
{
    if n > 0 {
        lemma_listing_goes_on(marks, stages, r, names, n - 1);
        assert(entry_listed(
            marks[n - 1],
            stages[n - 1],
            marks[n - 1 + 1],
            stages[n - 1 + 1],
            r,
            names[n - 1],
        ));
        lemma_entry_goes_on(marks[n - 1], stages[n - 1], marks[n], stages[n], r, names[n - 1]);
    }
}

proof fn lemma_names_listed_goes_on(
    before: Seq<Exchange>,
    after: Seq<Exchange>,
    r: JsRef,
    names: Seq<JSAtom>,
    result: Result<Entries, JsException>,
)
    requires
        names_listed(before, after, r, names, result),
    ensures
        before.is_prefix_of(after),
{
    match result {
        Ok(entries) => {
            let (marks, stages) = choose|marks: Seq<Seq<Exchange>>, stages: Seq<Entries>|
                {
                    &&& #[trigger] listed_in_steps(marks, stages, r, names)
                    &&& marks[0] == before
                    &&& marks.last() == after
                    &&& stages.last() == entries
                };
            lemma_listing_goes_on(marks, stages, r, names, names.len() as int);
        },
        Err(e) => {
            let (marks, stages, failed) = choose|
                marks: Seq<Seq<Exchange>>,
                stages: Seq<Entries>,
                failed: Seq<Exchange>,
            | #[trigger]
                listing_stopped(before, after, r, names, e, marks, stages, failed);
            let n = marks.len() - 1;
            lemma_listing_goes_on(marks, stages, r, names.take(n), n);
            let (x, read) = choose|x: JsValue, read: Seq<Exchange>|
                {
                    &&& #[trigger] listed_value(marks.last(), read, r, names[n], x)
                    &&& match x {
                        JsValue::Exception(y) => y == e && failed == read,
                        _ => exists|named: Seq<Exchange>|
                            {
                                &&& #[trigger] listed_name(
                                    read,
                                    named,
                                    r,
                                    names[n],
                                    JsValue::Exception(e),
                                )
                                &&& dropped(named, failed, x)
                            },
                    }
                };
            law_listed_value(marks.last(), read, r, names[n], x);
            if x !is Exception {
                let named = choose|named: Seq<Exchange>|
                    {
                        &&& #[trigger] listed_name(read, named, r, names[n], JsValue::Exception(e))
                        &&& dropped(named, failed, x)
                    };
                law_listed_name(read, named, r, names[n], JsValue::Exception(e));
                lemma_drop_goes_on(named, failed, x);
            }
            law_release_all_asks_once_per_reference(
                failed,
                after,
                values_of(stages.last()),
            );
        },
    }
}

/// A number is read from a raw value by its tag, and by a conversion exactly where the tag is that
/// of an integer; anything else is refused.
pub proof fn law_number_read(
    before: Seq<Exchange>,
    after: Seq<Exchange>,
    ctx: Address,
    v: JSValue,
    n: Result<u32, String>,
)
    requires
        u32_read(before, after, ctx, v, number_of(n)),
    ensures
        ({
            &&& before.is_prefix_of(after)
            &&& after.len() > before.len()
            &&& after[before.len() as int] matches Exchange::GetNormTag { v: w, ret: tag }
            &&& w == v
            &&& (n is Ok <==> tag == 0)
            &&& n is Err ==> after.len() == before.len() + 1
            &&& n matches Ok(k) ==> after.len() == before.len() + 2 && after[before.len() + 1int]
                == (Exchange::ToUint32 { ctx, v, ret: k })
        }),
{
    lemma_u32_shows(before, after, ctx, v, number_of(n));
}

proof fn lemma_u32_shows(
    before: Seq<Exchange>,
    after: Seq<Exchange>,
    ctx: Address,
    v: JSValue,
    n: Option<u32>,
)
    requires
        u32_read(before, after, ctx, v, n),
    ensures
        ({
            &&& before.is_prefix_of(after)
            &&& after.len() > before.len()
            &&& after[before.len() as int] matches Exchange::GetNormTag { v: w, ret: tag }
            &&& w == v
            &&& (n is Some <==> tag == 0)
            &&& n is None ==> after == before.push(after[before.len() as int])
            &&& n matches Some(k) ==> after == before.push(after[before.len() as int]).push(
                Exchange::ToUint32 { ctx, v, ret: k },
            )
        }),
{
    let tag = choose|tag: i32|
        {
            let asked = before.push(#[trigger] tag_answer(v, tag));
            match n {
                Some(k) => tag == 0 && after == asked.push(Exchange::ToUint32 { ctx, v, ret: k }),
                None => tag != 0 && after == asked,
            }
        };
    let asked = before.push(tag_answer(v, tag));
    assert(after[before.len() as int] == asked[before.len() as int]);
    assert(before.push(after[before.len() as int]) =~= asked);
}

/// The length of an array is the number under `length`, and zero where that is no integer.
pub proof fn law_length_read(
    before: Seq<Exchange>,
    after: Seq<Exchange>,
    r: JsRef,
    raw: JSValue,
    n: Option<u32>,
    len: u32,
)
    requires
        u32_read(before.push(length_answer(r, raw)), after, r.ctx, raw, n),
        len == count_of(n),
    ensures
        ({
            &&& before.is_prefix_of(after)
            &&& after.len() > before.len() + 1
            &&& after[before.len() as int] == (Exchange::GetPropertyStr {
                ctx: r.ctx,
                obj: r.v,
                key: c_text("length"@),
                ret: raw,
            })
            &&& after[before.len() + 1int] matches Exchange::GetNormTag { v, ret: tag }
            &&& v == raw
            &&& tag != 0 ==> len == 0 && after.len() == before.len() + 2
            &&& tag == 0 ==> after.len() == before.len() + 3 && after[before.len() + 2int] == (
            Exchange::ToUint32 { ctx: r.ctx, v: raw, ret: len })
        }),
{
    let asked = before.push(length_answer(r, raw));
    lemma_u32_shows(asked, after, r.ctx, raw, n);
    assert(after[before.len() as int] == asked[before.len() as int]);
}

/// The length of an array is written under `length`.
pub proof fn law_length_written(r: JsRef, raw: JSValue, status: i32)
    ensures
        length_write(r, raw, status) == (Exchange::SetPropertyStr {
            ctx: r.ctx,
            obj: r.v,
            key: c_text("length"@),
            value: raw,
            ret: status,
        }),
{
}

/// An element is asked for by its number.
pub proof fn law_element_asked_for(r: JsRef, i: u32, raw: JSValue)
    ensures
        element_answer(r, i, raw) == (Exchange::GetPropertyUint32 {
            ctx: r.ctx,
            obj: r.v,
            index: i,
            ret: raw,
        }),
{
}

/// Setting an element turns the value into a raw one and writes that under the number.
pub proof fn law_element_written(
    before: Seq<Exchange>,
    after: Seq<Exchange>,
    r: JsRef,
    i: u32,
    x: JsValue,
)
    requires
        element_set(before, after, r, i, x),
    ensures
        exists|raw: JSValue|
            is_raw_of(raw, x) && after == (#[trigger] after_encoding(before, x, raw)).push(
                Exchange::SetPropertyUint32 { ctx: r.ctx, obj: r.v, index: i, value: raw },
            ),
{
    let raw = choose|raw: JSValue|
        is_raw_of(raw, x) && after == after_encoding(before, x, raw).push(
            #[trigger] element_write(r, i, raw),
        );
}

/// An element of an array that is read as a whole is asked for by its number. Its tag is not that
/// of an exception, and it is what the answer is found to be.
pub proof fn law_element_of_the_whole(
    marks: Seq<Seq<Exchange>>,
    r: JsRef,
    xs: Seq<JsValue>,
    i: int,
)
    requires
        read_in_steps(marks, r, xs),
        0 <= i < xs.len(),
    ensures
        marks.len() == xs.len() + 1,
        ({
            let before = marks[i];
            let after = marks[i + 1];
            &&& before.is_prefix_of(after)
            &&& after.len() > before.len() + 2
            &&& after[before.len() as int] matches Exchange::GetPropertyUint32 {
                ctx,
                obj,
                index,
                ret: raw,
            }
            &&& ctx == r.ctx && obj == r.v && index == i as u32
            &&& after[before.len() + 1int] matches Exchange::GetNormTag { v, ret: tag }
            &&& v == raw && tag != 6
            &&& becomes(after.take(before.len() + 2int), after, r.ctx, raw, xs[i])
        }),
{
    let before = marks[i];
    let after = marks[i + 1];
    assert(element_read(marks[i], marks[i + 1], r, i as u32, xs[i]));
    let (raw, tag) = choose|raw: JSValue, tag: i32|
        tag != 6 && becomes(
            before.push(element_answer(r, i as u32, raw)).push(#[trigger] tag_answer(raw, tag)),
            after,
            r.ctx,
            raw,
            xs[i],
        );
    let asked = before.push(element_answer(r, i as u32, raw)).push(tag_answer(raw, tag));
    lemma_becomes_goes_on(asked, after, r.ctx, raw, xs[i]);
    assert(after[before.len() as int] == asked[before.len() as int]);
    assert(after[before.len() + 1int] == asked[before.len() + 1int]);
}

/// Reading a whole array asks for its length, frees the answer, and reads as many elements as the
/// length says, in order, none where it is no integer. The elements are handed out as they were
/// found. At an exception those before it are given up, and it is handed out instead.
pub proof fn law_array_shows_in_the_record(
    before: Seq<Exchange>,
    after: Seq<Exchange>,
    r: JsRef,
    result: Result<Vec<JsValue>, JsException>,
)
    requires
        array_read(before, after, r, array_of(result)),
    ensures
        exists|raw: JSValue, n: Option<u32>, sized: Seq<Exchange>, marks: Seq<Seq<Exchange>>, xs: Seq<
            JsValue,
        >|
            {
                &&& #[trigger] u32_read(
                    before.push(
                        Exchange::GetPropertyStr {
                            ctx: r.ctx,
                            obj: r.v,
                            key: c_text("length"@),
                            ret: raw,
                        },
                    ),
                    sized,
                    r.ctx,
                    raw,
                    n,
                )
                &&& #[trigger] read_in_steps(marks, r, xs)
                &&& marks[0] == sized.push(Exchange::FreeValue { ctx: r.ctx, v: raw })
                &&& result matches Ok(ys) ==> {
                    &&& ys@ == xs
                    &&& marks.last() == after
                    &&& n is None ==> xs.len() == 0
                    &&& n matches Some(k) ==> xs.len() == k
                }
                &&& result matches Err(e) ==> {
                    &&& e.0.ctx == r.ctx
                    &&& n matches Some(k)
                    &&& xs.len() < k
                    &&& all_dropped(
                        marks.last().push(
                            Exchange::GetPropertyUint32 {
                                ctx: r.ctx,
                                obj: r.v,
                                index: xs.len() as u32,
                                ret: e.0.v,
                            },
                        ).push(Exchange::GetNormTag { v: e.0.v, ret: 6 }),
                        after,
                        xs,
                    )
                }
            },
{
    let (raw, n, sized) = choose|raw: JSValue, n: Option<u32>, sized: Seq<Exchange>|
        {
            let freed = sized.push(Exchange::FreeValue { ctx: r.ctx, v: raw });
            &&& #[trigger] u32_read(before.push(length_answer(r, raw)), sized, r.ctx, raw, n)
            &&& match array_of(result) {
                Ok(xs) => elements_read(freed, after, r, count_of(n), xs),
                Err(e) => elements_failed(freed, after, r, count_of(n), e),
            }
        };
    let freed = sized.push(Exchange::FreeValue { ctx: r.ctx, v: raw });
    assert(u32_read(
        before.push(
            Exchange::GetPropertyStr {
                ctx: r.ctx,
                obj: r.v,
                key: c_text("length"@),
                ret: raw,
            },
        ),
        sized,
        r.ctx,
        raw,
        n,
    ));
    match result {
        Ok(ys) => {
            let marks = choose|marks: Seq<Seq<Exchange>>|
                ys@.len() == count_of(n) && #[trigger] read_in_steps(marks, r, ys@) && marks[0]
                    == freed && marks.last() == after;
            assert(read_in_steps(marks, r, ys@));
        },
        Err(e) => {
            let (marks, xs) = choose|marks: Seq<Seq<Exchange>>, xs: Seq<JsValue>| #[trigger]
                reading_stopped(freed, after, r, count_of(n), e, marks, xs);
            assert(read_in_steps(marks, r, xs));
        },
    }
}

/// The bytes of a buffer are read one after the other from where the engine says they are, as many
/// as it says.
pub proof fn law_buffer_shows_in_the_record(
    r: JsRef,
    base: Address,
    len: usize,
    bytes: Seq<u8>,
)
    ensures
        buffer_answer(r, base, len) == (Exchange::GetArrayBuffer {
            ctx: r.ctx,
            v: r.v,
            ret: (base, len),
        }),
        bytes_reading(base, bytes).len() == bytes.len(),
        forall|i: int|
            0 <= i < bytes.len() ==> #[trigger] bytes_reading(base, bytes)[i] == (
            Exchange::ReadByte { base, offset: i as usize, ret: bytes[i] }),
{
}

} // verus!
