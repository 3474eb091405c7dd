//! Objects: their properties and methods.
use crate::constants::{JS_GPN_ENUM_ONLY, JS_GPN_STRING_MASK, JS_GPN_SYMBOL_MASK};
use crate::engine::{Address, Engine, Exchange, JSAtom, JSValue, Session};
use crate::text::{c_text, make_c_string};
use crate::value::{
    after_encoding, after_encodings, all_dropped, are_raws_of, becomes, dropped, dropped_in_steps,
    encode_all, is_raw_of, read_text, release_all, released, text_read, JsException, JsObject,
    JsRef, JsValue,
};
use vstd::hash_map::StringHashMap;
use vstd::prelude::*;

verus! {

/// Between the two records the property `key` of `r` was read and found to be `x`.
pub open spec fn property_got(
    before: Seq<Exchange>,
    after: Seq<Exchange>,
    r: JsRef,
    key: Seq<char>,
    x: JsValue,
) -> bool {
    exists|raw: JSValue| #[trigger]
        becomes(
            before.push(
                Exchange::GetPropertyStr { ctx: r.ctx, obj: r.v, key: c_text(key), ret: raw },
            ),
            after,
            r.ctx,
            raw,
            x,
        )
}

/// The writing of a property.
pub open spec fn property_write(r: JsRef, key: Seq<char>, raw: JSValue, status: i32) -> Exchange {
    Exchange::SetPropertyStr { ctx: r.ctx, obj: r.v, key: c_text(key), value: raw, ret: status }
}

/// Between the two records the property `key` of `r` was set to `value`, with `outcome`: the
/// exception marker where the engine reports anything but zero, else `undefined`.
pub open spec fn property_set(
    before: Seq<Exchange>,
    after: Seq<Exchange>,
    r: JsRef,
    key: Seq<char>,
    value: JsValue,
    outcome: JsValue,
) -> bool {
    exists|raw: JSValue, status: i32|
        {
            let written = after_encoding(before, value, raw).push(
                #[trigger] property_write(r, key, raw, status),
            );
            &&& is_raw_of(raw, value)
            &&& if status != 0 {
                &&& outcome matches JsValue::Exception(e)
                &&& e.0.ctx == r.ctx
                &&& after == written.push(Exchange::Exception { ret: e.0.v })
            } else {
                &&& outcome == JsValue::UnDefined
                &&& after == written
            }
        }
}

/// Between the two records the property `key` of `r` was set to `value`, and the outcome given up.
pub open spec fn published(
    before: Seq<Exchange>,
    after: Seq<Exchange>,
    r: JsRef,
    key: Seq<char>,
    value: JsValue,
) -> bool {
    exists|outcome: JsValue, set: Seq<Exchange>| #[trigger]
        property_set(before, set, r, key, value, outcome) && #[trigger] dropped(
            set,
            after,
            outcome,
        )
}

/// The record after calling the method `name` of `this` on `raws`.
pub open spec fn after_invoke(
    before: Seq<Exchange>,
    this: JsRef,
    name: Seq<char>,
    atom: JSAtom,
    raws: Seq<JSValue>,
    argc: i32,
    raw: JSValue,
) -> Seq<Exchange> {
    before.push(Exchange::NewAtom { ctx: this.ctx, name: c_text(name), ret: atom }).push(
        Exchange::Invoke { ctx: this.ctx, this: this.v, name: atom, argc, argv: raws, ret: raw },
    ).push(Exchange::FreeAtom { ctx: this.ctx, atom })
}

/// The record after deleting the property `key` of `r`.
pub open spec fn after_delete(
    before: Seq<Exchange>,
    r: JsRef,
    key: Seq<char>,
    atom: JSAtom,
) -> Seq<Exchange> {
    before.push(Exchange::NewAtom { ctx: r.ctx, name: c_text(key), ret: atom }).push(
        Exchange::DeleteProperty { ctx: r.ctx, obj: r.v, prop: atom, flags: 0 },
    ).push(Exchange::FreeAtom { ctx: r.ctx, atom })
}

/// Between the two records the property `key` of `r` was deleted.
pub open spec fn property_deleted(
    before: Seq<Exchange>,
    after: Seq<Exchange>,
    r: JsRef,
    key: Seq<char>,
) -> bool {
    exists|atom: JSAtom| after == #[trigger] after_delete(before, r, key, atom)
}

/// Names and values of properties, in the order in which the names first came up.
pub type Entries = Seq<(Seq<char>, JsValue)>;

/// Whether a name occurs among the entries.
pub open spec fn has_name(entries: Entries, name: Seq<char>) -> bool {
    exists|i: int| 0 <= i < entries.len() && (#[trigger] entries[i]).0 == name
}

/// The place of a name among the entries.
pub open spec fn place_of(entries: Entries, name: Seq<char>) -> int {
    choose|i: int| 0 <= i < entries.len() && (#[trigger] entries[i]).0 == name
}

/// Whether no name occurs twice.
pub open spec fn names_distinct(entries: Entries) -> bool {
    forall|i: int, j: int|
        0 <= i < j < entries.len() ==> (#[trigger] entries[i]).0 != (#[trigger] entries[j]).0
}

/// The entries after giving `name` the value `x`.
pub open spec fn with_entry(entries: Entries, name: Seq<char>, x: JsValue) -> Entries {
    if has_name(entries, name) {
        entries.update(place_of(entries, name), (name, x))
    } else {
        entries.push((name, x))
    }
}

/// The value that `name` has among the entries.
pub open spec fn value_of_name(entries: Entries, name: Seq<char>) -> Option<JsValue> {
    if has_name(entries, name) {
        Some(entries[place_of(entries, name)].1)
    } else {
        None
    }
}

/// The values of the entries.
pub open spec fn values_of(entries: Entries) -> Seq<JsValue> {
    entries.map_values(|e: (Seq<char>, JsValue)| e.1)
}

/// Entries as they are held, seen as names and values.
pub open spec fn entries_of(held: Seq<(String, JsValue)>) -> Entries {
    held.map_values(|e: (String, JsValue)| (e.0@, e.1))
}

/// The request for the names of a listing: enumerable ones, strings and symbols.
pub open spec fn names_request(r: JsRef, status: i32, table: Address, count: u32) -> Exchange {
    Exchange::GetOwnPropertyNames {
        ctx: r.ctx,
        obj: r.v,
        flags: (JS_GPN_STRING_MASK | JS_GPN_SYMBOL_MASK | JS_GPN_ENUM_ONLY) as i32,
        ret: (status, table, count),
    }
}

/// The reading of a table of names.
pub open spec fn table_reading(table: Address, names: Seq<JSAtom>) -> Seq<Exchange> {
    Seq::new(
        names.len(),
        |i: int| Exchange::ReadPropertyAtom { table, index: i as u32, ret: names[i] },
    )
}

/// The giving back of a table of names: each name, then the table.
pub open spec fn table_release(ctx: Address, table: Address, names: Seq<JSAtom>) -> Seq<Exchange> {
    Seq::new(names.len(), |i: int| Exchange::FreeAtom { ctx, atom: names[i] }).push(
        Exchange::JsFree { ctx, memory: table },
    )
}

/// Between the two records the value of the property `name` of `r` was read.
pub open spec fn listed_value(
    before: Seq<Exchange>,
    after: Seq<Exchange>,
    r: JsRef,
    name: JSAtom,
    x: JsValue,
) -> bool {
    exists|raw: JSValue| #[trigger]
        becomes(
            before.push(
                Exchange::GetPropertyInternal {
                    ctx: r.ctx,
                    obj: r.v,
                    prop: name,
                    receiver: r.v,
                    throw_ref_error: 0,
                    ret: raw,
                },
            ),
            after,
            r.ctx,
            raw,
            x,
        )
}

/// Between the two records the name of the property `name` of `r` was turned into a value.
pub open spec fn listed_name(
    before: Seq<Exchange>,
    after: Seq<Exchange>,
    r: JsRef,
    name: JSAtom,
    x: JsValue,
) -> bool {
    exists|raw: JSValue| #[trigger]
        becomes(
            before.push(Exchange::AtomToString { ctx: r.ctx, atom: name, ret: raw }),
            after,
            r.ctx,
            raw,
            x,
        )
}

/// Between the two records `x` was put under the text of `s`: the value that was there before is
/// given up, and so is the name.
pub open spec fn entry_stored(
    before: Seq<Exchange>,
    held: Entries,
    after: Seq<Exchange>,
    now: Entries,
    s: JsRef,
    x: JsValue,
) -> bool {
    exists|text: Seq<char>, read: Seq<Exchange>, freed: Seq<Exchange>|
        {
            &&& #[trigger] text_read(before, read, s, text)
            &&& now == with_entry(held, text, x)
            &&& match value_of_name(held, text) {
                Some(old) => dropped(read, freed, old),
                None => freed == read,
            }
            &&& #[trigger] released(freed, after, s)
        }
}

/// Between the two records one property of `r` was listed without an exception. Only a name that
/// is a string makes an entry; else the name and the value are given up.
pub open spec fn entry_listed(
    before: Seq<Exchange>,
    held: Entries,
    after: Seq<Exchange>,
    now: Entries,
    r: JsRef,
    name: JSAtom,
) -> bool {
    exists|x: JsValue, read: Seq<Exchange>, n: JsValue, named: Seq<Exchange>|
        {
            &&& #[trigger] listed_value(before, read, r, name, x)
            &&& x !is Exception
            &&& #[trigger] listed_name(read, named, r, name, n)
            &&& match n {
                JsValue::Exception(_) => false,
                JsValue::String(s) => entry_stored(named, held, after, now, s.0, x),
                _ => now == held && all_dropped(named, after, seq![n, x]),
            }
        }
}

/// Between the two records the listing of one property of `r` stopped at the exception `e`, met
/// at its value or at its name.
pub open spec fn entry_failed(
    before: Seq<Exchange>,
    after: Seq<Exchange>,
    r: JsRef,
    name: JSAtom,
    e: JsException,
) -> bool {
    exists|x: JsValue, read: Seq<Exchange>|
        {
            &&& #[trigger] listed_value(before, read, r, name, x)
            &&& match x {
                JsValue::Exception(y) => y == e && after == read,
                _ => exists|named: Seq<Exchange>|
                    {
                        &&& #[trigger] listed_name(read, named, r, name, JsValue::Exception(e))
                        &&& dropped(named, after, x)
                    },
            }
        }
}

/// The properties `names` of `r` were listed one after the other, the i-th between `marks[i]` and
/// `marks[i + 1]`, and `stages[i]` holds the entries of the first i.
pub open spec fn listed_in_steps(
    marks: Seq<Seq<Exchange>>,
    stages: Seq<Entries>,
    r: JsRef,
    names: Seq<JSAtom>,
) -> bool {
    &&& marks.len() == names.len() + 1
    &&& stages.len() == names.len() + 1
    &&& stages[0] == Seq::<(Seq<char>, JsValue)>::empty()
    &&& forall|i: int|
        0 <= i < names.len() ==> entry_listed(
            marks[i],
            stages[i],
            marks[i + 1],
            stages[i + 1],
            r,
            #[trigger] names[i],
        )
}

/// Between the two records as many of the properties `names` of `r` were listed as `marks` and
/// `stages` show, then `e` was met, then the entries were given up.
pub open spec fn listing_stopped(
    before: Seq<Exchange>,
    after: Seq<Exchange>,
    r: JsRef,
    names: Seq<JSAtom>,
    e: JsException,
    marks: Seq<Seq<Exchange>>,
    stages: Seq<Entries>,
    failed: Seq<Exchange>,
) -> bool {
    let n = marks.len() - 1;
    &&& 0 <= n < names.len()
    &&& listed_in_steps(marks, stages, r, names.take(n))
    &&& marks[0] == before
    &&& entry_failed(marks.last(), failed, r, names[n], e)
    &&& all_dropped(failed, after, values_of(stages.last()))
}

/// Between the two records the listing of the properties `names` of `r` stopped at `e`.
pub open spec fn listing_failed(
    before: Seq<Exchange>,
    after: Seq<Exchange>,
    r: JsRef,
    names: Seq<JSAtom>,
    e: JsException,
) -> bool {
    exists|marks: Seq<Seq<Exchange>>, stages: Seq<Entries>, failed: Seq<Exchange>| #[trigger]
        listing_stopped(before, after, r, names, e, marks, stages, failed)
}

/// Between the two records the properties `names` of `r` were listed with `result`. At the first
/// exception the entries made so far are given up, and the exception is the result.
pub open spec fn names_listed(
    before: Seq<Exchange>,
    after: Seq<Exchange>,
    r: JsRef,
    names: Seq<JSAtom>,
    result: Result<Entries, JsException>,
) -> bool {
    match result {
        Ok(entries) => exists|marks: Seq<Seq<Exchange>>, stages: Seq<Entries>|
            {
                &&& #[trigger] listed_in_steps(marks, stages, r, names)
                &&& marks[0] == before
                &&& marks.last() == after
                &&& stages.last() == entries
            },
        Err(e) => listing_failed(before, after, r, names, e),
    }
}

/// Between the two records the table of names was read, its properties were listed, and it was
/// given back.
pub open spec fn table_listed(
    before: Seq<Exchange>,
    after: Seq<Exchange>,
    r: JsRef,
    table: Address,
    count: u32,
    result: Result<Entries, JsException>,
) -> bool {
    exists|names: Seq<JSAtom>, listed: Seq<Exchange>|
        {
            &&& names.len() == count
            &&& #[trigger] names_listed(
                before + table_reading(table, names),
                listed,
                r,
                names,
                result,
            )
            &&& after == listed + table_release(r.ctx, table, names)
        }
}

/// Between the two records the enumerable properties of `r` were listed with `result`.
pub open spec fn listed(
    before: Seq<Exchange>,
    after: Seq<Exchange>,
    r: JsRef,
    result: Result<Entries, JsException>,
) -> bool {
    exists|status: i32, table: Address, count: u32|
        {
            let asked = before.push(#[trigger] names_request(r, status, table, count));
            if status != 0 {
                &&& result matches Err(e)
                &&& e.0.ctx == r.ctx
                &&& after == asked.push(Exchange::Exception { ret: e.0.v })
            } else {
                table_listed(asked, after, r, table, count, result)
            }
        }
}

/// The outcome of a listing, its entries seen as names and values.
pub open spec fn listing_of(held: Result<Vec<(String, JsValue)>, JsException>) -> Result<
    Entries,
    JsException,
> {
    match held {
        Ok(entries) => Ok(entries_of(entries@)),
        Err(e) => Err(e),
    }
}

/// Whether `index` gives each name of the entries its place, and no other name one.
spec fn is_index(index: Map<Seq<char>, usize>, entries: Entries) -> bool {
    &&& forall|name: Seq<char>| #[trigger]
        index.contains_key(name) ==> index[name] < entries.len() && entries[index[name] as int].0
            == name
    &&& forall|i: int|
        0 <= i < entries.len() ==> index.contains_key((#[trigger] entries[i]).0)
            && index[entries[i].0] == i
}

/// Sets the property `key` and gives the outcome up.
pub(crate) fn publish<E: Engine>(js: &mut Session<E>, obj: &mut JsObject, key: &str, value: JsValue)
    ensures
        *final(obj) == *old(obj),
        published(old(js).log(), final(js).log(), old(obj).0, key@, value),
{
    let ghost before = js.log();
    let outcome = obj.set(js, key, value);
    let ghost set = js.log();
    outcome.release(js);
    assert(property_set(before, set, obj.0, key@, value, outcome) && dropped(
        set,
        js.log(),
        outcome,
    ));
}

/// Reads the names in a table.
fn read_table<E: Engine>(js: &mut Session<E>, table: Address, count: u32) -> (names: Vec<JSAtom>)
    ensures
        names@.len() == count,
        final(js).log() == old(js).log() + table_reading(table, names@),
{
    let ghost before = js.log();
    let mut names: Vec<JSAtom> = Vec::new();
    let mut i: u32 = 0;
    while i < count
        invariant
            i <= count,
            names@.len() == i,
            js.log() == before + table_reading(table, names@),
        decreases count - i,
    {
        let name: JSAtom = js.read_property_atom(table, i);
        names.push(name);
        i = i + 1;
        assert(js.log() =~= before + table_reading(table, names@));
    }
    names
}

/// Gives a table of names back.
fn free_table<E: Engine>(js: &mut Session<E>, ctx: Address, table: Address, names: &Vec<JSAtom>)
    ensures
        final(js).log() == old(js).log() + table_release(ctx, table, names@),
{
    let ghost before = js.log();
    let mut i: usize = 0;
    while i < names.len()
        invariant
            i <= names.len(),
            js.log() == before + Seq::new(
                i as nat,
                |j: int| Exchange::FreeAtom { ctx, atom: names@[j] },
            ),
        decreases names.len() - i,
    {
        js.free_atom(ctx, names[i]);
        i = i + 1;
        assert(js.log() =~= before + Seq::new(
            i as nat,
            |j: int| Exchange::FreeAtom { ctx, atom: names@[j] },
        ));
    }
    js.js_free(ctx, table);
    assert(js.log() =~= before + table_release(ctx, table, names@));
}

/// Gives `key` the value `value`, and hands back the value that it had.
fn store(
    held: &mut Vec<(String, JsValue)>,
    index: &mut StringHashMap<usize>,
    key: String,
    value: JsValue,
) -> (old_value: Option<JsValue>)
    requires
        is_index(old(index)@, entries_of(old(held)@)),
    ensures
        is_index(final(index)@, entries_of(final(held)@)),
        entries_of(final(held)@) == with_entry(entries_of(old(held)@), key@, value),
        old_value == value_of_name(entries_of(old(held)@), key@),
{
    let ghost before = entries_of(held@);
    let place: Option<usize> = match index.get(key.as_str()) {
        Some(i) => Some(*i),
        None => None,
    };
    match place {
        Some(i) => {
            proof {
                assert(before[i as int].0 == key@);
                assert(has_name(before, key@));
                let p = place_of(before, key@);
                assert(before[p].0 == key@);
                assert(p == i);
            }
            let mut entry = (key, value);
            held.set_and_swap(i, &mut entry);
            assert(entries_of(held@) =~= before.update(i as int, (key@, value)));
            assert(held@[i as int].0@ == key@);
            Some(entry.1)
        },
        None => {
            assert(!has_name(before, key@)) by {
                if has_name(before, key@) {
                    let p = place_of(before, key@);
                    assert(before[p].0 == key@);
                }
            }
            let i: usize = held.len();
            let name = key.clone();
            index.insert(name, i);
            held.push((key, value));
            assert(entries_of(held@) =~= before.push((key@, value)));
            None
        },
    }
}

/// Gives the values of entries up, first to last.
fn release_entries<E: Engine>(js: &mut Session<E>, held: Vec<(String, JsValue)>)
    ensures
        all_dropped(old(js).log(), final(js).log(), values_of(entries_of(held@))),
{
    let ghost xs = values_of(entries_of(held@));
    let ghost mut marks: Seq<Seq<Exchange>> = seq![js.log()];
    let mut i: usize = 0;
    while i < held.len()
        invariant
            i <= held.len(),
            xs == values_of(entries_of(held@)),
            marks.len() == i + 1,
            marks[0] == old(js).log(),
            marks.last() == js.log(),
            forall|j: int| 0 <= j < i ==> dropped(marks[j], marks[j + 1], #[trigger] xs[j]),
        decreases held.len() - i,
    {
        assert(xs[i as int] == held@[i as int].1);
        held[i].1.let_go(js);
        proof {
            marks = marks.push(js.log());
        }
        i = i + 1;
    }
    assert(dropped_in_steps(marks, xs));
}

/// Lists one property of `r`.
fn list_entry<E: Engine>(
    js: &mut Session<E>,
    r: &JsRef,
    name: JSAtom,
    held: &mut Vec<(String, JsValue)>,
    index: &mut StringHashMap<usize>,
) -> (failure: Option<JsException>)
    requires
        is_index(old(index)@, entries_of(old(held)@)),
    ensures
        is_index(final(index)@, entries_of(final(held)@)),
        match failure {
            None => entry_listed(
                old(js).log(),
                entries_of(old(held)@),
                final(js).log(),
                entries_of(final(held)@),
                *r,
                name,
            ),
            Some(e) => final(held)@ == old(held)@ && entry_failed(
                old(js).log(),
                final(js).log(),
                *r,
                name,
                e,
            ),
        },
{
    let ghost before = js.log();
    let ghost was = entries_of(held@);
    let raw: JSValue = js.get_property_internal(r.ctx, r.v, name, r.v, 0);
    let value = JsValue::from_qjs_value(js, r.ctx, raw);
    let ghost read = js.log();
    assert(listed_value(before, read, *r, name, value));
    let value = match value {
        JsValue::Exception(e) => {
            return Some(e);
        },
        other => other,
    };
    let raw_name: JSValue = js.atom_to_string(r.ctx, name);
    let key = JsValue::from_qjs_value(js, r.ctx, raw_name);
    let ghost named = js.log();
    assert(listed_name(read, named, *r, name, key));
    match key {
        JsValue::Exception(e) => {
            value.release(js);
            Some(e)
        },
        JsValue::String(s) => {
            let text = read_text(js, &s.0);
            let ghost told = js.log();
            let old_value = store(held, index, text, value);
            if let Some(x) = old_value {
                x.release(js);
            }
            let ghost freed = js.log();
            s.0.release(js);
            assert(text_read(named, told, s.0, text@) && released(freed, js.log(), s.0));
            assert(entry_stored(named, was, js.log(), entries_of(held@), s.0, value));
            None
        },
        other => {
            let mut both: Vec<JsValue> = Vec::new();
            both.push(other);
            both.push(value);
            assert(both@ =~= seq![key, value]);
            release_all(js, both);
            None
        },
    }
}

/// Lists the properties `names` of `r`.
fn list_names<E: Engine>(js: &mut Session<E>, r: &JsRef, names: &Vec<JSAtom>) -> (result: Result<
    Vec<(String, JsValue)>,
    JsException,
>)
    ensures
        names_listed(old(js).log(), final(js).log(), *r, names@, listing_of(result)),
        result matches Ok(held) ==> names_distinct(entries_of(held@)),
{
    let mut held: Vec<(String, JsValue)> = Vec::new();
    let mut index: StringHashMap<usize> = StringHashMap::new();
    let ghost mut marks: Seq<Seq<Exchange>> = seq![js.log()];
    let ghost mut stages: Seq<Entries> = seq![entries_of(held@)];
    assert(entries_of(held@) =~= Seq::<(Seq<char>, JsValue)>::empty());
    let mut i: usize = 0;
    while i < names.len()
        invariant
            i <= names.len(),
            is_index(index@, entries_of(held@)),
            listed_in_steps(marks, stages, *r, names@.take(i as int)),
            marks[0] == old(js).log(),
            marks.last() == js.log(),
            stages.last() == entries_of(held@),
        decreases names.len() - i,
    {
        match list_entry(js, r, names[i], &mut held, &mut index) {
            Some(e) => {
                let ghost failed = js.log();
                release_entries(js, held);
                assert(listing_stopped(
                    old(js).log(),
                    js.log(),
                    *r,
                    names@,
                    e,
                    marks,
                    stages,
                    failed,
                ));
                assert(listing_failed(old(js).log(), js.log(), *r, names@, e));
                return Err(e);
            },
            None => {},
        }
        proof {
            marks = marks.push(js.log());
            stages = stages.push(entries_of(held@));
            assert forall|j: int| 0 <= j < i + 1 implies entry_listed(
                marks[j],
                stages[j],
                marks[j + 1],
                stages[j + 1],
                *r,
                #[trigger] names@.take(i + 1)[j],
            ) by {
                if j < i {
                    assert(names@.take(i as int)[j] == names@.take(i + 1)[j]);
                }
            }
        }
        i = i + 1;
    }
    assert(names@.take(i as int) =~= names@);
    Ok(held)
}

impl JsObject {
    /// The property `key`.
    pub fn get<E: Engine>(&self, js: &mut Session<E>, key: &str) -> (x: JsValue)
        ensures
            property_got(old(js).log(), final(js).log(), self.0, key@, x),
    {
        let name = make_c_string(key);
        let raw: JSValue = js.get_property_str(self.0.ctx, self.0.v, name.as_slice());
        JsValue::from_qjs_value(js, self.0.ctx, raw)
    }

    /// Sets the property `key`, which takes over the reference of `value`.
    pub fn set<E: Engine>(&mut self, js: &mut Session<E>, key: &str, value: JsValue) -> (outcome:
        JsValue)
        ensures
            *final(self) == *old(self),
            property_set(old(js).log(), final(js).log(), old(self).0, key@, value, outcome),
    {
        let ghost before = js.log();
        let raw: JSValue = value.into_qjs_value(js);
        let name = make_c_string(key);
        let status: i32 = js.set_property_str(self.0.ctx, self.0.v, name.as_slice(), raw);
        assert(js.log() == after_encoding(before, value, raw).push(
            property_write(self.0, key@, raw, status),
        ));
        if status != 0 {
            JsValue::Exception(JsException(JsRef { ctx: self.0.ctx, v: js.exception() }))
        } else {
            JsValue::UnDefined
        }
    }

    /// Calls the method `fn_name` on `argv`, which keep their references.
    pub fn invoke<E: Engine>(
        &mut self,
        js: &mut Session<E>,
        fn_name: &str,
        argv: &[JsValue],
    ) -> (x: JsValue)
        ensures
            *final(self) == *old(self),
            exists|raws: Seq<JSValue>, atom: JSAtom, raw: JSValue|
                are_raws_of(raws, argv@) && becomes(
                    #[trigger] after_invoke(
                        after_encodings(old(js).log(), argv@, raws),
                        old(self).0,
                        fn_name@,
                        atom,
                        raws,
                        argv@.len() as i32,
                        raw,
                    ),
                    final(js).log(),
                    old(self).0.ctx,
                    raw,
                    x,
                ),
    {
        let ghost before = js.log();
        let raws = encode_all(js, argv);
        let name = make_c_string(fn_name);
        let atom: JSAtom = js.new_atom(self.0.ctx, name.as_slice());
        let argc: i32 = raws.len() as i32;
        let raw: JSValue = js.invoke(self.0.ctx, self.0.v, atom, argc, raws.as_slice());
        js.free_atom(self.0.ctx, atom);
        assert(js.log() == after_invoke(
            after_encodings(before, argv@, raws@),
            self.0,
            fn_name@,
            atom,
            raws@,
            argv@.len() as i32,
            raw,
        ));
        JsValue::from_qjs_value(js, self.0.ctx, raw)
    }

    /// Deletes the property `key`.
    pub fn delete<E: Engine>(&mut self, js: &mut Session<E>, key: &str)
        ensures
            *final(self) == *old(self),
            property_deleted(old(js).log(), final(js).log(), old(self).0, key@),
    {
        let ghost before = js.log();
        let name = make_c_string(key);
        let prop: JSAtom = js.new_atom(self.0.ctx, name.as_slice());
        js.delete_property(self.0.ctx, self.0.v, prop, 0);
        js.free_atom(self.0.ctx, prop);
        assert(js.log() == after_delete(before, self.0, key@, prop));
    }

    /// The enumerable properties, or the exception met on the way.
    pub fn to_map<E: Engine>(&self, js: &mut Session<E>) -> (result: Result<
        Vec<(String, JsValue)>,
        JsException,
    >)
        ensures
            listed(old(js).log(), final(js).log(), self.0, listing_of(result)),
            result matches Ok(held) ==> names_distinct(entries_of(held@)),
    {
        let ghost before = js.log();
        let ctx: Address = self.0.ctx;
        let flags: i32 = (JS_GPN_STRING_MASK | JS_GPN_SYMBOL_MASK | JS_GPN_ENUM_ONLY) as i32;
        let (status, table, count) = js.get_own_property_names(ctx, self.0.v, flags);
        assert(js.log() == before.push(names_request(self.0, status, table, count)));
        let ghost asked = js.log();
        if status != 0 {
            return Err(JsException(JsRef { ctx, v: js.exception() }));
        }
        let names = read_table(js, table, count);
        let result = list_names(js, &self.0, &names);
        let ghost told = js.log();
        assert(names_listed(
            asked + table_reading(table, names@),
            told,
            self.0,
            names@,
            listing_of(result),
        ));
        free_table(js, ctx, table, &names);
        result
    }
}

} // verus!
