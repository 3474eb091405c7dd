//! Arrays and array buffers.
use crate::constants::{JS_TAG_EXCEPTION, JS_TAG_INT};
use crate::engine::{Address, Engine, Exchange, JSValue, Session};
use crate::text::{c_text, make_c_string};
use crate::value::{
    after_encoding, all_dropped, becomes, is_raw_of, release_all, JsArray, JsArrayBuffer,
    JsException, JsRef, JsValue,
};
use vstd::prelude::*;

verus! {

/// Between the two records the number in the raw value `v` was read. There is one exactly where
/// the tag is that of an integer.
pub open spec fn u32_read(
    before: Seq<Exchange>,
    after: Seq<Exchange>,
    ctx: Address,
    v: JSValue,
    n: Option<u32>,
) -> bool {
    exists|tag: i32|
        {
            let asked = before.push(#[trigger] tag_answer(v, tag));
            match n {
                Some(k) => tag == JS_TAG_INT && after == asked.push(
                    Exchange::ToUint32 { ctx, v, ret: k },
                ),
                None => tag != JS_TAG_INT && after == asked,
            }
        }
}

/// The asking for a tag.
pub open spec fn tag_answer(v: JSValue, tag: i32) -> Exchange {
    Exchange::GetNormTag { v, ret: tag }
}

/// The reading of the length of an array.
pub open spec fn length_answer(r: JsRef, raw: JSValue) -> Exchange {
    Exchange::GetPropertyStr { ctx: r.ctx, obj: r.v, key: c_text("length"@), ret: raw }
}

/// A length as a number: zero where there is none.
pub open spec fn count_of(n: Option<u32>) -> u32 {
    match n {
        Some(k) => k,
        None => 0,
    }
}

/// The reading of an element.
pub open spec fn element_answer(r: JsRef, i: u32, raw: JSValue) -> Exchange {
    Exchange::GetPropertyUint32 { ctx: r.ctx, obj: r.v, index: i, ret: raw }
}

/// Between the two records the element `i` of `r` was read and found to be `x`. Its tag is asked
/// for first, and is not that of an exception.
pub open spec fn element_read(
    before: Seq<Exchange>,
    after: Seq<Exchange>,
    r: JsRef,
    i: u32,
    x: JsValue,
) -> bool {
    exists|raw: JSValue, tag: i32|
        tag != JS_TAG_EXCEPTION && becomes(
            before.push(element_answer(r, i, raw)).push(#[trigger] tag_answer(raw, tag)),
            after,
            r.ctx,
            raw,
            x,
        )
}

/// The elements `xs` of `r` were read one after the other, the i-th between `marks[i]` and
/// `marks[i + 1]`.
pub open spec fn read_in_steps(marks: Seq<Seq<Exchange>>, r: JsRef, xs: Seq<JsValue>) -> bool {
    &&& marks.len() == xs.len() + 1
    &&& forall|i: int|
        0 <= i < xs.len() ==> element_read(
            marks[i],
            marks[i + 1],
            r,
            i as u32,
            #[trigger] xs[i],
        )
}

/// Between the two records the first `count` elements of `r` were read, and `xs` they are.
pub open spec fn elements_read(
    before: Seq<Exchange>,
    after: Seq<Exchange>,
    r: JsRef,
    count: u32,
    xs: Seq<JsValue>,
) -> bool {
    exists|marks: Seq<Seq<Exchange>>|
        xs.len() == count && #[trigger] read_in_steps(marks, r, xs) && marks[0] == before
            && marks.last() == after
}

/// Between the two records the elements of `r` were read up to one, below `count`, that is the
/// exception `e`; those before it were given up.
pub open spec fn elements_failed(
    before: Seq<Exchange>,
    after: Seq<Exchange>,
    r: JsRef,
    count: u32,
    e: JsException,
) -> bool {
    exists|marks: Seq<Seq<Exchange>>, xs: Seq<JsValue>| #[trigger]
        reading_stopped(before, after, r, count, e, marks, xs)
}

/// As [`elements_failed`], with the elements `xs` before the exception.
pub open spec fn reading_stopped(
    before: Seq<Exchange>,
    after: Seq<Exchange>,
    r: JsRef,
    count: u32,
    e: JsException,
    marks: Seq<Seq<Exchange>>,
    xs: Seq<JsValue>,
) -> bool {
    &&& xs.len() < count
    &&& read_in_steps(marks, r, xs)
    &&& marks[0] == before
    &&& e.0.ctx == r.ctx
    &&& all_dropped(
        marks.last().push(element_answer(r, xs.len() as u32, e.0.v)).push(
            tag_answer(e.0.v, JS_TAG_EXCEPTION),
        ),
        after,
        xs,
    )
}

/// Between the two records the length and then the elements of `r` were read with `result`.
pub open spec fn array_read(
    before: Seq<Exchange>,
    after: Seq<Exchange>,
    r: JsRef,
    result: Result<Seq<JsValue>, JsException>,
) -> bool {
    exists|raw: JSValue, n: Option<u32>, sized: Seq<Exchange>|
        {
            let freed = sized.push(Exchange::FreeValue { ctx: r.ctx, v: raw });
            &&& #[trigger] u32_read(before.push(length_answer(r, raw)), sized, r.ctx, raw, n)
            &&& match result {
                Ok(xs) => elements_read(freed, after, r, count_of(n), xs),
                Err(e) => elements_failed(freed, after, r, count_of(n), e),
            }
        }
}

/// The outcome of reading an array, with the elements as a sequence.
pub open spec fn array_of(result: Result<Vec<JsValue>, JsException>) -> Result<
    Seq<JsValue>,
    JsException,
> {
    match result {
        Ok(xs) => Ok(xs@),
        Err(e) => Err(e),
    }
}

/// The number in `n`, as [`u32_read`] has it.
pub open spec fn number_of(n: Result<u32, String>) -> Option<u32> {
    match n {
        Ok(k) => Some(k),
        Err(_) => None,
    }
}

/// The number in the raw value `v`, where it is an integer.
pub fn to_u32<E: Engine>(js: &mut Session<E>, ctx: Address, v: JSValue) -> (n: Result<u32, String>)
    ensures
        u32_read(old(js).log(), final(js).log(), ctx, v, number_of(n)),
        n matches Err(why) ==> why@ == "value is Not Int"@,
{
    let ghost before = js.log();
    let tag: i32 = js.get_norm_tag(v);
    assert(js.log() == before.push(tag_answer(v, tag)));
    if tag == JS_TAG_INT {
        Ok(js.to_uint32(ctx, v))
    } else {
        Err("value is Not Int".to_owned())
    }
}

/// The number in the raw value `v`, zero where it is no integer.
fn to_count<E: Engine>(js: &mut Session<E>, ctx: Address, v: JSValue) -> (count: u32)
    ensures
        exists|n: Option<u32>|
            #[trigger] u32_read(old(js).log(), final(js).log(), ctx, v, n) && count == count_of(n),
{
    let n = to_u32(js, ctx, v);
    assert(u32_read(old(js).log(), js.log(), ctx, v, number_of(n)));
    match n {
        Ok(k) => k,
        Err(_) => 0,
    }
}

impl JsArray {
    /// The elements, or the exception met on the way.
    pub fn to_vec<E: Engine>(&self, js: &mut Session<E>) -> (result: Result<
        Vec<JsValue>,
        JsException,
    >)
        ensures
            array_read(old(js).log(), final(js).log(), self.0, array_of(result)),
    {
        let ghost r = self.0;
        let ghost before = js.log();
        let ctx: Address = self.0.ctx;
        let v: JSValue = self.0.v;
        let key = make_c_string("length");
        let raw_len: JSValue = js.get_property_str(ctx, v, key.as_slice());
        let ghost asked = js.log();
        let len: u32 = to_count(js, ctx, raw_len);
        let ghost sized = js.log();
        let ghost n = choose|n: Option<u32>| #[trigger]
            u32_read(asked, sized, ctx, raw_len, n) && len == count_of(n);
        assert(u32_read(before.push(length_answer(r, raw_len)), sized, ctx, raw_len, n));
        js.free_value(ctx, raw_len);
        let ghost freed = js.log();

        let mut values: Vec<JsValue> = Vec::new();
        let ghost mut marks: Seq<Seq<Exchange>> = seq![js.log()];
        let mut index: u32 = 0;
        while index < len
            invariant
                r == self.0,
                ctx == r.ctx,
                v == r.v,
                index <= len,
                values@.len() == index,
                read_in_steps(marks, r, values@),
                marks[0] == freed,
                marks.last() == js.log(),
                u32_read(before.push(length_answer(r, raw_len)), sized, ctx, raw_len, n),
                len == count_of(n),
                freed == sized.push(Exchange::FreeValue { ctx, v: raw_len }),
                before == old(js).log(),
            decreases len - index,
        {
            let raw: JSValue = js.get_property_uint32(ctx, v, index);
            let tag: i32 = js.get_norm_tag(raw);
            assert(js.log() == marks.last().push(element_answer(r, index, raw)).push(
                tag_answer(raw, tag),
            ));
            if tag == JS_TAG_EXCEPTION {
                let ghost xs = values@;
                let e = JsException(JsRef { ctx, v: raw });
                release_all(js, values);
                assert(reading_stopped(freed, js.log(), r, len, e, marks, xs));
                assert(elements_failed(freed, js.log(), r, len, e));
                return Err(e);
            }
            let ghost xs = values@;
            let x = JsValue::from_qjs_value(js, ctx, raw);
            assert(element_read(marks.last(), js.log(), r, index, x));
            values.push(x);
            proof {
                let shown = marks.push(js.log());
                assert forall|i: int| 0 <= i < values@.len() implies element_read(
                    shown[i],
                    shown[i + 1],
                    r,
                    i as u32,
                    #[trigger] values@[i],
                ) by {
                    if i < xs.len() {
                        assert(values@[i] == xs[i]);
                    }
                }
                marks = shown;
            }
            index = index + 1;
        }
        assert(elements_read(freed, js.log(), r, len, values@));
        Ok(values)
    }

    /// Sets the length. Whether the engine reported zero.
    pub fn set_length<E: Engine>(&mut self, js: &mut Session<E>, len: usize) -> (done: bool)
        ensures
            *final(self) == *old(self),
            exists|raw: JSValue, status: i32|
                final(js).log() == old(js).log().push(
                    Exchange::NewInt64 { ctx: old(self).0.ctx, value: len as i64, ret: raw },
                ).push(#[trigger] length_write(old(self).0, raw, status)) && done == (status == 0),
    {
        let key = make_c_string("length");
        let raw: JSValue = js.new_int64(self.0.ctx, len as i64);
        let status: i32 = js.set_property_str(self.0.ctx, self.0.v, key.as_slice(), raw);
        let ghost write = length_write(self.0, raw, status);
        status == 0
    }

    /// The length, zero where the engine gives no integer.
    pub fn get_length<E: Engine>(&self, js: &mut Session<E>) -> (len: usize)
        ensures
            exists|raw: JSValue, n: Option<u32>| #[trigger]
                u32_read(
                    old(js).log().push(length_answer(self.0, raw)),
                    final(js).log(),
                    self.0.ctx,
                    raw,
                    n,
                ) && len == count_of(n),
    {
        let ghost before = js.log();
        let key = make_c_string("length");
        let raw: JSValue = js.get_property_str(self.0.ctx, self.0.v, key.as_slice());
        assert(js.log() == before.push(length_answer(self.0, raw)));
        to_count(js, self.0.ctx, raw) as usize
    }

    /// The element `i`, counted modulo 2^32.
    pub fn get<E: Engine>(&self, js: &mut Session<E>, i: usize) -> (x: JsValue)
        ensures
            exists|raw: JSValue| #[trigger]
                becomes(
                    old(js).log().push(element_answer(self.0, i as u32, raw)),
                    final(js).log(),
                    self.0.ctx,
                    raw,
                    x,
                ),
    {
        let ghost before = js.log();
        let raw: JSValue = js.get_property_uint32(self.0.ctx, self.0.v, i as u32);
        assert(js.log() == before.push(element_answer(self.0, i as u32, raw)));
        JsValue::from_qjs_value(js, self.0.ctx, raw)
    }

    /// Sets the element `i`, counted modulo 2^32, which takes over the reference of `x`.
    pub fn set<E: Engine>(&mut self, js: &mut Session<E>, i: usize, x: JsValue)
        ensures
            *final(self) == *old(self),
            element_set(old(js).log(), final(js).log(), old(self).0, i as u32, x),
    {
        let ghost before = js.log();
        let raw: JSValue = x.into_qjs_value(js);
        js.set_property_uint32(self.0.ctx, self.0.v, i as u32, raw);
        assert(js.log() == after_encoding(before, x, raw).push(
            element_write(self.0, i as u32, raw),
        ));
    }
}

/// The writing of a length.
pub open spec fn length_write(r: JsRef, raw: JSValue, status: i32) -> Exchange {
    Exchange::SetPropertyStr {
        ctx: r.ctx,
        obj: r.v,
        key: c_text("length"@),
        value: raw,
        ret: status,
    }
}

/// The writing of an element.
pub open spec fn element_write(r: JsRef, i: u32, raw: JSValue) -> Exchange {
    Exchange::SetPropertyUint32 { ctx: r.ctx, obj: r.v, index: i, value: raw }
}

/// Between the two records the element `i` of `r` was set to `x`.
pub open spec fn element_set(
    before: Seq<Exchange>,
    after: Seq<Exchange>,
    r: JsRef,
    i: u32,
    x: JsValue,
) -> bool {
    exists|raw: JSValue|
        is_raw_of(raw, x) && after == after_encoding(before, x, raw).push(
            #[trigger] element_write(r, i, raw),
        )
}

/// The reading of the bytes at `base`.
pub open spec fn bytes_reading(base: Address, bytes: Seq<u8>) -> Seq<Exchange> {
    Seq::new(
        bytes.len(),
        |i: int| Exchange::ReadByte { base, offset: i as usize, ret: bytes[i] },
    )
}

/// The asking where the bytes of a buffer are.
pub open spec fn buffer_answer(r: JsRef, base: Address, len: usize) -> Exchange {
    Exchange::GetArrayBuffer { ctx: r.ctx, v: r.v, ret: (base, len) }
}

impl JsArrayBuffer {
    /// A copy of the bytes.
    pub fn to_vec<E: Engine>(&self, js: &mut Session<E>) -> (bytes: Vec<u8>)
        ensures
            exists|base: Address|
                final(js).log() == old(js).log().push(
                    #[trigger] buffer_answer(self.0, base, bytes@.len() as usize),
                ) + bytes_reading(base, bytes@),
    {
        let ghost before = js.log();
        let (base, len) = self.get_mut_ptr(js);
        let mut bytes: Vec<u8> = Vec::new();
        let ghost asked = js.log();
        let mut i: usize = 0;
        while i < len
            invariant
                i <= len,
                bytes@.len() == i,
                js.log() == asked + bytes_reading(base, bytes@),
            decreases len - i,
        {
            let byte: u8 = js.read_byte(base, i);
            bytes.push(byte);
            i = i + 1;
            assert(js.log() =~= asked + bytes_reading(base, bytes@));
        }
        assert(asked == before.push(buffer_answer(self.0, base, bytes@.len() as usize)));
        bytes
    }

    /// Where the bytes are, and how many.
    pub fn get_mut_ptr<E: Engine>(&self, js: &mut Session<E>) -> (at: (Address, usize))
        ensures
            final(js).log() == old(js).log().push(buffer_answer(self.0, at.0, at.1)),
    {
        js.get_array_buffer(self.0.ctx, self.0.v)
    }
}

} // verus!
