//! Functions and promises, and native functions that scripts can call.
use crate::context::Context;
use crate::engine::{Address, Engine, Exchange, JSValue, Session};
use crate::value::{
    after_encoding, after_encodings, all_dropped, are_raws_of, becomes, encode_all, is_raw_of,
    release_all, JsFunction, JsPromise, JsRef, JsValue,
};
use vstd::prelude::*;

verus! {

/// The record after calling `f` on `raws` with `this`, the value `undefined`, as receiver.
pub open spec fn after_call(
    before: Seq<Exchange>,
    f: JsRef,
    this: JSValue,
    raws: Seq<JSValue>,
    argc: i32,
    raw: JSValue,
) -> Seq<Exchange> {
    before.push(Exchange::Undefined { ret: this }).push(
        Exchange::Call { ctx: f.ctx, function: f.v, this, argc, argv: raws, ret: raw },
    )
}

impl JsFunction {
    /// Calls the function on `argv`, which keep their references.
    pub fn call<E: Engine>(&self, js: &mut Session<E>, argv: &[JsValue]) -> (x: JsValue)
        ensures
            exists|raws: Seq<JSValue>, this: JSValue, raw: JSValue|
                are_raws_of(raws, argv@) && becomes(
                    #[trigger] after_call(
                        after_encodings(old(js).log(), argv@, raws),
                        self.0,
                        this,
                        raws,
                        argv@.len() as i32,
                        raw,
                    ),
                    final(js).log(),
                    self.0.ctx,
                    raw,
                    x,
                ),
    {
        let ghost before = js.log();
        let raws = encode_all(js, argv);
        let argc: i32 = raws.len() as i32;
        let this: JSValue = js.undefined();
        let raw: JSValue = js.call(self.0.ctx, self.0.v, this, argc, raws.as_slice());
        assert(js.log() == after_call(
            after_encodings(before, argv@, raws@),
            self.0,
            this,
            raws@,
            argv@.len() as i32,
            raw,
        ));
        JsValue::from_qjs_value(js, self.0.ctx, raw)
    }
}

impl JsPromise {
    /// What the promise was settled with.
    pub fn get_result<E: Engine>(&self, js: &mut Session<E>) -> (x: JsValue)
        ensures
            exists|raw: JSValue| #[trigger]
                becomes(
                    old(js).log().push(
                        Exchange::GetPromiseResult { ctx: self.0.ctx, v: self.0.v, ret: raw },
                    ),
                    final(js).log(),
                    self.0.ctx,
                    raw,
                    x,
                ),
    {
        let raw: JSValue = js.get_promise_result(self.0.ctx, self.0.v);
        JsValue::from_qjs_value(js, self.0.ctx, raw)
    }
}

/// A native function. The receiver is the function's to give up; the arguments are not.
pub trait JsFn {
    /// What the function does: between the two records, in `context`, it answers a call on
    /// `this_val` and `argv` with `answer`. A function that says nothing promises nothing.
    open spec fn answers(
        context: Context,
        before: Seq<Exchange>,
        after: Seq<Exchange>,
        this_val: JsValue,
        argv: Seq<JsValue>,
        answer: JsValue,
    ) -> bool {
        true
    }

    fn call<E: Engine>(
        ctx: &mut Context,
        js: &mut Session<E>,
        this_val: JsValue,
        argv: &[JsValue],
    ) -> (answer: JsValue)
        ensures
            Self::answers(
                *old(ctx),
                old(js).log(),
                final(js).log(),
                this_val,
                argv@,
                answer,
            ),
    ;
}

/// Between the two records a reference of its own was taken to the raw value `v` of `ctx`, and it
/// was found to be `x`.
pub open spec fn adopted(
    before: Seq<Exchange>,
    after: Seq<Exchange>,
    ctx: Address,
    v: JSValue,
    x: JsValue,
) -> bool {
    exists|raw: JSValue| #[trigger]
        becomes(before.push(Exchange::DupValue { ctx, v, ret: raw }), after, ctx, raw, x)
}

/// Between the two records the argument `i` at `argv` was fetched and adopted as `x`.
pub open spec fn argument_adopted(
    before: Seq<Exchange>,
    after: Seq<Exchange>,
    ctx: Address,
    argv: Address,
    i: i32,
    x: JsValue,
) -> bool {
    exists|v: JSValue| #[trigger]
        adopted(
            before.push(Exchange::ReadValue { base: argv, index: i, ret: v }),
            after,
            ctx,
            v,
            x,
        )
}

/// The arguments `xs` at `argv` were adopted one after the other, the i-th between `marks[i]` and
/// `marks[i + 1]`.
pub open spec fn adopted_in_steps(
    marks: Seq<Seq<Exchange>>,
    ctx: Address,
    argv: Address,
    xs: Seq<JsValue>,
) -> bool {
    &&& marks.len() == xs.len() + 1
    &&& forall|i: int|
        0 <= i < xs.len() ==> argument_adopted(
            marks[i],
            marks[i + 1],
            ctx,
            argv,
            i as i32,
            #[trigger] xs[i],
        )
}

/// Between the two records the context was completed with its runtime, and the receiver and the
/// `len` arguments of a call from a script were adopted.
pub open spec fn call_received(
    before: Seq<Exchange>,
    after: Seq<Exchange>,
    context: Context,
    this_obj: JSValue,
    len: i32,
    argv: Address,
    this_val: JsValue,
    args: Seq<JsValue>,
) -> bool {
    exists|marks: Seq<Seq<Exchange>>|
        {
            &&& args.len() == if len > 0 {
                len as int
            } else {
                0
            }
            &&& #[trigger] adopted_in_steps(marks, context.ctx, argv, args)
            &&& adopted(
                before.push(Exchange::GetRuntime { ctx: context.ctx, ret: context.rt }),
                marks[0],
                context.ctx,
                this_obj,
                this_val,
            )
            &&& marks.last() == after
        }
}

/// Between the two records `answer` was turned into `raw`, and the arguments were given up.
pub open spec fn call_answered(
    before: Seq<Exchange>,
    after: Seq<Exchange>,
    answer: JsValue,
    args: Seq<JsValue>,
    raw: JSValue,
) -> bool {
    is_raw_of(raw, answer) && all_dropped(after_encoding(before, answer, raw), after, args)
}

/// The way from a call in a script to a native function and back.
pub struct JsFunctionTrampoline;

impl JsFunctionTrampoline {
    /// Takes over what the engine hands to a native function.
    pub fn receive<E: Engine>(
        js: &mut Session<E>,
        ctx: Address,
        this_obj: JSValue,
        len: i32,
        argv: Address,
    ) -> (call: (Context, JsValue, Vec<JsValue>))
        ensures
            call.0.ctx == ctx,
            call_received(
                old(js).log(),
                final(js).log(),
                call.0,
                this_obj,
                len,
                argv,
                call.1,
                call.2@,
            ),
    {
        let ghost before = js.log();
        let rt: Address = js.get_runtime(ctx);
        let context = Context { rt, ctx };
        let ghost told = js.log();
        let this_ref: JSValue = js.dup_value(ctx, this_obj);
        let this_val = JsValue::from_qjs_value(js, ctx, this_ref);
        assert(adopted(told, js.log(), ctx, this_obj, this_val));
        let mut args: Vec<JsValue> = Vec::new();
        let ghost mut marks: Seq<Seq<Exchange>> = seq![js.log()];
        let ghost start = js.log();
        let mut i: i32 = 0;
        while i < len
            invariant
                0 <= i,
                len > 0 ==> i <= len,
                len <= 0 ==> i == 0,
                args@.len() == i,
                adopted_in_steps(marks, ctx, argv, args@),
                marks[0] == start,
                marks.last() == js.log(),
            decreases len - i,
        {
            let ghost xs = args@;
            let v: JSValue = js.read_value(argv, i);
            let ghost fetched = js.log();
            let own: JSValue = js.dup_value(ctx, v);
            let x = JsValue::from_qjs_value(js, ctx, own);
            assert(adopted(fetched, js.log(), ctx, v, x));
            assert(argument_adopted(marks.last(), js.log(), ctx, argv, i, x));
            args.push(x);
            proof {
                let shown = marks.push(js.log());
                assert forall|j: int| 0 <= j < args@.len() implies argument_adopted(
                    shown[j],
                    shown[j + 1],
                    ctx,
                    argv,
                    j as i32,
                    #[trigger] args@[j],
                ) by {
                    if j < xs.len() {
                        assert(args@[j] == xs[j]);
                    }
                }
                marks = shown;
            }
            i = i + 1;
        }
        (context, this_val, args)
    }

    /// Hands the answer of a native function to the engine and lets the arguments go.
    pub fn answer<E: Engine>(js: &mut Session<E>, answer: JsValue, args: Vec<JsValue>) -> (raw:
        JSValue)
        ensures
            call_answered(old(js).log(), final(js).log(), answer, args@, raw),
    {
        let raw: JSValue = answer.into_qjs_value(js);
        release_all(js, args);
        raw
    }

    /// Runs the native function `T` for a call in a script: takes over receiver and arguments,
    /// calls `T` on them, and hands its answer back.
    pub fn callback<T: JsFn, E: Engine>(
        js: &mut Session<E>,
        ctx: Address,
        this_obj: JSValue,
        len: i32,
        argv: Address,
    ) -> (raw: JSValue)
        ensures
            exists|
                context: Context,
                this_val: JsValue,
                args: Seq<JsValue>,
                called: Seq<Exchange>,
                returned: Seq<Exchange>,
                answer: JsValue,
            |
                {
                    &&& context.ctx == ctx
                    &&& #[trigger] call_received(
                        old(js).log(),
                        called,
                        context,
                        this_obj,
                        len,
                        argv,
                        this_val,
                        args,
                    )
                    &&& T::answers(context, called, returned, this_val, args, answer)
                    &&& #[trigger] call_answered(returned, final(js).log(), answer, args, raw)
                },
    {
        let (mut context, this_val, args) = JsFunctionTrampoline::receive(
            js,
            ctx,
            this_obj,
            len,
            argv,
        );
        let ghost called = js.log();
        let ghost received = context;
        let answer = T::call(&mut context, js, this_val, args.as_slice());
        let ghost returned = js.log();
        let raw: JSValue = JsFunctionTrampoline::answer(js, answer, args);
        assert(call_received(
            old(js).log(),
            called,
            received,
            this_obj,
            len,
            argv,
            this_val,
            args@,
        ) && call_answered(returned, js.log(), answer, args@, raw));
        raw
    }
}

} // verus!
