//! Contexts: making values, running code, raising errors.
use crate::array::{element_set, element_write};
use crate::cjs::{cjs_set_up, js_init_cjs, CjsCallbacks};
use crate::constants::{
    JS_EVAL_FLAG_COMPILE_ONLY, JS_EVAL_TYPE_GLOBAL, JS_EVAL_TYPE_MASK, JS_EVAL_TYPE_MODULE,
};
use crate::engine::{Address, Engine, Exchange, JSValue, Session};
use crate::object::{publish, published};
use crate::text::{c_text, make_c_string, nul_free};
use crate::value::{
    after_encoding, becomes, dropped, is_raw_of, JsArray, JsArrayBuffer, JsException, JsFunction,
    JsObject, JsRef, JsString, JsValue,
};
use vstd::prelude::*;
use vstd::utf8::encode_utf8;

verus! {

/// A context of the engine and the runtime that it belongs to. It is freed with
/// [`Context::release`].
#[derive(Debug, PartialEq, Eq, Structural)]
#[must_use]
pub struct Context {
    pub rt: Address,
    pub ctx: Address,
}

/// The setting up of a runtime and a context: the file loader for modules, the handlers of the
/// standard library, the number extensions, the console and the modules `std` and `os`.
pub open spec fn context_start(rt: Address, ctx: Address) -> Seq<Exchange> {
    seq![
        Exchange::NewRuntime { ret: rt },
        Exchange::SetModuleLoader { rt },
        Exchange::StdInitHandlers { rt },
        Exchange::NewContext { rt, ret: ctx },
        Exchange::AddIntrinsicBigFloat { ctx },
        Exchange::AddIntrinsicBigDecimal { ctx },
        Exchange::AddIntrinsicOperators { ctx },
        Exchange::EnableBignumExt { ctx, enable: 1 },
        Exchange::StdAddConsole { ctx },
        Exchange::InitModuleStd { ctx, name: c_text("std"@) },
        Exchange::InitModuleOs { ctx, name: c_text("os"@) },
    ]
}

/// The tearing down of a context and its runtime.
pub open spec fn context_end(rt: Address, ctx: Address) -> Seq<Exchange> {
    seq![
        Exchange::StdFreeHandlers { rt },
        Exchange::FreeContext { ctx },
        Exchange::FreeRuntime { rt },
    ]
}

/// The record after the texts `args` were put into the array `array` as `strings`, each at its
/// own place.
pub open spec fn after_arguments(
    before: Seq<Exchange>,
    ctx: Address,
    array: JSValue,
    args: Seq<Seq<char>>,
    strings: Seq<JSValue>,
) -> Seq<Exchange>
    decreases args.len(),
{
    if args.len() == 0 {
        before
    } else {
        after_arguments(before, ctx, array, args.drop_last(), strings.drop_last()).push(
            Exchange::NewStringLen { ctx, bytes: encode_utf8(args.last()), ret: strings.last() },
        ).push(
            Exchange::SetPropertyUint32 {
                ctx,
                obj: array,
                index: (args.len() - 1) as u32,
                value: strings.last(),
            },
        )
    }
}

/// The texts behind some string slices.
pub open spec fn texts_of(args: Seq<&str>) -> Seq<Seq<char>> {
    args.map_values(|a: &str| a@)
}

/// Between the two records the texts `args` were made an array, and the array the global `args`.
pub open spec fn arguments_put(
    before: Seq<Exchange>,
    after: Seq<Exchange>,
    ctx: Address,
    args: Seq<Seq<char>>,
) -> bool {
    exists|array: JSValue, strings: Seq<JSValue>, global: JSValue, set: Seq<Exchange>|
        {
            &&& strings.len() == args.len()
            &&& #[trigger] published(
                after_arguments(
                    before.push(Exchange::NewArray { ctx, ret: array }),
                    ctx,
                    array,
                    args,
                    strings,
                ).push(Exchange::GetGlobalObject { ctx, ret: global }),
                set,
                JsRef { ctx, v: global },
                "args"@,
                JsValue::Array(JsArray(JsRef { ctx, v: array })),
            )
            &&& dropped(set, after, JsValue::Object(JsObject(JsRef { ctx, v: global })))
        }
}

/// The evaluation of a text.
pub open spec fn eval_exchange(
    ctx: Address,
    code: Seq<char>,
    filename: Seq<char>,
    flags: u32,
    raw: JSValue,
) -> Exchange {
    Exchange::Eval {
        ctx,
        code: encode_utf8(code).push(0u8),
        len: encode_utf8(code).len() as usize,
        filename: c_text(filename),
        flags: flags as i32,
        ret: raw,
    }
}

/// Whether the flags ask for a module.
pub open spec fn is_module(flags: u32) -> bool {
    flags & JS_EVAL_TYPE_MASK == JS_EVAL_TYPE_MODULE
}

/// The asking whether a raw value is the exception marker.
pub open spec fn exception_answer(raw: JSValue, answer: i32) -> Exchange {
    Exchange::IsException { v: raw, ret: answer }
}

/// Between the two records a text was evaluated to the raw value `raw`. A module is compiled
/// first, and then run unless compiling raised an exception; anything else is run at once.
pub open spec fn code_run(
    before: Seq<Exchange>,
    after: Seq<Exchange>,
    ctx: Address,
    code: Seq<char>,
    filename: Seq<char>,
    flags: u32,
    raw: JSValue,
) -> bool {
    if is_module(flags) {
        exists|compiled: JSValue, answer: i32|
            {
                let checked = before.push(
                    eval_exchange(
                        ctx,
                        code,
                        filename,
                        flags | JS_EVAL_FLAG_COMPILE_ONLY,
                        compiled,
                    ),
                ).push(#[trigger] exception_answer(compiled, answer));
                if answer <= 0 {
                    after == checked.push(
                        Exchange::EvalFunction { ctx, function: compiled, ret: raw },
                    )
                } else {
                    after == checked && raw == compiled
                }
            }
    } else {
        after == before.push(eval_exchange(ctx, code, filename, flags, raw))
    }
}

/// The record after the engine was asked whether `raw` is the exception marker, and told to
/// report the exception where it is.
pub open spec fn after_report(
    before: Seq<Exchange>,
    ctx: Address,
    raw: JSValue,
    answer: i32,
) -> Seq<Exchange> {
    let asked = before.push(exception_answer(raw, answer));
    if answer > 0 {
        asked.push(Exchange::StdDumpError { ctx })
    } else {
        asked
    }
}

/// Between the two records a text was evaluated to `x`; an exception was reported.
pub open spec fn evaluated(
    before: Seq<Exchange>,
    after: Seq<Exchange>,
    ctx: Address,
    code: Seq<char>,
    filename: Seq<char>,
    flags: u32,
    x: JsValue,
) -> bool {
    exists|run: Seq<Exchange>, raw: JSValue, answer: i32|
        {
            &&& #[trigger] code_run(before, run, ctx, code, filename, flags, raw)
            &&& becomes(#[trigger] after_report(run, ctx, raw, answer), after, ctx, raw, x)
        }
}

/// Between the two records a text was evaluated as a module, the result was given up, whatever it
/// was, and the pending jobs were run.
pub open spec fn module_run(
    before: Seq<Exchange>,
    after: Seq<Exchange>,
    ctx: Address,
    code: Seq<char>,
    filename: Seq<char>,
) -> bool {
    exists|x: JsValue, run: Seq<Exchange>, freed: Seq<Exchange>|
        {
            &&& #[trigger] evaluated(before, run, ctx, code, filename, JS_EVAL_TYPE_MODULE, x)
            &&& #[trigger] dropped(run, freed, x)
            &&& after == freed.push(Exchange::StdLoop { ctx })
        }
}

/// Between the two records an error with the message `msg` was made, and `x` it is. Where the
/// engine makes no plain object, the message is given up.
pub open spec fn error_made(
    before: Seq<Exchange>,
    after: Seq<Exchange>,
    ctx: Address,
    msg: Seq<char>,
    x: JsValue,
) -> bool {
    exists|text: JSValue, error: JSValue, made: Seq<Exchange>|
        {
            let message = JsValue::String(JsString(JsRef { ctx, v: text }));
            &&& #[trigger] becomes(
                before.push(
                    Exchange::NewStringLen { ctx, bytes: encode_utf8(msg), ret: text },
                ).push(Exchange::NewError { ctx, ret: error }),
                made,
                ctx,
                error,
                x,
            )
            &&& match x {
                JsValue::Object(o) => published(made, after, o.0, "message"@, message),
                _ => dropped(made, after, message),
            }
        }
}

/// The answer of the engine to the wish for a promise.
pub open spec fn promise_answer(
    ctx: Address,
    promise: JSValue,
    resolve: JSValue,
    reject: JSValue,
) -> Exchange {
    Exchange::NewPromiseCapability { ctx, ret: (promise, resolve, reject) }
}

/// Between the two records a promise was made and found, with the two functions that settle it,
/// to be `p`, `f` and `g`.
pub open spec fn promise_made(
    before: Seq<Exchange>,
    after: Seq<Exchange>,
    ctx: Address,
    p: JsValue,
    f: JsValue,
    g: JsValue,
) -> bool {
    exists|
        promise: JSValue,
        resolve: JSValue,
        reject: JSValue,
        first: Seq<Exchange>,
        second: Seq<Exchange>,
    |
        {
            &&& #[trigger] becomes(
                before.push(promise_answer(ctx, promise, resolve, reject)),
                first,
                ctx,
                promise,
                p,
            )
            &&& #[trigger] becomes(first, second, ctx, resolve, f)
            &&& #[trigger] becomes(second, after, ctx, reject, g)
        }
}

impl Context {
    /// A new runtime with one context. Where `cjs` has the addresses of their native functions,
    /// the globals `module`, `require` and `__dirname` are set up too.
    pub fn new<E: Engine>(js: &mut Session<E>, cjs: Option<CjsCallbacks>) -> (context: Context)
        ensures
            match cjs {
                None => final(js).log() == old(js).log() + context_start(context.rt, context.ctx),
                Some(callbacks) => cjs_set_up(
                    old(js).log() + context_start(context.rt, context.ctx),
                    final(js).log(),
                    context.ctx,
                    callbacks,
                ),
            },
    {
        let ghost before = js.log();
        let rt: Address = js.new_runtime();
        js.set_module_loader(rt);
        js.std_init_handlers(rt);
        let ctx: Address = js.new_context(rt);
        js.add_intrinsic_big_float(ctx);
        js.add_intrinsic_big_decimal(ctx);
        js.add_intrinsic_operators(ctx);
        js.enable_bignum_ext(ctx, 1);
        js.std_add_console(ctx);
        let std_name = make_c_string("std");
        js.init_module_std(ctx, std_name.as_slice());
        let os_name = make_c_string("os");
        js.init_module_os(ctx, os_name.as_slice());
        assert(js.log() =~= before + context_start(rt, ctx));
        let mut context = Context { rt, ctx };
        if let Some(callbacks) = cjs {
            js_init_cjs(&mut context, js, callbacks);
        }
        context
    }

    /// Frees the context and its runtime.
    pub fn release<E: Engine>(self, js: &mut Session<E>)
        ensures
            final(js).log() == old(js).log() + context_end(self.rt, self.ctx),
    {
        js.std_free_handlers(self.rt);
        js.free_context(self.ctx);
        js.free_runtime(self.rt);
        assert(js.log() =~= old(js).log() + context_end(self.rt, self.ctx));
    }

    /// The global object.
    pub fn get_global<E: Engine>(&mut self, js: &mut Session<E>) -> (global: JsObject)
        ensures
            *final(self) == *old(self),
            global.0.ctx == old(self).ctx,
            final(js).log() == old(js).log().push(
                Exchange::GetGlobalObject { ctx: old(self).ctx, ret: global.0.v },
            ),
    {
        JsObject(JsRef { ctx: self.ctx, v: js.get_global_object(self.ctx) })
    }

    /// Makes the texts `args` the global array `args`.
    pub fn put_args<E: Engine>(&mut self, js: &mut Session<E>, args: &[&str])
        ensures
            *final(self) == *old(self),
            arguments_put(old(js).log(), final(js).log(), old(self).ctx, texts_of(args@)),
    {
        let ghost before = js.log();
        let ghost texts = texts_of(args@);
        let ctx: Address = self.ctx;
        let mut args_obj = self.new_array(js);
        let ghost array = args_obj.0.v;
        let ghost mut strings: Seq<JSValue> = Seq::empty();
        let ghost made = js.log();
        let mut i: usize = 0;
        assert(texts.take(0) =~= Seq::<Seq<char>>::empty());
        while i < args.len()
            invariant
                i <= args.len(),
                *self == *old(self),
                ctx == self.ctx,
                args_obj.0 == (JsRef { ctx, v: array }),
                texts == texts_of(args@),
                strings.len() == i,
                js.log() == after_arguments(made, ctx, array, texts.take(i as int), strings),
            decreases args.len() - i,
        {
            let ghost done = js.log();
            let text = self.new_string(js, args[i]);
            let ghost s = text.0.v;
            let ghost told = js.log();
            args_obj.set(js, i, JsValue::from(text));
            proof {
                let raw = choose|raw: JSValue|
                    is_raw_of(raw, JsValue::String(text)) && js.log() == after_encoding(
                        told,
                        JsValue::String(text),
                        raw,
                    ).push(#[trigger] element_write(args_obj.0, i as u32, raw));
                assert(raw == s);
                let next = strings.push(s);
                assert(texts.take(i + 1).drop_last() =~= texts.take(i as int));
                assert(next.drop_last() =~= strings);
                assert(texts.take(i + 1).last() == args@[i as int]@);
                strings = next;
            }
            i = i + 1;
        }
        assert(texts.take(i as int) =~= texts);
        let mut global = self.get_global(js);
        let ghost g = global.0;
        let ghost asked = js.log();
        publish(js, &mut global, "args", JsValue::from(args_obj));
        assert(published(
            asked,
            js.log(),
            JsRef { ctx, v: g.v },
            "args"@,
            JsValue::Array(JsArray(JsRef { ctx, v: array })),
        ));
        JsValue::from(global).release(js);
    }

    /// Evaluates `code`, known to the engine as `filename`.
    ///
    /// The engine reads as many bytes as `code` has, and a NUL behind them. A text that holds a
    /// NUL itself has no C string of that length, so it is not for this function.
    pub fn eval_buf<E: Engine>(
        &mut self,
        js: &mut Session<E>,
        code: &str,
        filename: &str,
        eval_flags: u32,
    ) -> (x: JsValue)
        requires
            nul_free(code@),
        ensures
            *final(self) == *old(self),
            evaluated(
                old(js).log(),
                final(js).log(),
                old(self).ctx,
                code@,
                filename@,
                eval_flags,
                x,
            ),
    {
        let ghost before = js.log();
        let ctx: Address = self.ctx;
        let text = make_c_string(code);
        let name = make_c_string(filename);
        let len: usize = code.len();
        let raw: JSValue = if (eval_flags & JS_EVAL_TYPE_MASK) == JS_EVAL_TYPE_MODULE {
            let flags: u32 = eval_flags | JS_EVAL_FLAG_COMPILE_ONLY;
            let compiled: JSValue = js.eval(
                ctx,
                text.as_slice(),
                len,
                name.as_slice(),
                flags as i32,
            );
            let answer: i32 = js.is_exception(compiled);
            let ghost told = exception_answer(compiled, answer);
            if answer <= 0 {
                js.eval_function(ctx, compiled)
            } else {
                compiled
            }
        } else {
            js.eval(ctx, text.as_slice(), len, name.as_slice(), eval_flags as i32)
        };
        let ghost run = js.log();
        assert(code_run(before, run, ctx, code@, filename@, eval_flags, raw));
        let answer: i32 = js.is_exception(raw);
        if answer > 0 {
            js.std_dump_error(ctx);
        }
        assert(js.log() == after_report(run, ctx, raw, answer));
        JsValue::from_qjs_value(js, ctx, raw)
    }

    /// Evaluates `code` as a script.
    pub fn eval_global_str<E: Engine>(&mut self, js: &mut Session<E>, code: &str) -> (x: JsValue)
        requires
            nul_free(code@),
        ensures
            *final(self) == *old(self),
            evaluated(
                old(js).log(),
                final(js).log(),
                old(self).ctx,
                code@,
                "<evalScript>"@,
                JS_EVAL_TYPE_GLOBAL,
                x,
            ),
    {
        self.eval_buf(js, code, "<evalScript>", JS_EVAL_TYPE_GLOBAL)
    }

    /// Evaluates `code` as a module, gives the result up, and runs the pending jobs.
    pub fn eval_module_str<E: Engine>(&mut self, js: &mut Session<E>, code: &str, filename: &str)
        requires
            nul_free(code@),
        ensures
            *final(self) == *old(self),
            module_run(old(js).log(), final(js).log(), old(self).ctx, code@, filename@),
    {
        let x = self.eval_buf(js, code, filename, JS_EVAL_TYPE_MODULE);
        let ghost run = js.log();
        x.release(js);
        let ghost freed = js.log();
        assert(dropped(run, freed, x));
        self.promise_loop_poll(js);
    }

    /// A function of the name `name` that calls the native function at `callback`.
    pub fn new_function<E: Engine>(
        &mut self,
        js: &mut Session<E>,
        callback: Address,
        name: &str,
    ) -> (f: JsFunction)
        requires
            nul_free(name@),
        ensures
            *final(self) == *old(self),
            f.0.ctx == old(self).ctx,
            final(js).log() == old(js).log().push(
                Exchange::NewCFunction {
                    ctx: old(self).ctx,
                    callback,
                    name: encode_utf8(name@).push(0u8),
                    length: 1,
                    ret: f.0.v,
                },
            ),
    {
        let c_name = make_c_string(name);
        let v: JSValue = js.new_c_function(self.ctx, callback, c_name.as_slice(), 1);
        JsFunction(JsRef { ctx: self.ctx, v })
    }

    /// An empty object.
    pub fn new_object<E: Engine>(&mut self, js: &mut Session<E>) -> (o: JsObject)
        ensures
            *final(self) == *old(self),
            o.0.ctx == old(self).ctx,
            final(js).log() == old(js).log().push(
                Exchange::NewObject { ctx: old(self).ctx, ret: o.0.v },
            ),
    {
        JsObject(JsRef { ctx: self.ctx, v: js.new_object(self.ctx) })
    }

    /// An empty array.
    pub fn new_array<E: Engine>(&mut self, js: &mut Session<E>) -> (a: JsArray)
        ensures
            *final(self) == *old(self),
            a.0.ctx == old(self).ctx,
            final(js).log() == old(js).log().push(
                Exchange::NewArray { ctx: old(self).ctx, ret: a.0.v },
            ),
    {
        JsArray(JsRef { ctx: self.ctx, v: js.new_array(self.ctx) })
    }

    /// A buffer with a copy of `buff`.
    pub fn new_array_buffer<E: Engine>(&mut self, js: &mut Session<E>, buff: &[u8]) -> (b:
        JsArrayBuffer)
        ensures
            *final(self) == *old(self),
            b.0.ctx == old(self).ctx,
            final(js).log() == old(js).log().push(
                Exchange::NewArrayBufferCopy { ctx: old(self).ctx, bytes: buff@, ret: b.0.v },
            ),
    {
        JsArrayBuffer(JsRef { ctx: self.ctx, v: js.new_array_buffer_copy(self.ctx, buff) })
    }

    /// A buffer with a copy of the memory of `buff`: the engine is handed `buff` itself and the
    /// number of its bytes. What bytes they are is up to the compiler.
    pub fn new_array_buffer_t<T, E: Engine>(&mut self, js: &mut Session<E>, buff: &[T]) -> (b:
        JsArrayBuffer)
        requires
            buff@.len() * vstd::layout::size_of::<T>() <= usize::MAX,
        ensures
            *final(self) == *old(self),
            b.0.ctx == old(self).ctx,
            final(js).log() == old(js).log().push(
                Exchange::NewArrayBufferCopyT {
                    ctx: old(self).ctx,
                    count: buff@.len(),
                    len: (buff@.len() * vstd::layout::size_of::<T>()) as usize,
                    ret: b.0.v,
                },
            ),
            exists|e: &mut E|
                *e == old(js).engine() && *final(e) == final(js).engine()
                    && #[trigger] call_ensures(
                    E::new_array_buffer_copy_t::<T>,
                    (
                        e,
                        old(self).ctx,
                        buff,
                        (buff@.len() * vstd::layout::size_of::<T>()) as usize,
                    ),
                    b.0.v,
                ),
    {
        let len: usize = buff.len() * core::mem::size_of::<T>();
        let v: JSValue = js.new_array_buffer_copy_t(self.ctx, buff, len);
        JsArrayBuffer(JsRef { ctx: self.ctx, v })
    }

    /// A string.
    pub fn new_string<E: Engine>(&mut self, js: &mut Session<E>, s: &str) -> (string: JsString)
        ensures
            *final(self) == *old(self),
            string.0.ctx == old(self).ctx,
            final(js).log() == old(js).log().push(
                Exchange::NewStringLen {
                    ctx: old(self).ctx,
                    bytes: encode_utf8(s@),
                    ret: string.0.v,
                },
            ),
    {
        JsString(JsRef { ctx: self.ctx, v: js.new_string_len(self.ctx, s.as_bytes()) })
    }

    /// The value `v` converted to a string.
    pub fn value_to_string<E: Engine>(&mut self, js: &mut Session<E>, v: &JsValue) -> (x: JsValue)
        ensures
            *final(self) == *old(self),
            exists|raw: JSValue, text: JSValue|
                is_raw_of(raw, *v) && #[trigger] becomes(
                    after_encoding(old(js).log(), *v, raw).push(
                        Exchange::ToString { ctx: old(self).ctx, v: raw, ret: text },
                    ),
                    final(js).log(),
                    old(self).ctx,
                    text,
                    x,
                ),
    {
        let raw: JSValue = v.get_qjs_value(js);
        let text: JSValue = js.to_string(self.ctx, raw);
        JsValue::from_qjs_value(js, self.ctx, text)
    }

    /// An error with the message `msg`.
    pub fn new_error<E: Engine>(&mut self, js: &mut Session<E>, msg: &str) -> (x: JsValue)
        ensures
            *final(self) == *old(self),
            error_made(old(js).log(), final(js).log(), old(self).ctx, msg@, x),
    {
        let message = self.new_string(js, msg);
        let error: JSValue = js.new_error(self.ctx);
        let x = JsValue::from_qjs_value(js, self.ctx, error);
        match x {
            JsValue::Object(o) => {
                let mut o = o;
                publish(js, &mut o, "message", JsValue::from(message));
                JsValue::Object(o)
            },
            other => {
                JsValue::from(message).release(js);
                other
            },
        }
    }

    /// Raises a `TypeError`.
    pub fn throw_type_error<E: Engine>(&mut self, js: &mut Session<E>, msg: &str) -> (e: JsException)
        ensures
            *final(self) == *old(self),
            e.0.ctx == old(self).ctx,
            final(js).log() == old(js).log().push(
                Exchange::ThrowTypeError {
                    ctx: old(self).ctx,
                    message: c_text(msg@),
                    ret: e.0.v,
                },
            ),
    {
        let message = make_c_string(msg);
        let v: JSValue = js.throw_type_error(self.ctx, message.as_slice());
        JsException(JsRef { ctx: self.ctx, v })
    }

    /// Raises `obj`, which takes over its reference.
    pub fn throw_error<E: Engine>(&mut self, js: &mut Session<E>, obj: JsValue) -> (e: JsException)
        ensures
            *final(self) == *old(self),
            e.0.ctx == old(self).ctx,
            exists|raw: JSValue|
                is_raw_of(raw, obj) && final(js).log() == (#[trigger] after_encoding(
                    old(js).log(),
                    obj,
                    raw,
                )).push(Exchange::Throw { ctx: old(self).ctx, error: raw, ret: e.0.v }),
    {
        let raw: JSValue = obj.into_qjs_value(js);
        let v: JSValue = js.throw(self.ctx, raw);
        JsException(JsRef { ctx: self.ctx, v })
    }

    /// Raises an `InternalError`.
    pub fn throw_internal_type_error<E: Engine>(&mut self, js: &mut Session<E>, msg: &str) -> (e:
        JsException)
        ensures
            *final(self) == *old(self),
            e.0.ctx == old(self).ctx,
            final(js).log() == old(js).log().push(
                Exchange::ThrowInternalError {
                    ctx: old(self).ctx,
                    message: c_text(msg@),
                    ret: e.0.v,
                },
            ),
    {
        let message = make_c_string(msg);
        let v: JSValue = js.throw_internal_error(self.ctx, message.as_slice());
        JsException(JsRef { ctx: self.ctx, v })
    }

    /// Raises a `ReferenceError`.
    pub fn throw_reference_error<E: Engine>(&mut self, js: &mut Session<E>, msg: &str) -> (e:
        JsException)
        ensures
            *final(self) == *old(self),
            e.0.ctx == old(self).ctx,
            final(js).log() == old(js).log().push(
                Exchange::ThrowReferenceError {
                    ctx: old(self).ctx,
                    message: c_text(msg@),
                    ret: e.0.v,
                },
            ),
    {
        let message = make_c_string(msg);
        let v: JSValue = js.throw_reference_error(self.ctx, message.as_slice());
        JsException(JsRef { ctx: self.ctx, v })
    }

    /// Raises a `RangeError`.
    pub fn throw_range_error<E: Engine>(&mut self, js: &mut Session<E>, msg: &str) -> (e:
        JsException)
        ensures
            *final(self) == *old(self),
            e.0.ctx == old(self).ctx,
            final(js).log() == old(js).log().push(
                Exchange::ThrowRangeError {
                    ctx: old(self).ctx,
                    message: c_text(msg@),
                    ret: e.0.v,
                },
            ),
    {
        let message = make_c_string(msg);
        let v: JSValue = js.throw_range_error(self.ctx, message.as_slice());
        JsException(JsRef { ctx: self.ctx, v })
    }

    /// A promise, and the two functions that settle it.
    pub fn new_promise<E: Engine>(&mut self, js: &mut Session<E>) -> (parts: (
        JsValue,
        JsValue,
        JsValue,
    ))
        ensures
            *final(self) == *old(self),
            promise_made(
                old(js).log(),
                final(js).log(),
                old(self).ctx,
                parts.0,
                parts.1,
                parts.2,
            ),
    {
        let ghost before = js.log();
        let ctx: Address = self.ctx;
        let (promise, resolve, reject) = js.new_promise_capability(ctx);
        let p = JsValue::from_qjs_value(js, ctx, promise);
        let ghost first = js.log();
        let f = JsValue::from_qjs_value(js, ctx, resolve);
        let ghost second = js.log();
        let g = JsValue::from_qjs_value(js, ctx, reject);
        assert(becomes(
            before.push(promise_answer(ctx, promise, resolve, reject)),
            first,
            ctx,
            promise,
            p,
        ));
        (p, f, g)
    }

    /// Runs the pending jobs until none is left.
    pub fn promise_loop_poll<E: Engine>(&mut self, js: &mut Session<E>)
        ensures
            *final(self) == *old(self),
            final(js).log() == old(js).log().push(Exchange::StdLoop { ctx: old(self).ctx }),
    {
        js.std_loop(self.ctx);
    }
}

} // verus!
