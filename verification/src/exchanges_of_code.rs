//! What running code, native functions and CommonJS modules ask the engine for, exchange by
//! exchange.
use crate::cjs::{
    accessor_defined, after_accessor, atom_typed, beside, cjs_set_up, dirname_of, dirname_told,
    exports_cleared, exports_of_module, exports_taken, file_answer, file_named, file_text,
    function_made, global_answer, is_relative, module_loaded, module_required, specifier_resolved,
    CjsCallbacks, JsDirName, JsRequire,
};
use crate::conduct::{
    doubles_read_back, law_double_comes_back, lemma_delete_shows, lemma_dropped_shows,
    lemma_made_value_read, plain_values_read_back, property_held,
};
use crate::context::{
    after_arguments, after_report, arguments_put, code_run, context_end, context_start, error_made,
    eval_exchange, evaluated, exception_answer, module_run, promise_answer, promise_made, texts_of,
    Context,
};
use crate::engine::{Address, Exchange, JSAtom, JSValue};
use crate::exchanges::{
    law_c_string_is_the_whole_text, law_encoding_shows_in_the_record, law_giving_up_a_value,
    law_giving_up_the_first_value,
};
use crate::exchanges_of_objects::lemma_two_dropped;
use crate::function::{
    adopted, adopted_in_steps, after_call, argument_adopted, call_answered, call_received, JsFn,
};
use crate::laws::law_release_all_asks_once_per_reference;
use crate::object::{property_deleted, property_got, published};
use crate::path::{joined, parent, trimmed, without_last};
use crate::text::c_text;
use crate::value::{
    after_encoding, all_dropped, becomes, dropped, questions, released, text_read, typed, JsArray,
    JsFunction, JsObject, JsRef, JsString, JsValue, Probe,
};
use vstd::prelude::*;
use vstd::utf8::{decode_utf8, encode_utf8, valid_utf8};

verus! {

proof fn lemma_becomes_goes_on(
    before: Seq<Exchange>,
    after: Seq<Exchange>,
    ctx: Address,
    v: JSValue,
    x: JsValue,
)
    requires
        becomes(before, after, ctx, v, x),
    ensures
        before.is_prefix_of(after),
        before.len() < after.len(),
{
    let p = choose|p: Probe|
        p.v == v && after == before + #[trigger] questions(ctx, p) && x == typed(ctx, p);
}

/// Calling a function calls it on the raw arguments, as many as are given, with a receiver that
/// the engine makes as `undefined`.
pub proof fn law_function_call(
    before: Seq<Exchange>,
    f: JsRef,
    this: JSValue,
    raws: Seq<JSValue>,
    argc: i32,
    raw: JSValue,
)
    ensures
        after_call(before, f, this, raws, argc, raw) == before + seq![
            Exchange::Undefined { ret: this },
            Exchange::Call { ctx: f.ctx, function: f.v, this, argc, argv: raws, ret: raw },
        ],
{
}

/// A raw value that a native function takes over is doubled first, and is what the double is found
/// to be.
pub proof fn law_value_taken_over(
    before: Seq<Exchange>,
    after: Seq<Exchange>,
    ctx: Address,
    v: JSValue,
    x: JsValue,
)
    requires
        adopted(before, after, ctx, v, x),
    ensures
        ({
            &&& before.is_prefix_of(after)
            &&& after.len() > before.len()
            &&& after[before.len() as int] matches Exchange::DupValue { ctx: c, v: w, ret: raw }
            &&& c == ctx && w == v
            &&& becomes(before.push(after[before.len() as int]), after, ctx, raw, x)
        }),
{
    let raw = choose|raw: JSValue| #[trigger]
        becomes(before.push(Exchange::DupValue { ctx, v, ret: raw }), after, ctx, raw, x);
    let asked = before.push(Exchange::DupValue { ctx, v, ret: raw });
    lemma_becomes_goes_on(asked, after, ctx, raw, x);
    assert(after[before.len() as int] == asked[before.len() as int]);
}

/// The arguments of a native function are fetched in order, each from its own place, and taken
/// over.
pub proof fn law_argument_taken_over(
    marks: Seq<Seq<Exchange>>,
    ctx: Address,
    argv: Address,
    xs: Seq<JsValue>,
    i: int,
)
    requires
        adopted_in_steps(marks, ctx, argv, xs),
        0 <= i < xs.len(),
    ensures
        marks.len() == xs.len() + 1,
        ({
            &&& marks[i].is_prefix_of(marks[i + 1])
            &&& marks[i + 1].len() > marks[i].len()
            &&& marks[i + 1][marks[i].len() as int] matches Exchange::ReadValue {
                base,
                index,
                ret: v,
            }
            &&& base == argv && index == i as i32
            &&& adopted(
                marks[i].push(marks[i + 1][marks[i].len() as int]),
                marks[i + 1],
                ctx,
                v,
                xs[i],
            )
        }),
{
    assert(argument_adopted(marks[i], marks[i + 1], ctx, argv, i as i32, xs[i]));
    let v = choose|v: JSValue| #[trigger]
        adopted(
            marks[i].push(Exchange::ReadValue { base: argv, index: i as i32, ret: v }),
            marks[i + 1],
            ctx,
            v,
            xs[i],
        );
    let asked = marks[i].push(Exchange::ReadValue { base: argv, index: i as i32, ret: v });
    law_value_taken_over(asked, marks[i + 1], ctx, v, xs[i]);
    assert(marks[i + 1][marks[i].len() as int] == asked[marks[i].len() as int]);
}

/// A call from a script is received in the context that it comes from, with that context's own
/// runtime. The receiver is taken over first, then each of the arguments, as many as there are.
pub proof fn law_call_is_received(
    before: Seq<Exchange>,
    after: Seq<Exchange>,
    context: Context,
    this_obj: JSValue,
    len: i32,
    argv: Address,
    this_val: JsValue,
    args: Seq<JsValue>,
)
    requires
        call_received(before, after, context, this_obj, len, argv, this_val, args),
    ensures
        len >= 0 ==> args.len() == len,
        len < 0 ==> args.len() == 0,
        exists|start: Seq<Exchange>, marks: Seq<Seq<Exchange>>|
            {
                &&& #[trigger] adopted(
                    before.push(Exchange::GetRuntime { ctx: context.ctx, ret: context.rt }),
                    start,
                    context.ctx,
                    this_obj,
                    this_val,
                )
                &&& #[trigger] adopted_in_steps(marks, context.ctx, argv, args)
                &&& marks[0] == start
                &&& marks.last() == after
            },
{
    let marks = choose|marks: Seq<Seq<Exchange>>|
        {
            &&& args.len() == if len > 0 {
                len as int
            } else {
                0
            }
            &&& #[trigger] adopted_in_steps(marks, context.ctx, argv, args)
            &&& adopted(
                before.push(Exchange::GetRuntime { ctx: context.ctx, ret: context.rt }),
                marks[0],
                context.ctx,
                this_obj,
                this_val,
            )
            &&& marks.last() == after
        };
    assert(adopted(
        before.push(Exchange::GetRuntime { ctx: context.ctx, ret: context.rt }),
        marks[0],
        context.ctx,
        this_obj,
        this_val,
    ) && adopted_in_steps(marks, context.ctx, argv, args));
}

/// The very answer of a native function goes to the script. Right behind what the function itself
/// said, a number is made of that number, a double of its bits, a truth value of one exactly where
/// it is true, `null` and `undefined` as such, and the raw value made is the one returned; an
/// answer with a reference is returned as the raw value that it refers to, and nothing is made.
/// The arguments are then given up, first to last.
pub proof fn law_answer_goes_to_the_script(
    returned: Seq<Exchange>,
    after: Seq<Exchange>,
    answer: JsValue,
    args: Seq<JsValue>,
    raw: JSValue,
)
    requires
        call_answered(returned, after, answer, args, raw),
    ensures
        match answer {
            JsValue::Int(n) => all_dropped(
                returned.push(Exchange::NewInt32 { ctx: 0, value: n, ret: raw }),
                after,
                args,
            ),
            JsValue::Float(bits) => all_dropped(
                returned.push(Exchange::NewFloat64 { ctx: 0, bits, ret: raw }),
                after,
                args,
            ),
            JsValue::Bool(true) => all_dropped(
                returned.push(Exchange::NewBool { ctx: 0, value: 1, ret: raw }),
                after,
                args,
            ),
            JsValue::Bool(false) => all_dropped(
                returned.push(Exchange::NewBool { ctx: 0, value: 0, ret: raw }),
                after,
                args,
            ),
            JsValue::Null => all_dropped(
                returned.push(Exchange::Null { ret: raw }),
                after,
                args,
            ),
            JsValue::UnDefined => all_dropped(
                returned.push(Exchange::Undefined { ret: raw }),
                after,
                args,
            ),
            _ => all_dropped(returned, after, args) && answer.reference() is Some && raw
                == answer.reference()->Some_0.v,
        },
{
    law_encoding_shows_in_the_record(returned, answer, raw);
}

/// The script finds the value that it is returned to be the answer of the native function, where
/// plain values read back.
pub proof fn law_script_finds_the_answer(
    returned: Seq<Exchange>,
    answered: Seq<Exchange>,
    later: Seq<Exchange>,
    after: Seq<Exchange>,
    answer: JsValue,
    args: Seq<JsValue>,
    raw: JSValue,
    ctx: Address,
    x: JsValue,
)
    requires
        call_answered(returned, answered, answer, args, raw),
        answered.is_prefix_of(later),
        becomes(later, after, ctx, raw, x),
        plain_values_read_back(after, returned.len() as int),
    ensures
        answer is Int || answer is Bool || answer is Null || answer is UnDefined ==> x == answer,
        doubles_read_back(after, returned.len() as int) && answer is Float && x is Float ==> x
            == answer,
        answer.reference() is Some ==> answer.reference()->Some_0.v == raw,
{
    let made = after_encoding(returned, answer, raw);
    law_encoding_shows_in_the_record(returned, answer, raw);
    law_release_all_asks_once_per_reference(made, answered, args);
    if answer is Int || answer is Bool || answer is Null || answer is UnDefined {
        assert(made.is_prefix_of(later));
        lemma_made_value_read(
            after,
            returned.len() as int,
            returned,
            answer,
            raw,
            later,
            after,
            ctx,
            x,
        );
    }
    if doubles_read_back(after, returned.len() as int) && answer is Float {
        assert(made.is_prefix_of(later));
        law_double_comes_back(returned, later, after, ctx, answer->Float_0, raw, x);
    }
}

/// A context is set up in this order: a runtime, the file loader for its modules, the handlers of
/// the standard library, a context of the runtime, the number extensions, which are switched on,
/// the console, and the modules `std` and `os` under these names.
pub proof fn law_context_is_set_up(rt: Address, ctx: Address)
    ensures
        context_start(rt, ctx).take(4) == seq![
            Exchange::NewRuntime { ret: rt },
            Exchange::SetModuleLoader { rt },
            Exchange::StdInitHandlers { rt },
            Exchange::NewContext { rt, ret: ctx },
        ],
        context_start(rt, ctx).subrange(4, 8) == seq![
            Exchange::AddIntrinsicBigFloat { ctx },
            Exchange::AddIntrinsicBigDecimal { ctx },
            Exchange::AddIntrinsicOperators { ctx },
            Exchange::EnableBignumExt { ctx, enable: 1 },
        ],
        context_start(rt, ctx).skip(8) == seq![
            Exchange::StdAddConsole { ctx },
            Exchange::InitModuleStd { ctx, name: c_text("std"@) },
            Exchange::InitModuleOs { ctx, name: c_text("os"@) },
        ],
{
}

/// A context is torn down from the outside in: the handlers of its runtime, itself, the runtime.
pub proof fn law_context_is_torn_down(rt: Address, ctx: Address)
    ensures
        context_end(rt, ctx) == seq![
            Exchange::StdFreeHandlers { rt },
            Exchange::FreeContext { ctx },
            Exchange::FreeRuntime { rt },
        ],
{
}

/// The texts of arguments are theirs, one for one and in order.
pub proof fn law_texts_of_arguments(args: Seq<&str>)
    ensures
        texts_of(args).len() == args.len(),
        forall|i: int| 0 <= i < args.len() ==> #[trigger] texts_of(args)[i] == args[i]@,
{
}

/// Each argument becomes a string of its whole text, and that string the element of the array with
/// the number of the argument.
pub proof fn law_arguments_go_into_the_array(
    before: Seq<Exchange>,
    ctx: Address,
    array: JSValue,
    args: Seq<Seq<char>>,
    strings: Seq<JSValue>,
)
    requires
        strings.len() == args.len(),
    ensures
        before.is_prefix_of(after_arguments(before, ctx, array, args, strings)),
        after_arguments(before, ctx, array, args, strings).len() == before.len() + 2 * args.len(),
        forall|i: int|
            #![trigger args[i]]
            0 <= i < args.len() ==> after_arguments(before, ctx, array, args, strings)[before.len()
                + 2 * i] == (Exchange::NewStringLen {
                ctx,
                bytes: encode_utf8(args[i]),
                ret: strings[i],
            }) && after_arguments(before, ctx, array, args, strings)[before.len() + 2 * i + 1] == (
            Exchange::SetPropertyUint32 {
                ctx,
                obj: array,
                index: i as u32,
                value: strings[i],
            }),
    decreases args.len(),
{
    if args.len() > 0 {
        let rest = args.drop_last();
        let fewer = strings.drop_last();
        law_arguments_go_into_the_array(before, ctx, array, rest, fewer);
        let done = after_arguments(before, ctx, array, rest, fewer);
        let all = after_arguments(before, ctx, array, args, strings);
        assert forall|i: int|
            #![trigger args[i]]
            0 <= i < args.len() implies all[before.len() + 2 * i] == (Exchange::NewStringLen {
            ctx,
            bytes: encode_utf8(args[i]),
            ret: strings[i],
        }) && all[before.len() + 2 * i + 1] == (Exchange::SetPropertyUint32 {
            ctx,
            obj: array,
            index: i as u32,
            value: strings[i],
        }) by {
            if i < rest.len() {
                assert(rest[i] == args[i]);
                assert(all[before.len() + 2 * i] == done[before.len() + 2 * i]);
                assert(all[before.len() + 2 * i + 1] == done[before.len() + 2 * i + 1]);
            }
        }
    }
}

/// Putting arguments makes an array, fills it, asks for the global object, sets its property
/// `args` to the array, and gives the global object up.
pub proof fn law_arguments_are_put(
    before: Seq<Exchange>,
    after: Seq<Exchange>,
    ctx: Address,
    args: Seq<Seq<char>>,
)
    requires
        arguments_put(before, after, ctx, args),
    ensures
        exists|array: JSValue, strings: Seq<JSValue>, global: JSValue, set: Seq<Exchange>|
            {
                &&& strings.len() == args.len()
                &&& #[trigger] published(
                    after_arguments(
                        before.push(Exchange::NewArray { ctx, ret: array }),
                        ctx,
                        array,
                        args,
                        strings,
                    ).push(Exchange::GetGlobalObject { ctx, ret: global }),
                    set,
                    JsRef { ctx, v: global },
                    "args"@,
                    JsValue::Array(JsArray(JsRef { ctx, v: array })),
                )
                &&& released(set, after, JsRef { ctx, v: global })
            },
{
}

/// The engine is handed the whole code, as its UTF-8 bytes and a NUL, the number of these bytes,
/// and the whole file name, as a C string that decodes to it. The flags are the given ones; for a
/// module, and only then, compiling without running is asked for on top.
pub proof fn law_code_and_name_reach_the_engine(
    before: Seq<Exchange>,
    after: Seq<Exchange>,
    ctx: Address,
    code: Seq<char>,
    filename: Seq<char>,
    flags: u32,
    x: JsValue,
)
    requires
        evaluated(before, after, ctx, code, filename, flags, x),
        encode_utf8(code).len() <= usize::MAX,
    ensures
        ({
            &&& before.is_prefix_of(after)
            &&& after.len() > before.len()
            &&& after[before.len() as int] matches Exchange::Eval {
                ctx: c,
                code: bytes,
                len,
                filename: name,
                flags: told,
                ..
            }
            &&& c == ctx
            &&& bytes == encode_utf8(code).push(0u8)
            &&& len == encode_utf8(code).len()
            &&& !encode_utf8(filename).contains(0u8) ==> {
                &&& name.len() > 0
                &&& name.last() == 0u8
                &&& valid_utf8(name.drop_last())
                &&& decode_utf8(name.drop_last()) == filename
                &&& name.drop_last() == encode_utf8(filename)
            }
            &&& encode_utf8(filename).contains(0u8) ==> name == seq![0u8]
            &&& flags & 3u32 == 1u32 ==> told == (flags | 32u32) as i32
            &&& flags & 3u32 != 1u32 ==> told == flags as i32
        }),
{
    law_c_string_is_the_whole_text(filename);
    let (run, raw, answer) = choose|run: Seq<Exchange>, raw: JSValue, answer: i32|
        {
            &&& #[trigger] code_run(before, run, ctx, code, filename, flags, raw)
            &&& becomes(#[trigger] after_report(run, ctx, raw, answer), after, ctx, raw, x)
        };
    let told = after_report(run, ctx, raw, answer);
    lemma_becomes_goes_on(told, after, ctx, raw, x);
    assert(run.is_prefix_of(told));
    assert(before.is_prefix_of(run));
    assert(before.is_prefix_of(told));
    assert(before.is_prefix_of(after));
    assert(after[before.len() as int] == run[before.len() as int]) by {
        assert(told[before.len() as int] == run[before.len() as int]);
    }
}

/// What comes of evaluating is what the engine's last answer is found to be. A script is evaluated
/// by one call. A module is compiled by one call, and what came of it is run by another where the
/// engine does not call it an exception. Of the result the engine is asked whether it is an
/// exception, and told to report it where it is.
pub proof fn law_evaluation_shows_in_the_record(
    before: Seq<Exchange>,
    after: Seq<Exchange>,
    ctx: Address,
    code: Seq<char>,
    filename: Seq<char>,
    flags: u32,
    x: JsValue,
)
    requires
        evaluated(before, after, ctx, code, filename, flags, x),
    ensures
        exists|run: Seq<Exchange>, raw: JSValue, told: Seq<Exchange>|
            {
                &&& #[trigger] becomes(told, after, ctx, raw, x)
                &&& #[trigger] run.is_prefix_of(told)
                &&& before.is_prefix_of(run)
                &&& run.len() > before.len()
                &&& told.len() > run.len()
                &&& told[run.len() as int] matches Exchange::IsException { v, ret: answer }
                &&& v == raw
                &&& answer <= 0 ==> told.len() == run.len() + 1
                &&& answer > 0 ==> told.len() == run.len() + 2 && told[run.len() + 1int] == (
                Exchange::StdDumpError { ctx })
                &&& run[before.len() as int] matches Exchange::Eval { ret: first, .. }
                &&& flags & 3u32 != 1u32 ==> run.len() == before.len() + 1 && raw == first
                &&& flags & 3u32 == 1u32 ==> {
                    &&& run.len() >= before.len() + 2
                    &&& run[before.len() + 1int] matches Exchange::IsException { v: w, ret: no }
                    &&& w == first
                    &&& no > 0 ==> run.len() == before.len() + 2 && raw == first
                    &&& no <= 0 ==> run.len() == before.len() + 3 && run[before.len() + 2int] == (
                    Exchange::EvalFunction { ctx, function: first, ret: raw })
                }
            },
{
    let (run, raw, answer) = choose|run: Seq<Exchange>, raw: JSValue, answer: i32|
        {
            &&& #[trigger] code_run(before, run, ctx, code, filename, flags, raw)
            &&& becomes(#[trigger] after_report(run, ctx, raw, answer), after, ctx, raw, x)
        };
    let told = after_report(run, ctx, raw, answer);
    assert(told[run.len() as int] == exception_answer(raw, answer));
    assert(run.is_prefix_of(told));
    if flags & 3u32 == 1u32 {
        let (compiled, no) = choose|compiled: JSValue, no: i32|
            {
                let checked = before.push(
                    eval_exchange(ctx, code, filename, flags | 32u32, compiled),
                ).push(#[trigger] exception_answer(compiled, no));
                if no <= 0 {
                    run == checked.push(
                        Exchange::EvalFunction { ctx, function: compiled, ret: raw },
                    )
                } else {
                    run == checked && raw == compiled
                }
            };
        assert(run[before.len() + 1int] == exception_answer(compiled, no));
        assert(run[before.len() as int] == eval_exchange(
            ctx,
            code,
            filename,
            flags | 32u32,
            compiled,
        ));
    } else {
        assert(run[before.len() as int] == eval_exchange(ctx, code, filename, flags, raw));
    }
}

/// Running a module evaluates it as one, gives the result up, and runs the pending jobs.
pub proof fn law_module_is_run(
    before: Seq<Exchange>,
    after: Seq<Exchange>,
    ctx: Address,
    code: Seq<char>,
    filename: Seq<char>,
)
    requires
        module_run(before, after, ctx, code, filename),
    ensures
        exists|x: JsValue, run: Seq<Exchange>, freed: Seq<Exchange>|
            {
                &&& #[trigger] evaluated(before, run, ctx, code, filename, 1u32, x)
                &&& #[trigger] dropped(run, freed, x)
                &&& after == freed.push(Exchange::StdLoop { ctx })
            },
{
}

/// An error is made of a string of the whole message and an empty error. The message is set on it
/// where it is a plain object, and given up where it is anything else.
pub proof fn law_error_is_made(
    before: Seq<Exchange>,
    after: Seq<Exchange>,
    ctx: Address,
    msg: Seq<char>,
    x: JsValue,
)
    requires
        error_made(before, after, ctx, msg, x),
    ensures
        exists|text: JSValue, error: JSValue, made: Seq<Exchange>|
            {
                &&& #[trigger] becomes(
                    before.push(
                        Exchange::NewStringLen { ctx, bytes: encode_utf8(msg), ret: text },
                    ).push(Exchange::NewError { ctx, ret: error }),
                    made,
                    ctx,
                    error,
                    x,
                )
                &&& x matches JsValue::Object(o) ==> published(
                    made,
                    after,
                    o.0,
                    "message"@,
                    JsValue::String(JsString(JsRef { ctx, v: text })),
                )
                &&& x !is Object ==> released(made, after, JsRef { ctx, v: text })
            },
{
    let (text, error, made) = choose|text: JSValue, error: JSValue, made: Seq<Exchange>|
        {
            let message = JsValue::String(JsString(JsRef { ctx, v: text }));
            &&& #[trigger] becomes(
                before.push(
                    Exchange::NewStringLen { ctx, bytes: encode_utf8(msg), ret: text },
                ).push(Exchange::NewError { ctx, ret: error }),
                made,
                ctx,
                error,
                x,
            )
            &&& match x {
                JsValue::Object(o) => published(made, after, o.0, "message"@, message),
                _ => dropped(made, after, message),
            }
        };
    if x !is Object {
        law_giving_up_a_value(made, after, JsValue::String(JsString(JsRef { ctx, v: text })));
    }
}

/// A promise comes with its two functions, the one that resolves it before the one that rejects
/// it, and all three are what the engine's answers are found to be.
pub proof fn law_promise_is_made(
    before: Seq<Exchange>,
    after: Seq<Exchange>,
    ctx: Address,
    p: JsValue,
    f: JsValue,
    g: JsValue,
)
    requires
        promise_made(before, after, ctx, p, f, g),
    ensures
        exists|
            promise: JSValue,
            resolve: JSValue,
            reject: JSValue,
            first: Seq<Exchange>,
            second: Seq<Exchange>,
        |
            {
                &&& #[trigger] becomes(
                    before.push(
                        Exchange::NewPromiseCapability { ctx, ret: (promise, resolve, reject) },
                    ),
                    first,
                    ctx,
                    promise,
                    p,
                )
                &&& #[trigger] becomes(first, second, ctx, resolve, f)
                &&& #[trigger] becomes(second, after, ctx, reject, g)
            },
{
    let (promise, resolve, reject, first, second) = choose|
        promise: JSValue,
        resolve: JSValue,
        reject: JSValue,
        first: Seq<Exchange>,
        second: Seq<Exchange>,
    |
        {
            &&& #[trigger] becomes(
                before.push(promise_answer(ctx, promise, resolve, reject)),
                first,
                ctx,
                promise,
                p,
            )
            &&& #[trigger] becomes(first, second, ctx, resolve, f)
            &&& #[trigger] becomes(second, after, ctx, reject, g)
        };
    assert(becomes(
        before.push(Exchange::NewPromiseCapability { ctx, ret: (promise, resolve, reject) }),
        first,
        ctx,
        promise,
        p,
    ));
}

/// The file of running code is what the engine's name for it is found to be, and `null` where the
/// engine has no name for it.
pub proof fn law_file_is_named(
    before: Seq<Exchange>,
    after: Seq<Exchange>,
    ctx: Address,
    level: i32,
    x: JsValue,
)
    requires
        file_named(before, after, ctx, level, x),
    ensures
        ({
            &&& before.is_prefix_of(after)
            &&& after.len() > before.len()
            &&& after[before.len() as int] matches Exchange::GetScriptOrModuleName {
                ctx: c,
                level: l,
                ret: atom,
            }
            &&& c == ctx && l == level
            &&& atom == 0 ==> x == JsValue::Null && after.len() == before.len() + 1
            &&& atom != 0 ==> {
                &&& after.len() > before.len() + 1
                &&& after[before.len() + 1int] matches Exchange::AtomToValue {
                    ctx: d,
                    atom: b,
                    ret: raw,
                }
                &&& d == ctx && b == atom
                &&& becomes(
                    before.push(after[before.len() as int]).push(after[before.len() + 1int]),
                    after,
                    ctx,
                    raw,
                    x,
                )
            }
        }),
{
    let atom = choose|atom: JSAtom|
        {
            let asked = before.push(#[trigger] file_answer(ctx, level, atom));
            if atom == 0 {
                after == asked && x == JsValue::Null
            } else {
                atom_typed(asked, after, ctx, atom, x)
            }
        };
    let asked = before.push(file_answer(ctx, level, atom));
    if atom != 0 {
        let raw = choose|raw: JSValue| #[trigger]
            becomes(
                asked.push(Exchange::AtomToValue { ctx, atom, ret: raw }),
                after,
                ctx,
                raw,
                x,
            );
        let told = asked.push(Exchange::AtomToValue { ctx, atom, ret: raw });
        lemma_becomes_goes_on(told, after, ctx, raw, x);
        assert(after[before.len() as int] == told[before.len() as int]);
        assert(after[before.len() + 1int] == told[before.len() + 1int]);
    } else {
        assert(after[before.len() as int] == asked[before.len() as int]);
    }
}

/// A module name is resolved only where it starts with a dot and the calling code has a file with
/// a text for its name: then it is taken from beside that file, in the file's directory, or beside
/// the name itself where that has no directory. Any other name stays as it is.
pub proof fn law_module_name_is_resolved(
    before: Seq<Exchange>,
    after: Seq<Exchange>,
    ctx: Address,
    specifier: Seq<char>,
    name: Seq<char>,
)
    requires
        specifier_resolved(before, after, ctx, specifier, name),
    ensures
        specifier.len() == 0 || specifier[0] != '.' ==> after == before && name == specifier,
        specifier.len() > 0 && specifier[0] == '.' ==> exists|file: JsValue, asked: Seq<Exchange>|
            {
                &&& #[trigger] file_named(before, asked, ctx, 1, file)
                &&& file !is String ==> name == specifier && dropped(asked, after, file)
                &&& file matches JsValue::String(f) ==> exists|text: Seq<char>, read: Seq<Exchange>|
                    {
                        &&& #[trigger] text_read(asked, read, f.0, text)
                        &&& released(read, after, f.0)
                        &&& parent(text) matches Some(dir) ==> name == joined(dir, specifier)
                        &&& parent(text) is None ==> name == joined(text, specifier)
                    }
            },
{
    if specifier.len() > 0 && specifier[0] == '.' {
        let (file, asked) = choose|file: JsValue, asked: Seq<Exchange>|
            {
                &&& #[trigger] file_named(before, asked, ctx, 1, file)
                &&& match file {
                    JsValue::String(f) => exists|text: Seq<char>| #[trigger]
                        file_text(asked, after, f.0, text) && name == beside(text, specifier),
                    _ => name == specifier && dropped(asked, after, file),
                }
            };
        if file is String {
            let f = file->String_0;
            let text = choose|text: Seq<char>| #[trigger]
                file_text(asked, after, f.0, text) && name == beside(text, specifier);
            let read = choose|read: Seq<Exchange>| #[trigger]
                text_read(asked, read, f.0, text) && released(read, after, f.0);
            assert(text_read(asked, read, f.0, text));
        }
        assert(file_named(before, asked, ctx, 1, file));
    }
}

/// A module is loaded by its whole name, as a string that is given up again, and what the engine
/// answers is what loading it gives.
pub proof fn law_module_is_loaded(
    before: Seq<Exchange>,
    after: Seq<Exchange>,
    ctx: Address,
    name: Seq<char>,
    m: JsValue,
)
    requires
        module_loaded(before, after, ctx, name, m),
    ensures
        exists|text: JSValue, raw: JSValue, loaded: Seq<Exchange>|
            {
                &&& #[trigger] becomes(
                    before.push(
                        Exchange::NewStringLen { ctx, bytes: encode_utf8(name), ret: text },
                    ).push(Exchange::Require { ctx, specifier: text, ret: raw }),
                    loaded,
                    ctx,
                    raw,
                    m,
                )
                &&& released(loaded, after, JsRef { ctx, v: text })
            },
{
}

/// The answer of `require` is what the module left as `exports` in the global object `module`,
/// whatever kind of value that is, and `exports` is then deleted there. Only where it left `null`,
/// `undefined` or no object `module` at all is the answer what loading the module gave. What is
/// not the answer is given up.
pub proof fn law_exports_are_the_answer(
    before: Seq<Exchange>,
    after: Seq<Exchange>,
    ctx: Address,
    m: JsValue,
    x: JsValue,
)
    requires
        exports_taken(before, after, ctx, m, x),
    ensures
        exists|global: JSValue, found: JsValue, got: Seq<Exchange>|
            {
                &&& #[trigger] property_got(
                    before.push(Exchange::GetGlobalObject { ctx, ret: global }),
                    got,
                    JsRef { ctx, v: global },
                    "module"@,
                    found,
                )
                &&& found !is Object ==> x == m && exists|mid: Seq<Exchange>| #[trigger]
                    released(got, mid, JsRef { ctx, v: global }) && dropped(mid, after, found)
                &&& found matches JsValue::Object(module) ==> exists|
                    exports: JsValue,
                    told: Seq<Exchange>,
                |
                    {
                        &&& #[trigger] property_got(got, told, module.0, "exports"@, exports)
                        &&& exports is Null || exports is UnDefined ==> x == m && exists|
                            mid: Seq<Exchange>,
                        | #[trigger]
                            released(told, mid, module.0) && released(
                                mid,
                                after,
                                JsRef { ctx, v: global },
                            )
                        &&& !(exports is Null || exports is UnDefined) ==> x == exports && exists|
                            gone: Seq<Exchange>,
                            freed: Seq<Exchange>,
                            left: Seq<Exchange>,
                        |
                            {
                                &&& #[trigger] property_deleted(told, gone, module.0, "exports"@)
                                &&& #[trigger] released(gone, freed, module.0)
                                &&& #[trigger] released(freed, left, JsRef { ctx, v: global })
                                &&& dropped(left, after, m)
                            }
                    }
            },
{
    let (global, found, got) = choose|global: JSValue, found: JsValue, got: Seq<Exchange>|
        {
            let o = JsObject(JsRef { ctx, v: global });
            &&& #[trigger] property_got(
                before.push(global_answer(ctx, global)),
                got,
                JsRef { ctx, v: global },
                "module"@,
                found,
            )
            &&& match found {
                JsValue::Object(module) => exports_of_module(got, after, o, module, m, x),
                _ => x == m && all_dropped(got, after, seq![JsValue::Object(o), found]),
            }
        };
    let o = JsObject(JsRef { ctx, v: global });
    assert(property_got(
        before.push(Exchange::GetGlobalObject { ctx, ret: global }),
        got,
        JsRef { ctx, v: global },
        "module"@,
        found,
    ));
    if found is Object {
        let module = found->Object_0;
        let (exports, told) = choose|exports: JsValue, told: Seq<Exchange>|
            {
                &&& #[trigger] property_got(got, told, module.0, "exports"@, exports)
                &&& if exports == JsValue::Null || exports == JsValue::UnDefined {
                    &&& x == m
                    &&& all_dropped(
                        told,
                        after,
                        seq![JsValue::Object(module), JsValue::Object(o)],
                    )
                } else {
                    &&& x == exports
                    &&& exports_cleared(told, after, o, module, m)
                }
            };
        assert(property_got(got, told, module.0, "exports"@, exports));
        if exports is Null || exports is UnDefined {
            lemma_two_dropped(told, after, JsValue::Object(module), JsValue::Object(o));
            let mid = choose|mid: Seq<Exchange>| #[trigger]
                dropped(told, mid, JsValue::Object(module)) && dropped(
                    mid,
                    after,
                    JsValue::Object(o),
                );
            assert(released(told, mid, module.0));
        } else {
            let gone = choose|gone: Seq<Exchange>|
                {
                    &&& #[trigger] property_deleted(told, gone, module.0, "exports"@)
                    &&& all_dropped(
                        gone,
                        after,
                        seq![JsValue::Object(module), JsValue::Object(o), m],
                    )
                };
            let rest = seq![JsValue::Object(o), m];
            assert(seq![JsValue::Object(module), JsValue::Object(o), m] =~= seq![
                JsValue::Object(module),
            ] + rest);
            law_giving_up_the_first_value(gone, after, JsValue::Object(module), rest);
            let freed = choose|freed: Seq<Exchange>| #[trigger]
                dropped(gone, freed, JsValue::Object(module)) && all_dropped(freed, after, rest);
            lemma_two_dropped(freed, after, JsValue::Object(o), m);
            let left = choose|left: Seq<Exchange>| #[trigger]
                dropped(freed, left, JsValue::Object(o)) && dropped(left, after, m);
            assert(property_deleted(told, gone, module.0, "exports"@) && released(
                gone,
                freed,
                module.0,
            ) && released(freed, left, JsRef { ctx, v: global }));
        }
    } else {
        lemma_two_dropped(got, after, JsValue::Object(o), found);
        let mid = choose|mid: Seq<Exchange>| #[trigger]
            dropped(got, mid, JsValue::Object(o)) && dropped(mid, after, found);
        assert(released(got, mid, JsRef { ctx, v: global }));
    }
}

/// Where the exports of a module are the answer of `require`, the global object `module` holds no
/// `exports` any more.
pub proof fn law_exports_are_taken_once(
    before: Seq<Exchange>,
    after: Seq<Exchange>,
    ctx: Address,
    m: JsValue,
    x: JsValue,
)
    requires
        exports_taken(before, after, ctx, m, x),
    ensures
        exists|global: JSValue, found: JsValue, got: Seq<Exchange>|
            {
                &&& #[trigger] property_got(
                    before.push(Exchange::GetGlobalObject { ctx, ret: global }),
                    got,
                    JsRef { ctx, v: global },
                    "module"@,
                    found,
                )
                &&& found matches JsValue::Object(module) ==> exists|
                    exports: JsValue,
                    told: Seq<Exchange>,
                |
                    {
                        &&& #[trigger] property_got(got, told, module.0, "exports"@, exports)
                        &&& exports !is Null && exports !is UnDefined ==> x == exports
                            && property_held(after, module.0.v, c_text("exports"@)) is Nothing
                    }
            },
{
    law_exports_are_the_answer(before, after, ctx, m, x);
    let (global, found, got) = choose|global: JSValue, found: JsValue, got: Seq<Exchange>|
        {
            &&& #[trigger] property_got(
                before.push(Exchange::GetGlobalObject { ctx, ret: global }),
                got,
                JsRef { ctx, v: global },
                "module"@,
                found,
            )
            &&& found matches JsValue::Object(module) ==> exists|
                exports: JsValue,
                told: Seq<Exchange>,
            |
                {
                    &&& #[trigger] property_got(got, told, module.0, "exports"@, exports)
                    &&& !(exports is Null || exports is UnDefined) ==> x == exports && exists|
                        gone: Seq<Exchange>,
                        freed: Seq<Exchange>,
                        left: Seq<Exchange>,
                    |
                        {
                            &&& #[trigger] property_deleted(told, gone, module.0, "exports"@)
                            &&& #[trigger] released(gone, freed, module.0)
                            &&& #[trigger] released(freed, left, JsRef { ctx, v: global })
                            &&& dropped(left, after, m)
                        }
                }
        };
    if found is Object {
        let module = found->Object_0;
        let (exports, told) = choose|exports: JsValue, told: Seq<Exchange>|
            {
                &&& #[trigger] property_got(got, told, module.0, "exports"@, exports)
                &&& !(exports is Null || exports is UnDefined) ==> x == exports && exists|
                    gone: Seq<Exchange>,
                    freed: Seq<Exchange>,
                    left: Seq<Exchange>,
                |
                    {
                        &&& #[trigger] property_deleted(told, gone, module.0, "exports"@)
                        &&& #[trigger] released(gone, freed, module.0)
                        &&& #[trigger] released(freed, left, JsRef { ctx, v: global })
                        &&& dropped(left, after, m)
                    }
            };
        if exports !is Null && exports !is UnDefined {
            let (gone, freed, left) = choose|
                gone: Seq<Exchange>,
                freed: Seq<Exchange>,
                left: Seq<Exchange>,
            |
                {
                    &&& #[trigger] property_deleted(told, gone, module.0, "exports"@)
                    &&& #[trigger] released(gone, freed, module.0)
                    &&& #[trigger] released(freed, left, JsRef { ctx, v: global })
                    &&& dropped(left, after, m)
                };
            lemma_delete_shows(told, gone, module.0, "exports"@);
            lemma_dropped_shows(gone, freed, JsValue::Other(module.0));
            lemma_dropped_shows(freed, left, JsValue::Other(JsRef { ctx, v: global }));
            lemma_dropped_shows(left, after, m);
        }
        assert(property_got(got, told, module.0, "exports"@, exports));
    }
}

/// `require` answers a call whose first argument is a string: it reads the text, resolves it as a
/// module name, loads the module of that name, and answers with its exports. Any other call is
/// answered with `undefined`. The receiver is given up last, and the arguments are left alone.
pub proof fn law_require_answers(
    context: Context,
    before: Seq<Exchange>,
    after: Seq<Exchange>,
    this_val: JsValue,
    argv: Seq<JsValue>,
    answer: JsValue,
)
    requires
        JsRequire::answers(context, before, after, this_val, argv, answer),
    ensures
        argv.len() == 0 || argv[0] !is String ==> answer == JsValue::UnDefined && dropped(
            before,
            after,
            this_val,
        ),
        argv.len() > 0 && argv[0] is String ==> exists|
            specifier: Seq<char>,
            read: Seq<Exchange>,
            name: Seq<char>,
            resolved: Seq<Exchange>,
            m: JsValue,
            loaded: Seq<Exchange>,
            taken: Seq<Exchange>,
        |
            {
                &&& #[trigger] text_read(before, read, argv[0]->String_0.0, specifier)
                &&& #[trigger] specifier_resolved(read, resolved, context.ctx, specifier, name)
                &&& #[trigger] module_loaded(resolved, loaded, context.ctx, name, m)
                &&& #[trigger] exports_taken(loaded, taken, context.ctx, m, answer)
                &&& dropped(taken, after, this_val)
            },
{
    if argv.len() > 0 && argv[0] is String {
        let taken = choose|taken: Seq<Exchange>| #[trigger]
            module_required(before, taken, context.ctx, argv[0]->String_0.0, answer) && dropped(
                taken,
                after,
                this_val,
            );
        let (specifier, read, name, resolved, m, loaded) = choose|
            specifier: Seq<char>,
            read: Seq<Exchange>,
            name: Seq<char>,
            resolved: Seq<Exchange>,
            m: JsValue,
            loaded: Seq<Exchange>,
        |
            {
                &&& #[trigger] text_read(before, read, argv[0]->String_0.0, specifier)
                &&& #[trigger] specifier_resolved(read, resolved, context.ctx, specifier, name)
                &&& #[trigger] module_loaded(resolved, loaded, context.ctx, name, m)
                &&& exports_taken(loaded, taken, context.ctx, m, answer)
            };
        assert(text_read(before, read, argv[0]->String_0.0, specifier) && specifier_resolved(
            read,
            resolved,
            context.ctx,
            specifier,
            name,
        ) && module_loaded(resolved, loaded, context.ctx, name, m) && exports_taken(
            loaded,
            taken,
            context.ctx,
            m,
            answer,
        ));
    }
}

/// The getter of `__dirname` asks for the file of its caller. A file with a text for its name that
/// has a parent is answered with a string of the whole parent, anything else with `null`. The
/// file's name is given up, and the receiver last.
pub proof fn law_dirname_answers(
    context: Context,
    before: Seq<Exchange>,
    after: Seq<Exchange>,
    this_val: JsValue,
    argv: Seq<JsValue>,
    answer: JsValue,
)
    requires
        JsDirName::answers(context, before, after, this_val, argv, answer),
    ensures
        exists|file: JsValue, asked: Seq<Exchange>, told: Seq<Exchange>|
            {
                &&& #[trigger] file_named(before, asked, context.ctx, 1, file)
                &&& #[trigger] dropped(told, after, this_val)
                &&& file !is String ==> answer == JsValue::Null && dropped(asked, told, file)
                &&& file matches JsValue::String(f) ==> exists|text: Seq<char>, read: Seq<Exchange>|
                    {
                        &&& #[trigger] text_read(asked, read, f.0, text)
                        &&& parent(text) is None ==> answer == JsValue::Null && released(
                            read,
                            told,
                            f.0,
                        )
                        &&& parent(text) matches Some(dir) ==> {
                            &&& answer matches JsValue::String(s)
                            &&& s.0.ctx == context.ctx
                            &&& released(
                                read.push(
                                    Exchange::NewStringLen {
                                        ctx: context.ctx,
                                        bytes: encode_utf8(dir),
                                        ret: s.0.v,
                                    },
                                ),
                                told,
                                f.0,
                            )
                        }
                    }
            },
{
    let ctx = context.ctx;
    let told = choose|told: Seq<Exchange>| #[trigger]
        dirname_told(before, told, ctx, answer) && dropped(told, after, this_val);
    let (file, asked) = choose|file: JsValue, asked: Seq<Exchange>|
        {
            &&& #[trigger] file_named(before, asked, ctx, 1, file)
            &&& match file {
                JsValue::String(f) => dirname_of(asked, told, f.0, ctx, answer),
                _ => answer == JsValue::Null && dropped(asked, told, file),
            }
        };
    assert(file_named(before, asked, ctx, 1, file) && dropped(told, after, this_val));
    if file is String {
        let f = file->String_0;
        let (text, read) = choose|text: Seq<char>, read: Seq<Exchange>|
            {
                &&& #[trigger] text_read(asked, read, f.0, text)
                &&& match parent(text) {
                    Some(dir) => {
                        &&& answer matches JsValue::String(s)
                        &&& s.0.ctx == ctx
                        &&& released(
                            read.push(
                                Exchange::NewStringLen {
                                    ctx,
                                    bytes: encode_utf8(dir),
                                    ret: s.0.v,
                                },
                            ),
                            told,
                            f.0,
                        )
                    },
                    None => answer == JsValue::Null && released(read, told, f.0),
                }
            };
        assert(text_read(asked, read, f.0, text));
    }
}

/// For CommonJS modules the global object gets an empty object as `module`, the native function at
/// `callbacks.require` as `require`, and as `__dirname` an enumerable, configurable getter, the
/// native function at `callbacks.get_dirname`, without value and setter. The getter and the global
/// object are then given up.
pub proof fn law_cjs_shows_in_the_record(
    before: Seq<Exchange>,
    after: Seq<Exchange>,
    ctx: Address,
    callbacks: CjsCallbacks,
)
    requires
        cjs_set_up(before, after, ctx, callbacks),
    ensures
        exists|
            global: JSValue,
            module: JSValue,
            with_module: Seq<Exchange>,
            require: JSValue,
            with_require: Seq<Exchange>,
            getter: JSValue,
            with_dirname: Seq<Exchange>,
            mid: Seq<Exchange>,
        |
            {
                &&& #[trigger] published(
                    before.push(Exchange::GetGlobalObject { ctx, ret: global }).push(
                        Exchange::NewObject { ctx, ret: module },
                    ),
                    with_module,
                    JsRef { ctx, v: global },
                    "module"@,
                    JsValue::Object(JsObject(JsRef { ctx, v: module })),
                )
                &&& #[trigger] published(
                    with_module.push(
                        Exchange::NewCFunction {
                            ctx,
                            callback: callbacks.require,
                            name: c_text("require"@),
                            length: 1,
                            ret: require,
                        },
                    ),
                    with_require,
                    JsRef { ctx, v: global },
                    "require"@,
                    JsValue::Function(JsFunction(JsRef { ctx, v: require })),
                )
                &&& with_require.is_prefix_of(with_dirname)
                &&& with_dirname.len() == with_require.len() + 5
                &&& with_dirname[with_require.len() as int] == (Exchange::NewCFunction {
                    ctx,
                    callback: callbacks.get_dirname,
                    name: c_text("get_dirname"@),
                    length: 1,
                    ret: getter,
                })
                &&& with_dirname[with_require.len() + 1int] matches Exchange::NewAtom {
                    ctx: c,
                    name,
                    ret: atom,
                }
                &&& c == ctx && name == c_text("__dirname"@)
                &&& with_dirname[with_require.len() + 2int] matches Exchange::Undefined { ret: none }
                &&& with_dirname[with_require.len() + 3int] matches Exchange::Null { ret: null }
                &&& with_dirname[with_require.len() + 4int] == (Exchange::DefineProperty {
                    ctx,
                    obj: global,
                    prop: atom,
                    value: none,
                    getter,
                    setter: null,
                    flags: 19717,
                })
                &&& #[trigger] released(with_dirname, mid, JsRef { ctx, v: getter })
                &&& #[trigger] released(mid, after, JsRef { ctx, v: global })
            },
{
    assert(16384u32 | 1024u32 | 4u32 | 256u32 | 1u32 | 2048u32 == 19717u32) by (bit_vector);
    let (global, module, with_module, require, with_require, getter, with_dirname) = choose|
        global: JSValue,
        module: JSValue,
        with_module: Seq<Exchange>,
        require: JSValue,
        with_require: Seq<Exchange>,
        getter: JSValue,
        with_dirname: Seq<Exchange>,
    |
        {
            &&& #[trigger] published(
                before.push(global_answer(ctx, global)).push(
                    Exchange::NewObject { ctx, ret: module },
                ),
                with_module,
                JsRef { ctx, v: global },
                "module"@,
                JsValue::Object(JsObject(JsRef { ctx, v: module })),
            )
            &&& #[trigger] published(
                with_module.push(function_made(ctx, callbacks.require, "require"@, require)),
                with_require,
                JsRef { ctx, v: global },
                "require"@,
                JsValue::Function(JsFunction(JsRef { ctx, v: require })),
            )
            &&& #[trigger] accessor_defined(
                with_require.push(
                    function_made(ctx, callbacks.get_dirname, "get_dirname"@, getter),
                ),
                with_dirname,
                JsRef { ctx, v: global },
                getter,
            )
            &&& all_dropped(
                with_dirname,
                after,
                seq![
                    JsValue::Function(JsFunction(JsRef { ctx, v: getter })),
                    JsValue::Object(JsObject(JsRef { ctx, v: global })),
                ],
            )
        };
    let f = JsValue::Function(JsFunction(JsRef { ctx, v: getter }));
    let o = JsValue::Object(JsObject(JsRef { ctx, v: global }));
    lemma_two_dropped(with_dirname, after, f, o);
    let mid = choose|mid: Seq<Exchange>| #[trigger]
        dropped(with_dirname, mid, f) && dropped(mid, after, o);
    let made = with_require.push(
        function_made(ctx, callbacks.get_dirname, "get_dirname"@, getter),
    );
    let (atom, none, null) = choose|atom: JSAtom, none: JSValue, null: JSValue|
        with_dirname == #[trigger] after_accessor(
            made,
            JsRef { ctx, v: global },
            getter,
            atom,
            none,
            null,
        );
    assert(with_dirname[with_require.len() as int] == made[with_require.len() as int]);
    assert(published(
        before.push(Exchange::GetGlobalObject { ctx, ret: global }).push(
            Exchange::NewObject { ctx, ret: module },
        ),
        with_module,
        JsRef { ctx, v: global },
        "module"@,
        JsValue::Object(JsObject(JsRef { ctx, v: module })),
    ) && published(
        with_module.push(
            Exchange::NewCFunction {
                ctx,
                callback: callbacks.require,
                name: c_text("require"@),
                length: 1,
                ret: require,
            },
        ),
        with_require,
        JsRef { ctx, v: global },
        "require"@,
        JsValue::Function(JsFunction(JsRef { ctx, v: require })),
    ) && released(with_dirname, mid, JsRef { ctx, v: getter }) && released(
        mid,
        after,
        JsRef { ctx, v: global },
    ));
}

/// A name is joined to a directory by one slash, unless it starts with one itself, or the
/// directory has no name or ends with one.
pub proof fn law_join(base: Seq<char>, path: Seq<char>)
    ensures
        path.len() > 0 && path[0] == '/' ==> joined(base, path) == path,
        (path.len() == 0 || path[0] != '/') && (base.len() == 0 || base.last() == '/') ==> joined(
            base,
            path,
        ) == base + path,
        (path.len() == 0 || path[0] != '/') && base.len() > 0 && base.last() != '/' ==> joined(
            base,
            path,
        ) == base + seq!['/'] + path,
{
    if base.len() > 0 && base.last() != '/' {
        assert(base.push('/') + path =~= base + seq!['/'] + path);
    }
}

/// A module named from beside a file is named from the file's directory, where it has one.
pub proof fn law_beside(file: Seq<char>, specifier: Seq<char>)
    ensures
        parent(file) matches Some(dir) ==> beside(file, specifier) == joined(dir, specifier),
        parent(file) is None ==> beside(file, specifier) == joined(file, specifier),
        is_relative(specifier) <==> specifier.len() > 0 && specifier[0] == '.',
{
}

proof fn lemma_without_last_cuts(dir: Seq<char>, name: Seq<char>)
    requires
        forall|i: int| 0 <= i < name.len() ==> name[i] != '/',
    ensures
        without_last(dir.push('/') + name) == dir.push('/'),
    decreases name.len(),
{
    let path = dir.push('/') + name;
    if name.len() > 0 {
        assert(path.last() == name.last());
        lemma_without_last_cuts(dir, name.drop_last());
        assert(path.drop_last() =~= dir.push('/') + name.drop_last());
    } else {
        assert(path =~= dir.push('/'));
    }
}

/// The parent of a name in a directory is the directory: `dir` of `dir/name`, and the root of
/// `/name`. The name has no slash and is not a lone dot, and the directory does not itself end in
/// a slash or a lone dot.
pub proof fn law_parent_is_the_directory(dir: Seq<char>, name: Seq<char>)
    requires
        name.len() > 0,
        forall|i: int| 0 <= i < name.len() ==> name[i] != '/',
        name != seq!['.'],
        dir.len() > 0 ==> dir.last() != '/',
        dir.len() > 1 ==> !(dir.last() == '.' && dir[dir.len() - 2] == '/'),
    ensures
        dir.len() > 0 ==> parent(dir + seq!['/'] + name) == Some(dir),
        dir.len() == 0 ==> parent(seq!['/'] + name) == Some(seq!['/']),
{
    let path = dir.push('/') + name;
    assert(path =~= dir + seq!['/'] + name);
    if dir.len() == 0 {
        assert(path =~= seq!['/'] + name);
    }
    assert(path.last() == name.last());
    if name.len() > 1 {
        assert(path[path.len() - 2] == name[name.len() - 2]);
    } else {
        assert(name =~= seq![name[0]]);
    }
    assert(trimmed(path) == path);
    assert(path != seq!['/']) by {
        assert(path.len() > 1);
    }
    lemma_without_last_cuts(dir, name);
    let up = dir.push('/');
    assert(without_last(path) == up);
    if dir.len() > 0 {
        assert(up.drop_last() =~= dir);
        assert(trimmed(up) == trimmed(dir));
        assert(trimmed(dir) == dir);
    } else {
        assert(up =~= seq!['/']);
        assert(trimmed(up) == up);
    }
}

/// A slash, or a slash and a dot, at the end of a name makes no difference to its parent.
pub proof fn law_end_of_a_name_makes_no_difference(path: Seq<char>)
    requires
        path.len() > 0,
    ensures
        parent(path + seq!['/']) == parent(path),
        parent(path + seq!['/', '.']) == parent(path),
{
    let a = path + seq!['/'];
    let b = path + seq!['/', '.'];
    assert(a.drop_last() =~= path);
    assert(b.drop_last() =~= a);
    assert(trimmed(a) == trimmed(path));
    assert(trimmed(b) == trimmed(a));
}

/// More slashes, or a dot between slashes, before the last part of a name make no difference to
/// its parent.
pub proof fn law_doubled_slash_makes_no_difference(dir: Seq<char>, name: Seq<char>)
    requires
        name.len() > 0,
        forall|i: int| 0 <= i < name.len() ==> name[i] != '/',
        name != seq!['.'],
    ensures
        parent(dir + seq!['/', '/'] + name) == parent(dir + seq!['/'] + name),
        parent(dir + seq!['/', '.', '/'] + name) == parent(dir + seq!['/'] + name),
{
    let one = dir.push('/');
    let two = one.push('/');
    let dot = one.push('.');
    let three = dot.push('/');
    assert(dir + seq!['/'] + name =~= one + name);
    assert(dir + seq!['/', '/'] + name =~= two + name);
    assert(dir + seq!['/', '.', '/'] + name =~= three + name);
    lemma_parent_by_last_slash(dir, name);
    lemma_parent_by_last_slash(one, name);
    lemma_parent_by_last_slash(dot, name);
    assert(two.drop_last() =~= one);
    assert(three.drop_last() =~= dot);
    assert(dot.drop_last() =~= one);
    assert(trimmed(two) == trimmed(one));
    assert(trimmed(dot) == trimmed(one));
    assert(trimmed(three) == trimmed(dot));
}

proof fn lemma_parent_by_last_slash(dir: Seq<char>, name: Seq<char>)
    requires
        name.len() > 0,
        forall|i: int| 0 <= i < name.len() ==> name[i] != '/',
        name != seq!['.'],
    ensures
        parent(dir.push('/') + name) == Some(trimmed(dir.push('/'))),
{
    let path = dir.push('/') + name;
    assert(path.last() == name.last());
    if name.len() > 1 {
        assert(path[path.len() - 2] == name[name.len() - 2]);
    } else {
        assert(name =~= seq![name[0]]);
    }
    assert(trimmed(path) == path);
    assert(path != seq!['/']) by {
        assert(path.len() > 1);
    }
    lemma_without_last_cuts(dir, name);
}

} // verus!
