//! CommonJS modules: the globals `module`, `require` and `__dirname`.
use crate::constants::{
    JS_ATOM_NULL, JS_PROP_CONFIGURABLE, JS_PROP_ENUMERABLE, JS_PROP_HAS_CONFIGURABLE,
    JS_PROP_HAS_ENUMERABLE, JS_PROP_HAS_GET, JS_PROP_THROW,
};
use crate::context::Context;
use crate::engine::{Address, Engine, Exchange, JSAtom, JSValue, Session};
use crate::function::JsFn;
use crate::object::{property_deleted, property_got, publish, published};
use crate::path::{join, joined, parent, parent_of};
use crate::text::{c_text, make_c_string, nul_free};
use crate::value::{
    all_dropped, becomes, dropped, read_text, release_all, released, text_read, JsFunction,
    JsObject, JsRef, JsString, JsValue,
};
use vstd::prelude::*;
use vstd::string::StrSliceExecFns;
use vstd::utf8::encode_utf8;

verus! {

/// Where the native functions behind `require` and `__dirname` are.
#[derive(Debug, Clone, Copy, PartialEq, Eq, Structural)]
pub struct CjsCallbacks {
    pub require: Address,
    pub get_dirname: Address,
}

/// The asking for the file of a frame.
pub open spec fn file_answer(ctx: Address, level: i32, atom: JSAtom) -> Exchange {
    Exchange::GetScriptOrModuleName { ctx, level, ret: atom }
}

/// Between the two records the file of the frame `level` was asked for and found to be `x`:
/// `null` where there is none.
pub open spec fn file_named(
    before: Seq<Exchange>,
    after: Seq<Exchange>,
    ctx: Address,
    level: i32,
    x: JsValue,
) -> bool {
    exists|atom: JSAtom|
        {
            let asked = before.push(#[trigger] file_answer(ctx, level, atom));
            if atom == JS_ATOM_NULL {
                after == asked && x == JsValue::Null
            } else {
                atom_typed(asked, after, ctx, atom, x)
            }
        }
}

/// Between the two records the atom `atom` was turned into the value `x`.
pub open spec fn atom_typed(
    before: Seq<Exchange>,
    after: Seq<Exchange>,
    ctx: Address,
    atom: JSAtom,
    x: JsValue,
) -> bool {
    exists|raw: JSValue| #[trigger]
        becomes(before.push(Exchange::AtomToValue { ctx, atom, ret: raw }), after, ctx, raw, x)
}

/// The file of the frame `n_stack_levels` of the running code, `null` where there is none.
pub fn get_file_name<E: Engine>(
    ctx: &mut Context,
    js: &mut Session<E>,
    n_stack_levels: usize,
) -> (x: JsValue)
    ensures
        *final(ctx) == *old(ctx),
        file_named(old(js).log(), final(js).log(), old(ctx).ctx, n_stack_levels as i32, x),
{
    let ghost before = js.log();
    let basename: JSAtom = js.get_script_or_module_name(ctx.ctx, n_stack_levels as i32);
    assert(js.log() == before.push(file_answer(ctx.ctx, n_stack_levels as i32, basename)));
    if basename == JS_ATOM_NULL {
        JsValue::Null
    } else {
        let ghost asked = js.log();
        let raw: JSValue = js.atom_to_value(ctx.ctx, basename);
        let x = JsValue::from_qjs_value(js, ctx.ctx, raw);
        assert(atom_typed(asked, js.log(), ctx.ctx, basename, x));
        x
    }
}

/// Whether a module is named relative to the file that asks for it.
pub open spec fn is_relative(specifier: Seq<char>) -> bool {
    specifier.len() > 0 && specifier[0] == '.'
}

/// The name of the module `specifier` seen from the file `file`.
pub open spec fn beside(file: Seq<char>, specifier: Seq<char>) -> Seq<char> {
    joined(
        match parent(file) {
            Some(dir) => dir,
            None => file,
        },
        specifier,
    )
}

/// Whether a module is named relative to the file that asks for it.
pub fn starts_with_dot(specifier: &str) -> (yes: bool)
    ensures
        yes == is_relative(specifier@),
{
    specifier.unicode_len() > 0 && specifier.get_char(0) == '.'
}

/// The name of the module `specifier` seen from the file `file`.
pub fn resolve_beside(file: &str, specifier: &str) -> (name: String)
    ensures
        name@ == beside(file@, specifier@),
{
    match parent_of(file) {
        Some(dir) => join(dir.as_str(), specifier),
        None => join(file, specifier),
    }
}

/// Between the two records the name of the file behind `f` was read as `text`, and `f` was given
/// up.
pub open spec fn file_text(
    before: Seq<Exchange>,
    after: Seq<Exchange>,
    f: JsRef,
    text: Seq<char>,
) -> bool {
    exists|read: Seq<Exchange>| #[trigger]
        text_read(before, read, f, text) && released(read, after, f)
}

/// Between the two records the module name `specifier` was resolved to `name`. A relative one is
/// taken from beside the file of the calling code, where that has a file.
pub open spec fn specifier_resolved(
    before: Seq<Exchange>,
    after: Seq<Exchange>,
    ctx: Address,
    specifier: Seq<char>,
    name: Seq<char>,
) -> bool {
    if is_relative(specifier) {
        exists|file: JsValue, asked: Seq<Exchange>|
            {
                &&& #[trigger] file_named(before, asked, ctx, 1, file)
                &&& match file {
                    JsValue::String(f) => exists|text: Seq<char>| #[trigger]
                        file_text(asked, after, f.0, text) && name == beside(text, specifier),
                    _ => name == specifier && dropped(asked, after, file),
                }
            }
    } else {
        after == before && name == specifier
    }
}

/// Between the two records the module `name` was loaded with the result `m`.
pub open spec fn module_loaded(
    before: Seq<Exchange>,
    after: Seq<Exchange>,
    ctx: Address,
    name: Seq<char>,
    m: JsValue,
) -> bool {
    exists|text: JSValue, raw: JSValue, loaded: Seq<Exchange>|
        {
            &&& #[trigger] becomes(
                before.push(
                    Exchange::NewStringLen { ctx, bytes: encode_utf8(name), ret: text },
                ).push(Exchange::Require { ctx, specifier: text, ret: raw }),
                loaded,
                ctx,
                raw,
                m,
            )
            &&& released(loaded, after, JsRef { ctx, v: text })
        }
}

/// Between the two records the exports that the module left in the object `module` became `x`.
/// Where it left none, the result `m` of loading it does; else `module.exports` is deleted and
/// `m` given up.
pub open spec fn exports_of_module(
    before: Seq<Exchange>,
    after: Seq<Exchange>,
    global: JsObject,
    module: JsObject,
    m: JsValue,
    x: JsValue,
) -> bool {
    exists|exports: JsValue, got: Seq<Exchange>|
        {
            &&& #[trigger] property_got(before, got, module.0, "exports"@, exports)
            &&& if exports == JsValue::Null || exports == JsValue::UnDefined {
                &&& x == m
                &&& all_dropped(
                    got,
                    after,
                    seq![JsValue::Object(module), JsValue::Object(global)],
                )
            } else {
                &&& x == exports
                &&& exports_cleared(got, after, global, module, m)
            }
        }
}

/// Between the two records `module.exports` was deleted, and all that is left was given up.
pub open spec fn exports_cleared(
    before: Seq<Exchange>,
    after: Seq<Exchange>,
    global: JsObject,
    module: JsObject,
    m: JsValue,
) -> bool {
    exists|deleted: Seq<Exchange>|
        {
            &&& #[trigger] property_deleted(before, deleted, module.0, "exports"@)
            &&& all_dropped(
                deleted,
                after,
                seq![JsValue::Object(module), JsValue::Object(global), m],
            )
        }
}

/// Between the two records the exports of the module just loaded, with the result `m`, became
/// `x`. They are looked for in the global `module`; without such an object, `m` is what there is.
pub open spec fn exports_taken(
    before: Seq<Exchange>,
    after: Seq<Exchange>,
    ctx: Address,
    m: JsValue,
    x: JsValue,
) -> bool {
    exists|raw: JSValue, found: JsValue, got: Seq<Exchange>|
        {
            let global = JsObject(JsRef { ctx, v: raw });
            &&& #[trigger] property_got(
                before.push(global_answer(ctx, raw)),
                got,
                JsRef { ctx, v: raw },
                "module"@,
                found,
            )
            &&& match found {
                JsValue::Object(module) => exports_of_module(got, after, global, module, m, x),
                _ => x == m && all_dropped(got, after, seq![JsValue::Object(global), found]),
            }
        }
}

/// The asking for the global object.
pub open spec fn global_answer(ctx: Address, raw: JSValue) -> Exchange {
    Exchange::GetGlobalObject { ctx, ret: raw }
}

/// Between the two records the module that `s` names was loaded, and its exports are `x`.
pub open spec fn module_required(
    before: Seq<Exchange>,
    after: Seq<Exchange>,
    ctx: Address,
    s: JsRef,
    x: JsValue,
) -> bool {
    exists|
        specifier: Seq<char>,
        read: Seq<Exchange>,
        name: Seq<char>,
        resolved: Seq<Exchange>,
        m: JsValue,
        loaded: Seq<Exchange>,
    |
        {
            &&& #[trigger] text_read(before, read, s, specifier)
            &&& #[trigger] specifier_resolved(read, resolved, ctx, specifier, name)
            &&& #[trigger] module_loaded(resolved, loaded, ctx, name, m)
            &&& exports_taken(loaded, after, ctx, m, x)
        }
}

/// The native function behind `require`.
pub struct JsRequire;

impl JsRequire {
    /// Loads the module that `specifier` names.
    fn load<E: Engine>(ctx: &mut Context, js: &mut Session<E>, specifier: &JsString) -> (m: JsValue)
        ensures
            *final(ctx) == *old(ctx),
            exists|
                text: Seq<char>,
                read: Seq<Exchange>,
                name: Seq<char>,
                resolved: Seq<Exchange>,
            |
                {
                    &&& #[trigger] text_read(old(js).log(), read, specifier.0, text)
                    &&& #[trigger] specifier_resolved(read, resolved, old(ctx).ctx, text, name)
                    &&& module_loaded(resolved, final(js).log(), old(ctx).ctx, name, m)
                },
    {
        let ghost c = ctx.ctx;
        let text = read_text(js, &specifier.0);
        let ghost read = js.log();
        let mut name = text.clone();
        if starts_with_dot(text.as_str()) {
            let file = get_file_name(ctx, js, 1);
            let ghost asked = js.log();
            assert(file_named(read, asked, c, 1, file));
            match file {
                JsValue::String(f) => {
                    let file_name = read_text(js, &f.0);
                    let ghost told = js.log();
                    name = resolve_beside(file_name.as_str(), text.as_str());
                    f.0.release(js);
                    assert(text_read(asked, told, f.0, file_name@));
                    assert(file_text(asked, js.log(), f.0, file_name@));
                },
                other => {
                    other.release(js);
                },
            }
        }
        let ghost resolved = js.log();
        assert(specifier_resolved(read, resolved, c, text@, name@));
        let string = ctx.new_string(js, name.as_str());
        let raw: JSValue = js.require(ctx.ctx, string.0.v);
        let m = JsValue::from_qjs_value(js, ctx.ctx, raw);
        let ghost loaded = js.log();
        string.0.release(js);
        assert(becomes(
            resolved.push(
                Exchange::NewStringLen { ctx: c, bytes: encode_utf8(name@), ret: string.0.v },
            ).push(Exchange::Require { ctx: c, specifier: string.0.v, ret: raw }),
            loaded,
            c,
            raw,
            m,
        ));
        assert(module_loaded(resolved, js.log(), c, name@, m));
        m
    }

    /// What the module just loaded, with the result `m`, exports.
    fn take_exports<E: Engine>(ctx: &mut Context, js: &mut Session<E>, m: JsValue) -> (x: JsValue)
        ensures
            *final(ctx) == *old(ctx),
            exports_taken(old(js).log(), final(js).log(), old(ctx).ctx, m, x),
    {
        let ghost before = js.log();
        let ghost c = ctx.ctx;
        let global = ctx.get_global(js);
        let found = global.get(js, "module");
        let ghost got = js.log();
        assert(property_got(
            before.push(global_answer(c, global.0.v)),
            got,
            global.0,
            "module"@,
            found,
        ));
        match found {
            JsValue::Object(module) => {
                let mut module = module;
                let ghost o = module;
                let exports = module.get(js, "exports");
                let ghost told = js.log();
                assert(property_got(got, told, o.0, "exports"@, exports));
                let none = match &exports {
                    JsValue::Null => true,
                    JsValue::UnDefined => true,
                    _ => false,
                };
                let mut rest: Vec<JsValue> = Vec::new();
                if none {
                    rest.push(JsValue::Object(module));
                    rest.push(JsValue::Object(global));
                    assert(rest@ =~= seq![JsValue::Object(o), JsValue::Object(global)]);
                    release_all(js, rest);
                    assert(exports_of_module(got, js.log(), global, o, m, m));
                    m
                } else {
                    module.delete(js, "exports");
                    let ghost deleted = js.log();
                    assert(property_deleted(told, deleted, o.0, "exports"@));
                    rest.push(JsValue::Object(module));
                    rest.push(JsValue::Object(global));
                    rest.push(m);
                    assert(rest@ =~= seq![JsValue::Object(o), JsValue::Object(global), m]);
                    release_all(js, rest);
                    assert(exports_cleared(told, js.log(), global, o, m));
                    assert(exports_of_module(got, js.log(), global, o, m, exports));
                    exports
                }
            },
            other => {
                let mut rest: Vec<JsValue> = Vec::new();
                rest.push(JsValue::Object(global));
                rest.push(other);
                assert(rest@ =~= seq![JsValue::Object(global), found]);
                release_all(js, rest);
                m
            },
        }
    }
}

impl JsFn for JsRequire {
    /// Loads the module that the first argument names; without such a name, nothing happens.
    open spec fn answers(
        context: Context,
        before: Seq<Exchange>,
        after: Seq<Exchange>,
        this_val: JsValue,
        argv: Seq<JsValue>,
        answer: JsValue,
    ) -> bool {
        if argv.len() > 0 && argv[0] is String {
            exists|taken: Seq<Exchange>| #[trigger]
                module_required(before, taken, context.ctx, argv[0]->String_0.0, answer)
                    && dropped(taken, after, this_val)
        } else {
            answer == JsValue::UnDefined && dropped(before, after, this_val)
        }
    }

    fn call<E: Engine>(
        ctx: &mut Context,
        js: &mut Session<E>,
        this_val: JsValue,
        argv: &[JsValue],
    ) -> (answer: JsValue) {
        let ghost before = js.log();
        let ghost c = ctx.ctx;
        if argv.len() > 0 {
            if let JsValue::String(specifier) = &argv[0] {
                let m = JsRequire::load(ctx, js, specifier);
                let x = JsRequire::take_exports(ctx, js, m);
                let ghost taken = js.log();
                assert(module_required(before, taken, c, specifier.0, x));
                this_val.release(js);
                return x;
            }
        }
        this_val.release(js);
        JsValue::UnDefined
    }
}

/// Between the two records the directory of the file of the calling code became `x`: `null` where
/// there is no file, or no directory above it.
pub open spec fn dirname_told(
    before: Seq<Exchange>,
    after: Seq<Exchange>,
    ctx: Address,
    x: JsValue,
) -> bool {
    exists|file: JsValue, asked: Seq<Exchange>|
        {
            &&& #[trigger] file_named(before, asked, ctx, 1, file)
            &&& match file {
                JsValue::String(f) => dirname_of(asked, after, f.0, ctx, x),
                _ => x == JsValue::Null && dropped(asked, after, file),
            }
        }
}

/// Between the two records the directory of the file behind `f` became `x`, and `f` was given up.
pub open spec fn dirname_of(
    before: Seq<Exchange>,
    after: Seq<Exchange>,
    f: JsRef,
    ctx: Address,
    x: JsValue,
) -> bool {
    exists|text: Seq<char>, read: Seq<Exchange>|
        {
            &&& #[trigger] text_read(before, read, f, text)
            &&& match parent(text) {
                Some(dir) => {
                    &&& x matches JsValue::String(s)
                    &&& s.0.ctx == ctx
                    &&& released(
                        read.push(
                            Exchange::NewStringLen {
                                ctx,
                                bytes: encode_utf8(dir),
                                ret: s.0.v,
                            },
                        ),
                        after,
                        f,
                    )
                },
                None => x == JsValue::Null && released(read, after, f),
            }
        }
}

/// The native function behind `__dirname`.
pub struct JsDirName;

impl JsFn for JsDirName {
    /// Tells the directory of the file of the calling code.
    open spec fn answers(
        context: Context,
        before: Seq<Exchange>,
        after: Seq<Exchange>,
        this_val: JsValue,
        argv: Seq<JsValue>,
        answer: JsValue,
    ) -> bool {
        exists|told: Seq<Exchange>| #[trigger]
            dirname_told(before, told, context.ctx, answer) && dropped(told, after, this_val)
    }

    fn call<E: Engine>(
        ctx: &mut Context,
        js: &mut Session<E>,
        this_val: JsValue,
        argv: &[JsValue],
    ) -> (answer: JsValue) {
        let ghost before = js.log();
        let ghost c = ctx.ctx;
        let file = get_file_name(ctx, js, 1);
        let ghost asked = js.log();
        assert(file_named(before, asked, c, 1, file));
        let answer = match file {
            JsValue::String(f) => {
                let text = read_text(js, &f.0);
                let ghost read = js.log();
                assert(text_read(asked, read, f.0, text@));
                let answer = match parent_of(text.as_str()) {
                    Some(dir) => JsValue::from(ctx.new_string(js, dir.as_str())),
                    None => JsValue::Null,
                };
                f.0.release(js);
                assert(dirname_of(asked, js.log(), f.0, c, answer));
                answer
            },
            other => {
                other.release(js);
                JsValue::Null
            },
        };
        assert(dirname_told(before, js.log(), c, answer));
        this_val.release(js);
        answer
    }
}

/// The flags of `__dirname`: an enumerable, configurable getter, whose setting up may throw.
pub open spec fn dirname_flags() -> i32 {
    (JS_PROP_THROW | JS_PROP_HAS_ENUMERABLE | JS_PROP_ENUMERABLE | JS_PROP_HAS_CONFIGURABLE
        | JS_PROP_CONFIGURABLE | JS_PROP_HAS_GET) as i32
}

/// The record after the getter `getter` became the property `__dirname` of `global`.
pub open spec fn after_accessor(
    before: Seq<Exchange>,
    global: JsRef,
    getter: JSValue,
    atom: JSAtom,
    undefined: JSValue,
    null: JSValue,
) -> Seq<Exchange> {
    before.push(Exchange::NewAtom { ctx: global.ctx, name: c_text("__dirname"@), ret: atom }).push(
        Exchange::Undefined { ret: undefined },
    ).push(Exchange::Null { ret: null }).push(
        Exchange::DefineProperty {
            ctx: global.ctx,
            obj: global.v,
            prop: atom,
            value: undefined,
            getter,
            setter: null,
            flags: dirname_flags(),
        },
    )
}

/// Between the two records the getter `getter` became the property `__dirname` of `global`.
pub open spec fn accessor_defined(
    before: Seq<Exchange>,
    after: Seq<Exchange>,
    global: JsRef,
    getter: JSValue,
) -> bool {
    exists|atom: JSAtom, undefined: JSValue, null: JSValue|
        after == #[trigger] after_accessor(before, global, getter, atom, undefined, null)
}

/// The making of a native function of one argument.
pub open spec fn function_made(
    ctx: Address,
    callback: Address,
    name: Seq<char>,
    raw: JSValue,
) -> Exchange {
    Exchange::NewCFunction { ctx, callback, name: c_text(name), length: 1, ret: raw }
}

/// Between the two records the globals `module`, an empty object, `require` and `__dirname` were
/// set up.
pub open spec fn cjs_set_up(
    before: Seq<Exchange>,
    after: Seq<Exchange>,
    ctx: Address,
    callbacks: CjsCallbacks,
) -> bool {
    exists|
        global: JSValue,
        module: JSValue,
        with_module: Seq<Exchange>,
        require: JSValue,
        with_require: Seq<Exchange>,
        getter: JSValue,
        with_dirname: Seq<Exchange>,
    |
        {
            &&& #[trigger] published(
                before.push(global_answer(ctx, global)).push(
                    Exchange::NewObject { ctx, ret: module },
                ),
                with_module,
                JsRef { ctx, v: global },
                "module"@,
                JsValue::Object(JsObject(JsRef { ctx, v: module })),
            )
            &&& #[trigger] published(
                with_module.push(function_made(ctx, callbacks.require, "require"@, require)),
                with_require,
                JsRef { ctx, v: global },
                "require"@,
                JsValue::Function(JsFunction(JsRef { ctx, v: require })),
            )
            &&& #[trigger] accessor_defined(
                with_require.push(
                    function_made(ctx, callbacks.get_dirname, "get_dirname"@, getter),
                ),
                with_dirname,
                JsRef { ctx, v: global },
                getter,
            )
            &&& all_dropped(
                with_dirname,
                after,
                seq![
                    JsValue::Function(JsFunction(JsRef { ctx, v: getter })),
                    JsValue::Object(JsObject(JsRef { ctx, v: global })),
                ],
            )
        }
}

/// The names of the two native functions have C strings.
proof fn lemma_names_nul_free()
    ensures
        nul_free("require"@),
        nul_free("get_dirname"@),
{
    reveal_strlit("require");
    reveal_strlit("get_dirname");
    assert(vstd::utf8::is_ascii_chars("require"@));
    assert(vstd::utf8::is_ascii_chars("get_dirname"@));
    vstd::utf8::is_ascii_chars_encode_utf8("require"@);
    vstd::utf8::is_ascii_chars_encode_utf8("get_dirname"@);
}

/// Sets up the globals of CommonJS modules.
pub fn js_init_cjs<E: Engine>(ctx: &mut Context, js: &mut Session<E>, callbacks: CjsCallbacks)
    ensures
        *final(ctx) == *old(ctx),
        cjs_set_up(old(js).log(), final(js).log(), old(ctx).ctx, callbacks),
{
    proof {
        lemma_names_nul_free();
    }
    let ghost before = js.log();
    let c: Address = ctx.ctx;
    let mut global = ctx.get_global(js);
    let ghost g = global.0;
    let module = ctx.new_object(js);
    let ghost module_raw = module.0.v;
    publish(js, &mut global, "module", JsValue::from(module));
    let ghost with_module = js.log();
    let require = ctx.new_function(js, callbacks.require, "require");
    let ghost require_raw = require.0.v;
    publish(js, &mut global, "require", JsValue::from(require));
    let ghost with_require = js.log();
    let get_dirname = ctx.new_function(js, callbacks.get_dirname, "get_dirname");
    let getter: JSValue = get_dirname.0.v;
    let ghost gotten = js.log();
    let name = make_c_string("__dirname");
    let atom: JSAtom = js.new_atom(c, name.as_slice());
    let undefined: JSValue = js.undefined();
    let null: JSValue = js.null();
    let flags: i32 = (JS_PROP_THROW | JS_PROP_HAS_ENUMERABLE | JS_PROP_ENUMERABLE
        | JS_PROP_HAS_CONFIGURABLE | JS_PROP_CONFIGURABLE | JS_PROP_HAS_GET) as i32;
    js.define_property(c, global.0.v, atom, undefined, getter, null, flags);
    let ghost with_dirname = js.log();
    assert(with_dirname == after_accessor(gotten, g, getter, atom, undefined, null));
    assert(accessor_defined(gotten, with_dirname, g, getter));
    let mut rest: Vec<JsValue> = Vec::new();
    rest.push(JsValue::from(get_dirname));
    rest.push(JsValue::from(global));
    assert(rest@ =~= seq![
        JsValue::Function(JsFunction(JsRef { ctx: c, v: getter })),
        JsValue::Object(JsObject(g)),
    ]);
    release_all(js, rest);
    assert(published(
        before.push(global_answer(c, g.v)).push(Exchange::NewObject { ctx: c, ret: module_raw }),
        with_module,
        g,
        "module"@,
        JsValue::Object(JsObject(JsRef { ctx: c, v: module_raw })),
    ));
    assert(published(
        with_module.push(function_made(c, callbacks.require, "require"@, require_raw)),
        with_require,
        g,
        "require"@,
        JsValue::Function(JsFunction(JsRef { ctx: c, v: require_raw })),
    ));
    assert(gotten == with_require.push(
        function_made(c, callbacks.get_dirname, "get_dirname"@, getter),
    ));
}

} // verus!
