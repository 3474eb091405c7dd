//! The JavaScript engine as this library sees it.
//!
//! [`Engine`] has one method for each entry point of QuickJS that the library uses, over plain
//! values: an address for a pointer, an integer for a value or an atom, the bits for a double.
//! None of them promises anything.
//!
//! [`Session`] keeps, next to the engine, a ghost record of everything it was asked and what it
//! answered. Each of its methods makes one call of the engine and writes it down: the contract
//! says that the record grew by this one exchange, and that the engine went from its old state to
//! its new one through this one call, on the arguments and with the result that are written down.
//! The contracts of this library speak of the record, so they hold whatever the engine does.
use vstd::prelude::*;

verus! {

/// A value of the engine, in its own encoding. What it stands for only the engine can tell.
pub type JSValue = u64;

/// An interned property name of the engine.
pub type JSAtom = u32;

/// A place in memory that the engine and its callers agree on.
pub type Address = usize;

/// The entry points of the engine.
pub trait Engine {
    /// `JS_NewRuntime`: a fresh runtime.
    fn new_runtime(&mut self) -> Address;

    /// `JS_SetModuleLoaderFunc` with the engine's own file loader and no normaliser.
    fn set_module_loader(&mut self, rt: Address);

    /// `js_std_init_handlers`.
    fn std_init_handlers(&mut self, rt: Address);

    /// `JS_NewContext`: a fresh context of the runtime.
    fn new_context(&mut self, rt: Address) -> Address;

    /// `JS_AddIntrinsicBigFloat`.
    fn add_intrinsic_big_float(&mut self, ctx: Address);

    /// `JS_AddIntrinsicBigDecimal`.
    fn add_intrinsic_big_decimal(&mut self, ctx: Address);

    /// `JS_AddIntrinsicOperators`.
    fn add_intrinsic_operators(&mut self, ctx: Address);

    /// `JS_EnableBignumExt`.
    fn enable_bignum_ext(&mut self, ctx: Address, enable: i32);

    /// `js_std_add_console`.
    fn std_add_console(&mut self, ctx: Address);

    /// `js_init_module_std`.
    fn init_module_std(&mut self, ctx: Address, name: &[u8]);

    /// `js_init_module_os`.
    fn init_module_os(&mut self, ctx: Address, name: &[u8]);

    /// `JS_GetRuntime`: the runtime of a context.
    fn get_runtime(&mut self, ctx: Address) -> Address;

    /// `js_std_free_handlers`.
    fn std_free_handlers(&mut self, rt: Address);

    /// `JS_FreeContext`.
    fn free_context(&mut self, ctx: Address);

    /// `JS_FreeRuntime`.
    fn free_runtime(&mut self, rt: Address);

    /// `JS_Eval` on the first `len` bytes of `code`.
    fn eval(
        &mut self,
        ctx: Address,
        code: &[u8],
        len: usize,
        filename: &[u8],
        flags: i32,
    ) -> JSValue;

    /// `JS_EvalFunction`: runs what a compile-only evaluation made.
    fn eval_function(&mut self, ctx: Address, function: JSValue) -> JSValue;

    /// `JS_IsException`: positive for the exception marker.
    fn is_exception(&mut self, v: JSValue) -> i32;

    /// `js_std_dump_error`: reports the pending exception.
    fn std_dump_error(&mut self, ctx: Address);

    /// `js_std_loop`: runs pending jobs until none is left.
    fn std_loop(&mut self, ctx: Address);

    /// `JS_Call`.
    fn call(
        &mut self,
        ctx: Address,
        function: JSValue,
        this: JSValue,
        argc: i32,
        argv: &[JSValue],
    ) -> JSValue;

    /// `JS_Invoke`.
    fn invoke(
        &mut self,
        ctx: Address,
        this: JSValue,
        name: JSAtom,
        argc: i32,
        argv: &[JSValue],
    ) -> JSValue;

    /// `js_require`: loads the module of that name.
    fn require(&mut self, ctx: Address, specifier: JSValue) -> JSValue;

    /// `JS_GetScriptOrModuleName`: the file of the n-th frame, `JS_ATOM_NULL` for none.
    fn get_script_or_module_name(&mut self, ctx: Address, level: i32) -> JSAtom;

    /// The value `undefined`.
    fn undefined(&mut self) -> JSValue;

    /// The value `null`.
    fn null(&mut self) -> JSValue;

    /// The exception marker.
    fn exception(&mut self) -> JSValue;

    /// `JS_NewBool`.
    fn new_bool(&mut self, ctx: Address, value: i32) -> JSValue;

    /// `JS_NewInt32`.
    fn new_int32(&mut self, ctx: Address, value: i32) -> JSValue;

    /// `JS_NewInt64`.
    fn new_int64(&mut self, ctx: Address, value: i64) -> JSValue;

    /// `JS_NewFloat64` on the double with those bits.
    fn new_float64(&mut self, ctx: Address, bits: u64) -> JSValue;

    /// `JS_NewStringLen`.
    fn new_string_len(&mut self, ctx: Address, bytes: &[u8]) -> JSValue;

    /// `JS_NewObject`.
    fn new_object(&mut self, ctx: Address) -> JSValue;

    /// `JS_NewArray`.
    fn new_array(&mut self, ctx: Address) -> JSValue;

    /// `JS_NewArrayBufferCopy`.
    fn new_array_buffer_copy(&mut self, ctx: Address, bytes: &[u8]) -> JSValue;

    /// `JS_NewArrayBufferCopy` on the first `len` bytes of memory at `elements`.
    fn new_array_buffer_copy_t<T>(&mut self, ctx: Address, elements: &[T], len: usize) -> JSValue;

    /// `JS_NewCFunction` around the native function at `callback`.
    fn new_c_function(
        &mut self,
        ctx: Address,
        callback: Address,
        name: &[u8],
        length: i32,
    ) -> JSValue;

    /// `JS_NewError`: an empty error object.
    fn new_error(&mut self, ctx: Address) -> JSValue;

    /// `JS_NewPromiseCapability`: the promise, then its two resolving functions.
    fn new_promise_capability(&mut self, ctx: Address) -> (JSValue, JSValue, JSValue);

    /// `JS_GetGlobalObject`.
    fn get_global_object(&mut self, ctx: Address) -> JSValue;

    /// `JS_Throw`.
    fn throw(&mut self, ctx: Address, error: JSValue) -> JSValue;

    /// `JS_ThrowTypeError`; the engine reads `message` as a format string.
    fn throw_type_error(&mut self, ctx: Address, message: &[u8]) -> JSValue;

    /// `JS_ThrowInternalError`; the engine reads `message` as a format string.
    fn throw_internal_error(&mut self, ctx: Address, message: &[u8]) -> JSValue;

    /// `JS_ThrowReferenceError`; the engine reads `message` as a format string.
    fn throw_reference_error(&mut self, ctx: Address, message: &[u8]) -> JSValue;

    /// `JS_ThrowRangeError`; the engine reads `message` as a format string.
    fn throw_range_error(&mut self, ctx: Address, message: &[u8]) -> JSValue;

    /// `JS_VALUE_GET_NORM_TAG`.
    fn get_norm_tag(&mut self, v: JSValue) -> i32;

    /// `JS_IsFunction`: nonzero for yes.
    fn is_function(&mut self, ctx: Address, v: JSValue) -> i32;

    /// `JS_IsArrayBuffer`: nonzero for yes.
    fn is_array_buffer(&mut self, ctx: Address, v: JSValue) -> i32;

    /// `JS_IsArray`: nonzero for yes.
    fn is_array(&mut self, ctx: Address, v: JSValue) -> i32;

    /// `JS_IsPromise`: nonzero for yes.
    fn is_promise(&mut self, ctx: Address, v: JSValue) -> i32;

    /// `JS_ToBool`: nonzero for true.
    fn to_bool(&mut self, ctx: Address, v: JSValue) -> i32;

    /// `JS_ToInt32`, zero where it fails.
    fn to_int32(&mut self, ctx: Address, v: JSValue) -> i32;

    /// `JS_ToUint32`, zero where it fails.
    fn to_uint32(&mut self, ctx: Address, v: JSValue) -> u32;

    /// `JS_ToFloat64`, as the bits of the double, zero where it fails.
    fn to_float64(&mut self, ctx: Address, v: JSValue) -> u64;

    /// `JS_ToBigInt64`, zero where it fails.
    fn to_big_int64(&mut self, ctx: Address, v: JSValue) -> i64;

    /// `JS_ToString`.
    fn to_string(&mut self, ctx: Address, v: JSValue) -> JSValue;

    /// `JS_GetPromiseResult`.
    fn get_promise_result(&mut self, ctx: Address, v: JSValue) -> JSValue;

    /// `JS_ToCStringLen2` without a length or CESU-8: where the text is, 0 for none.
    fn to_c_string(&mut self, ctx: Address, v: JSValue) -> Address;

    /// The bytes at `text` up to the first NUL.
    fn read_c_string(&mut self, text: Address) -> Vec<u8>;

    /// `JS_FreeCString`.
    fn free_c_string(&mut self, ctx: Address, text: Address);

    /// `JS_GetArrayBuffer`: where the bytes are, and how many.
    fn get_array_buffer(&mut self, ctx: Address, v: JSValue) -> (Address, usize);

    /// The byte at `base + offset`.
    fn read_byte(&mut self, base: Address, offset: usize) -> u8;

    /// Entry `index` of the values at `base`.
    fn read_value(&mut self, base: Address, index: i32) -> JSValue;

    /// `JS_DupValue`: one more reference to the value.
    fn dup_value(&mut self, ctx: Address, v: JSValue) -> JSValue;

    /// `JS_FreeValue`: one reference to the value fewer.
    fn free_value(&mut self, ctx: Address, v: JSValue);

    /// `JS_GetPropertyStr`.
    fn get_property_str(&mut self, ctx: Address, obj: JSValue, key: &[u8]) -> JSValue;

    /// `JS_SetPropertyStr`; takes over the reference to `value`.
    fn set_property_str(&mut self, ctx: Address, obj: JSValue, key: &[u8], value: JSValue) -> i32;

    /// `JS_GetPropertyUint32`.
    fn get_property_uint32(&mut self, ctx: Address, obj: JSValue, index: u32) -> JSValue;

    /// `JS_SetPropertyUint32`; takes over the reference to `value`.
    fn set_property_uint32(&mut self, ctx: Address, obj: JSValue, index: u32, value: JSValue);

    /// `JS_GetPropertyInternal`.
    fn get_property_internal(
        &mut self,
        ctx: Address,
        obj: JSValue,
        prop: JSAtom,
        receiver: JSValue,
        throw_ref_error: i32,
    ) -> JSValue;

    /// `JS_DefineProperty`.
    fn define_property(
        &mut self,
        ctx: Address,
        obj: JSValue,
        prop: JSAtom,
        value: JSValue,
        getter: JSValue,
        setter: JSValue,
        flags: i32,
    );

    /// `JS_DeleteProperty`.
    fn delete_property(&mut self, ctx: Address, obj: JSValue, prop: JSAtom, flags: i32);

    /// `JS_GetOwnPropertyNames`: zero for success, where the table is, and its length.
    fn get_own_property_names(
        &mut self,
        ctx: Address,
        obj: JSValue,
        flags: i32,
    ) -> (i32, Address, u32);

    /// The name in entry `index` of a table of property names.
    fn read_property_atom(&mut self, table: Address, index: u32) -> JSAtom;

    /// `js_free`: gives back memory of the engine.
    fn js_free(&mut self, ctx: Address, memory: Address);

    /// `JS_NewAtom`.
    fn new_atom(&mut self, ctx: Address, name: &[u8]) -> JSAtom;

    /// `JS_FreeAtom`.
    fn free_atom(&mut self, ctx: Address, atom: JSAtom);

    /// `JS_AtomToValue`.
    fn atom_to_value(&mut self, ctx: Address, atom: JSAtom) -> JSValue;

    /// `JS_AtomToString`.
    fn atom_to_string(&mut self, ctx: Address, atom: JSAtom) -> JSValue;
}

/// One call of an entry point: its arguments and, as `ret`, what it returned.
#[allow(inconsistent_fields)]
pub enum Exchange {
    NewRuntime { ret: Address },
    SetModuleLoader { rt: Address },
    StdInitHandlers { rt: Address },
    NewContext { rt: Address, ret: Address },
    AddIntrinsicBigFloat { ctx: Address },
    AddIntrinsicBigDecimal { ctx: Address },
    AddIntrinsicOperators { ctx: Address },
    EnableBignumExt { ctx: Address, enable: i32 },
    StdAddConsole { ctx: Address },
    InitModuleStd { ctx: Address, name: Seq<u8> },
    InitModuleOs { ctx: Address, name: Seq<u8> },
    GetRuntime { ctx: Address, ret: Address },
    StdFreeHandlers { rt: Address },
    FreeContext { ctx: Address },
    FreeRuntime { rt: Address },
    Eval { ctx: Address, code: Seq<u8>, len: usize, filename: Seq<u8>, flags: i32, ret: JSValue },
    EvalFunction { ctx: Address, function: JSValue, ret: JSValue },
    IsException { v: JSValue, ret: i32 },
    StdDumpError { ctx: Address },
    StdLoop { ctx: Address },
    Call {
        ctx: Address,
        function: JSValue,
        this: JSValue,
        argc: i32,
        argv: Seq<JSValue>,
        ret: JSValue,
    },
    Invoke {
        ctx: Address,
        this: JSValue,
        name: JSAtom,
        argc: i32,
        argv: Seq<JSValue>,
        ret: JSValue,
    },
    Require { ctx: Address, specifier: JSValue, ret: JSValue },
    GetScriptOrModuleName { ctx: Address, level: i32, ret: JSAtom },
    Undefined { ret: JSValue },
    Null { ret: JSValue },
    Exception { ret: JSValue },
    NewBool { ctx: Address, value: i32, ret: JSValue },
    NewInt32 { ctx: Address, value: i32, ret: JSValue },
    NewInt64 { ctx: Address, value: i64, ret: JSValue },
    NewFloat64 { ctx: Address, bits: u64, ret: JSValue },
    NewStringLen { ctx: Address, bytes: Seq<u8>, ret: JSValue },
    NewObject { ctx: Address, ret: JSValue },
    NewArray { ctx: Address, ret: JSValue },
    NewArrayBufferCopy { ctx: Address, bytes: Seq<u8>, ret: JSValue },
    NewArrayBufferCopyT { ctx: Address, count: nat, len: usize, ret: JSValue },
    NewCFunction { ctx: Address, callback: Address, name: Seq<u8>, length: i32, ret: JSValue },
    NewError { ctx: Address, ret: JSValue },
    NewPromiseCapability { ctx: Address, ret: (JSValue, JSValue, JSValue) },
    GetGlobalObject { ctx: Address, ret: JSValue },
    Throw { ctx: Address, error: JSValue, ret: JSValue },
    ThrowTypeError { ctx: Address, message: Seq<u8>, ret: JSValue },
    ThrowInternalError { ctx: Address, message: Seq<u8>, ret: JSValue },
    ThrowReferenceError { ctx: Address, message: Seq<u8>, ret: JSValue },
    ThrowRangeError { ctx: Address, message: Seq<u8>, ret: JSValue },
    GetNormTag { v: JSValue, ret: i32 },
    IsFunction { ctx: Address, v: JSValue, ret: i32 },
    IsArrayBuffer { ctx: Address, v: JSValue, ret: i32 },
    IsArray { ctx: Address, v: JSValue, ret: i32 },
    IsPromise { ctx: Address, v: JSValue, ret: i32 },
    ToBool { ctx: Address, v: JSValue, ret: i32 },
    ToInt32 { ctx: Address, v: JSValue, ret: i32 },
    ToUint32 { ctx: Address, v: JSValue, ret: u32 },
    ToFloat64 { ctx: Address, v: JSValue, ret: u64 },
    ToBigInt64 { ctx: Address, v: JSValue, ret: i64 },
    ToString { ctx: Address, v: JSValue, ret: JSValue },
    GetPromiseResult { ctx: Address, v: JSValue, ret: JSValue },
    ToCString { ctx: Address, v: JSValue, ret: Address },
    ReadCString { text: Address, ret: Seq<u8> },
    FreeCString { ctx: Address, text: Address },
    GetArrayBuffer { ctx: Address, v: JSValue, ret: (Address, usize) },
    ReadByte { base: Address, offset: usize, ret: u8 },
    ReadValue { base: Address, index: i32, ret: JSValue },
    DupValue { ctx: Address, v: JSValue, ret: JSValue },
    FreeValue { ctx: Address, v: JSValue },
    GetPropertyStr { ctx: Address, obj: JSValue, key: Seq<u8>, ret: JSValue },
    SetPropertyStr { ctx: Address, obj: JSValue, key: Seq<u8>, value: JSValue, ret: i32 },
    GetPropertyUint32 { ctx: Address, obj: JSValue, index: u32, ret: JSValue },
    SetPropertyUint32 { ctx: Address, obj: JSValue, index: u32, value: JSValue },
    GetPropertyInternal {
        ctx: Address,
        obj: JSValue,
        prop: JSAtom,
        receiver: JSValue,
        throw_ref_error: i32,
        ret: JSValue,
    },
    DefineProperty {
        ctx: Address,
        obj: JSValue,
        prop: JSAtom,
        value: JSValue,
        getter: JSValue,
        setter: JSValue,
        flags: i32,
    },
    DeleteProperty { ctx: Address, obj: JSValue, prop: JSAtom, flags: i32 },
    GetOwnPropertyNames { ctx: Address, obj: JSValue, flags: i32, ret: (i32, Address, u32) },
    ReadPropertyAtom { table: Address, index: u32, ret: JSAtom },
    JsFree { ctx: Address, memory: Address },
    NewAtom { ctx: Address, name: Seq<u8>, ret: JSAtom },
    FreeAtom { ctx: Address, atom: JSAtom },
    AtomToValue { ctx: Address, atom: JSAtom, ret: JSValue },
    AtomToString { ctx: Address, atom: JSAtom, ret: JSValue },
}

/// An engine, and the record of what was said to it.
pub struct Session<E: Engine> {
    engine: E,
    log: Ghost<Seq<Exchange>>,
}

impl<E: Engine> Session<E> {
    /// Everything said so far, oldest first.
    pub closed spec fn log(&self) -> Seq<Exchange> {
        self.log@
    }

    /// The engine as it now is.
    pub closed spec fn engine(&self) -> E {
        self.engine
    }

    /// A session with `engine` in which nothing has been said yet.
    pub fn new(engine: E) -> (session: Self)
        ensures
            session.engine() == engine,
            session.log() == Seq::<Exchange>::empty(),
    {
        Session { engine, log: Ghost(Seq::empty()) }
    }

    pub fn new_runtime(&mut self) -> (ret: Address)
        ensures
            final(self).log() == old(self).log().push(Exchange::NewRuntime { ret }),
            exists|e: &mut E|
                *e == old(self).engine() && *final(e) == final(self).engine()
                    && #[trigger] call_ensures(E::new_runtime, (e,), ret),
    {
        let ret: Address = self.engine.new_runtime();
        self.log = Ghost(self.log@.push(Exchange::NewRuntime { ret }));
        ret
    }

    pub fn set_module_loader(&mut self, rt: Address)
        ensures
            final(self).log() == old(self).log().push(Exchange::SetModuleLoader { rt }),
            exists|e: &mut E|
                *e == old(self).engine() && *final(e) == final(self).engine()
                    && #[trigger] call_ensures(E::set_module_loader, (e, rt), ()),
    {
        self.engine.set_module_loader(rt);
        self.log = Ghost(self.log@.push(Exchange::SetModuleLoader { rt }));
    }

    pub fn std_init_handlers(&mut self, rt: Address)
        ensures
            final(self).log() == old(self).log().push(Exchange::StdInitHandlers { rt }),
            exists|e: &mut E|
                *e == old(self).engine() && *final(e) == final(self).engine()
                    && #[trigger] call_ensures(E::std_init_handlers, (e, rt), ()),
    {
        self.engine.std_init_handlers(rt);
        self.log = Ghost(self.log@.push(Exchange::StdInitHandlers { rt }));
    }

    pub fn new_context(&mut self, rt: Address) -> (ret: Address)
        ensures
            final(self).log() == old(self).log().push(Exchange::NewContext { rt, ret }),
            exists|e: &mut E|
                *e == old(self).engine() && *final(e) == final(self).engine()
                    && #[trigger] call_ensures(E::new_context, (e, rt), ret),
    {
        let ret: Address = self.engine.new_context(rt);
        self.log = Ghost(self.log@.push(Exchange::NewContext { rt, ret }));
        ret
    }

    pub fn add_intrinsic_big_float(&mut self, ctx: Address)
        ensures
            final(self).log() == old(self).log().push(Exchange::AddIntrinsicBigFloat { ctx }),
            exists|e: &mut E|
                *e == old(self).engine() && *final(e) == final(self).engine()
                    && #[trigger] call_ensures(E::add_intrinsic_big_float, (e, ctx), ()),
    {
        self.engine.add_intrinsic_big_float(ctx);
        self.log = Ghost(self.log@.push(Exchange::AddIntrinsicBigFloat { ctx }));
    }

    pub fn add_intrinsic_big_decimal(&mut self, ctx: Address)
        ensures
            final(self).log() == old(self).log().push(Exchange::AddIntrinsicBigDecimal { ctx }),
            exists|e: &mut E|
                *e == old(self).engine() && *final(e) == final(self).engine()
                    && #[trigger] call_ensures(E::add_intrinsic_big_decimal, (e, ctx), ()),
    {
        self.engine.add_intrinsic_big_decimal(ctx);
        self.log = Ghost(self.log@.push(Exchange::AddIntrinsicBigDecimal { ctx }));
    }

    pub fn add_intrinsic_operators(&mut self, ctx: Address)
        ensures
            final(self).log() == old(self).log().push(Exchange::AddIntrinsicOperators { ctx }),
            exists|e: &mut E|
                *e == old(self).engine() && *final(e) == final(self).engine()
                    && #[trigger] call_ensures(E::add_intrinsic_operators, (e, ctx), ()),
    {
        self.engine.add_intrinsic_operators(ctx);
        self.log = Ghost(self.log@.push(Exchange::AddIntrinsicOperators { ctx }));
    }

    pub fn enable_bignum_ext(&mut self, ctx: Address, enable: i32)
        ensures
            final(self).log() == old(self).log().push(Exchange::EnableBignumExt { ctx, enable }),
            exists|e: &mut E|
                *e == old(self).engine() && *final(e) == final(self).engine()
                    && #[trigger] call_ensures(E::enable_bignum_ext, (e, ctx, enable), ()),
    {
        self.engine.enable_bignum_ext(ctx, enable);
        self.log = Ghost(self.log@.push(Exchange::EnableBignumExt { ctx, enable }));
    }

    pub fn std_add_console(&mut self, ctx: Address)
        ensures
            final(self).log() == old(self).log().push(Exchange::StdAddConsole { ctx }),
            exists|e: &mut E|
                *e == old(self).engine() && *final(e) == final(self).engine()
                    && #[trigger] call_ensures(E::std_add_console, (e, ctx), ()),
    {
        self.engine.std_add_console(ctx);
        self.log = Ghost(self.log@.push(Exchange::StdAddConsole { ctx }));
    }

    pub fn init_module_std(&mut self, ctx: Address, name: &[u8])
        ensures
            final(self).log() == old(self).log().push(Exchange::InitModuleStd { ctx, name: name@ }),
            exists|e: &mut E|
                *e == old(self).engine() && *final(e) == final(self).engine()
                    && #[trigger] call_ensures(E::init_module_std, (e, ctx, name), ()),
    {
        self.engine.init_module_std(ctx, name);
        self.log = Ghost(self.log@.push(Exchange::InitModuleStd { ctx, name: name@ }));
    }

    pub fn init_module_os(&mut self, ctx: Address, name: &[u8])
        ensures
            final(self).log() == old(self).log().push(Exchange::InitModuleOs { ctx, name: name@ }),
            exists|e: &mut E|
                *e == old(self).engine() && *final(e) == final(self).engine()
                    && #[trigger] call_ensures(E::init_module_os, (e, ctx, name), ()),
    {
        self.engine.init_module_os(ctx, name);
        self.log = Ghost(self.log@.push(Exchange::InitModuleOs { ctx, name: name@ }));
    }

    pub fn get_runtime(&mut self, ctx: Address) -> (ret: Address)
        ensures
            final(self).log() == old(self).log().push(Exchange::GetRuntime { ctx, ret }),
            exists|e: &mut E|
                *e == old(self).engine() && *final(e) == final(self).engine()
                    && #[trigger] call_ensures(E::get_runtime, (e, ctx), ret),
    {
        let ret: Address = self.engine.get_runtime(ctx);
        self.log = Ghost(self.log@.push(Exchange::GetRuntime { ctx, ret }));
        ret
    }

    pub fn std_free_handlers(&mut self, rt: Address)
        ensures
            final(self).log() == old(self).log().push(Exchange::StdFreeHandlers { rt }),
            exists|e: &mut E|
                *e == old(self).engine() && *final(e) == final(self).engine()
                    && #[trigger] call_ensures(E::std_free_handlers, (e, rt), ()),
    {
        self.engine.std_free_handlers(rt);
        self.log = Ghost(self.log@.push(Exchange::StdFreeHandlers { rt }));
    }

    pub fn free_context(&mut self, ctx: Address)
        ensures
            final(self).log() == old(self).log().push(Exchange::FreeContext { ctx }),
            exists|e: &mut E|
                *e == old(self).engine() && *final(e) == final(self).engine()
                    && #[trigger] call_ensures(E::free_context, (e, ctx), ()),
    {
        self.engine.free_context(ctx);
        self.log = Ghost(self.log@.push(Exchange::FreeContext { ctx }));
    }

    pub fn free_runtime(&mut self, rt: Address)
        ensures
            final(self).log() == old(self).log().push(Exchange::FreeRuntime { rt }),
            exists|e: &mut E|
                *e == old(self).engine() && *final(e) == final(self).engine()
                    && #[trigger] call_ensures(E::free_runtime, (e, rt), ()),
    {
        self.engine.free_runtime(rt);
        self.log = Ghost(self.log@.push(Exchange::FreeRuntime { rt }));
    }

    pub fn eval(
        &mut self,
        ctx: Address,
        code: &[u8],
        len: usize,
        filename: &[u8],
        flags: i32,
    ) -> (ret: JSValue)
        ensures
            final(self).log() == old(self).log().push(
                Exchange::Eval { ctx, code: code@, len, filename: filename@, flags, ret },
            ),
            exists|e: &mut E|
                *e == old(self).engine() && *final(e) == final(self).engine()
                    && #[trigger] call_ensures(E::eval, (e, ctx, code, len, filename, flags), ret),
    {
        let ret: JSValue = self.engine.eval(ctx, code, len, filename, flags);
        self.log = Ghost(
            self.log@.push(Exchange::Eval { ctx, code: code@, len, filename: filename@, flags, ret }),
        );
        ret
    }

    pub fn eval_function(&mut self, ctx: Address, function: JSValue) -> (ret: JSValue)
        ensures
            final(self).log() == old(self).log().push(
                Exchange::EvalFunction { ctx, function, ret },
            ),
            exists|e: &mut E|
                *e == old(self).engine() && *final(e) == final(self).engine()
                    && #[trigger] call_ensures(E::eval_function, (e, ctx, function), ret),
    {
        let ret: JSValue = self.engine.eval_function(ctx, function);
        self.log = Ghost(self.log@.push(Exchange::EvalFunction { ctx, function, ret }));
        ret
    }

    pub fn is_exception(&mut self, v: JSValue) -> (ret: i32)
        ensures
            final(self).log() == old(self).log().push(Exchange::IsException { v, ret }),
            exists|e: &mut E|
                *e == old(self).engine() && *final(e) == final(self).engine()
                    && #[trigger] call_ensures(E::is_exception, (e, v), ret),
    {
        let ret: i32 = self.engine.is_exception(v);
        self.log = Ghost(self.log@.push(Exchange::IsException { v, ret }));
        ret
    }

    pub fn std_dump_error(&mut self, ctx: Address)
        ensures
            final(self).log() == old(self).log().push(Exchange::StdDumpError { ctx }),
            exists|e: &mut E|
                *e == old(self).engine() && *final(e) == final(self).engine()
                    && #[trigger] call_ensures(E::std_dump_error, (e, ctx), ()),
    {
        self.engine.std_dump_error(ctx);
        self.log = Ghost(self.log@.push(Exchange::StdDumpError { ctx }));
    }

    pub fn std_loop(&mut self, ctx: Address)
        ensures
            final(self).log() == old(self).log().push(Exchange::StdLoop { ctx }),
            exists|e: &mut E|
                *e == old(self).engine() && *final(e) == final(self).engine()
                    && #[trigger] call_ensures(E::std_loop, (e, ctx), ()),
    {
        self.engine.std_loop(ctx);
        self.log = Ghost(self.log@.push(Exchange::StdLoop { ctx }));
    }

    pub fn call(
        &mut self,
        ctx: Address,
        function: JSValue,
        this: JSValue,
        argc: i32,
        argv: &[JSValue],
    ) -> (ret: JSValue)
        ensures
            final(self).log() == old(self).log().push(
                Exchange::Call { ctx, function, this, argc, argv: argv@, ret },
            ),
            exists|e: &mut E|
                *e == old(self).engine() && *final(e) == final(self).engine()
                    && #[trigger] call_ensures(E::call, (e, ctx, function, this, argc, argv), ret),
    {
        let ret: JSValue = self.engine.call(ctx, function, this, argc, argv);
        self.log = Ghost(
            self.log@.push(Exchange::Call { ctx, function, this, argc, argv: argv@, ret }),
        );
        ret
    }

    pub fn invoke(
        &mut self,
        ctx: Address,
        this: JSValue,
        name: JSAtom,
        argc: i32,
        argv: &[JSValue],
    ) -> (ret: JSValue)
        ensures
            final(self).log() == old(self).log().push(
                Exchange::Invoke { ctx, this, name, argc, argv: argv@, ret },
            ),
            exists|e: &mut E|
                *e == old(self).engine() && *final(e) == final(self).engine()
                    && #[trigger] call_ensures(E::invoke, (e, ctx, this, name, argc, argv), ret),
    {
        let ret: JSValue = self.engine.invoke(ctx, this, name, argc, argv);
        self.log = Ghost(
            self.log@.push(Exchange::Invoke { ctx, this, name, argc, argv: argv@, ret }),
        );
        ret
    }

    pub fn require(&mut self, ctx: Address, specifier: JSValue) -> (ret: JSValue)
        ensures
            final(self).log() == old(self).log().push(Exchange::Require { ctx, specifier, ret }),
            exists|e: &mut E|
                *e == old(self).engine() && *final(e) == final(self).engine()
                    && #[trigger] call_ensures(E::require, (e, ctx, specifier), ret),
    {
        let ret: JSValue = self.engine.require(ctx, specifier);
        self.log = Ghost(self.log@.push(Exchange::Require { ctx, specifier, ret }));
        ret
    }

    pub fn get_script_or_module_name(&mut self, ctx: Address, level: i32) -> (ret: JSAtom)
        ensures
            final(self).log() == old(self).log().push(
                Exchange::GetScriptOrModuleName { ctx, level, ret },
            ),
            exists|e: &mut E|
                *e == old(self).engine() && *final(e) == final(self).engine()
                    && #[trigger] call_ensures(E::get_script_or_module_name, (e, ctx, level), ret),
    {
        let ret: JSAtom = self.engine.get_script_or_module_name(ctx, level);
        self.log = Ghost(self.log@.push(Exchange::GetScriptOrModuleName { ctx, level, ret }));
        ret
    }

    pub fn undefined(&mut self) -> (ret: JSValue)
        ensures
            final(self).log() == old(self).log().push(Exchange::Undefined { ret }),
            exists|e: &mut E|
                *e == old(self).engine() && *final(e) == final(self).engine()
                    && #[trigger] call_ensures(E::undefined, (e,), ret),
    {
        let ret: JSValue = self.engine.undefined();
        self.log = Ghost(self.log@.push(Exchange::Undefined { ret }));
        ret
    }

    pub fn null(&mut self) -> (ret: JSValue)
        ensures
            final(self).log() == old(self).log().push(Exchange::Null { ret }),
            exists|e: &mut E|
                *e == old(self).engine() && *final(e) == final(self).engine()
                    && #[trigger] call_ensures(E::null, (e,), ret),
    {
        let ret: JSValue = self.engine.null();
        self.log = Ghost(self.log@.push(Exchange::Null { ret }));
        ret
    }

    pub fn exception(&mut self) -> (ret: JSValue)
        ensures
            final(self).log() == old(self).log().push(Exchange::Exception { ret }),
            exists|e: &mut E|
                *e == old(self).engine() && *final(e) == final(self).engine()
                    && #[trigger] call_ensures(E::exception, (e,), ret),
    {
        let ret: JSValue = self.engine.exception();
        self.log = Ghost(self.log@.push(Exchange::Exception { ret }));
        ret
    }

    pub fn new_bool(&mut self, ctx: Address, value: i32) -> (ret: JSValue)
        ensures
            final(self).log() == old(self).log().push(Exchange::NewBool { ctx, value, ret }),
            exists|e: &mut E|
                *e == old(self).engine() && *final(e) == final(self).engine()
                    && #[trigger] call_ensures(E::new_bool, (e, ctx, value), ret),
    {
        let ret: JSValue = self.engine.new_bool(ctx, value);
        self.log = Ghost(self.log@.push(Exchange::NewBool { ctx, value, ret }));
        ret
    }

    pub fn new_int32(&mut self, ctx: Address, value: i32) -> (ret: JSValue)
        ensures
            final(self).log() == old(self).log().push(Exchange::NewInt32 { ctx, value, ret }),
            exists|e: &mut E|
                *e == old(self).engine() && *final(e) == final(self).engine()
                    && #[trigger] call_ensures(E::new_int32, (e, ctx, value), ret),
    {
        let ret: JSValue = self.engine.new_int32(ctx, value);
        self.log = Ghost(self.log@.push(Exchange::NewInt32 { ctx, value, ret }));
        ret
    }

    pub fn new_int64(&mut self, ctx: Address, value: i64) -> (ret: JSValue)
        ensures
            final(self).log() == old(self).log().push(Exchange::NewInt64 { ctx, value, ret }),
            exists|e: &mut E|
                *e == old(self).engine() && *final(e) == final(self).engine()
                    && #[trigger] call_ensures(E::new_int64, (e, ctx, value), ret),
    {
        let ret: JSValue = self.engine.new_int64(ctx, value);
        self.log = Ghost(self.log@.push(Exchange::NewInt64 { ctx, value, ret }));
        ret
    }

    pub fn new_float64(&mut self, ctx: Address, bits: u64) -> (ret: JSValue)
        ensures
            final(self).log() == old(self).log().push(Exchange::NewFloat64 { ctx, bits, ret }),
            exists|e: &mut E|
                *e == old(self).engine() && *final(e) == final(self).engine()
                    && #[trigger] call_ensures(E::new_float64, (e, ctx, bits), ret),
    {
        let ret: JSValue = self.engine.new_float64(ctx, bits);
        self.log = Ghost(self.log@.push(Exchange::NewFloat64 { ctx, bits, ret }));
        ret
    }

    pub fn new_string_len(&mut self, ctx: Address, bytes: &[u8]) -> (ret: JSValue)
        ensures
            final(self).log() == old(self).log().push(
                Exchange::NewStringLen { ctx, bytes: bytes@, ret },
            ),
            exists|e: &mut E|
                *e == old(self).engine() && *final(e) == final(self).engine()
                    && #[trigger] call_ensures(E::new_string_len, (e, ctx, bytes), ret),
    {
        let ret: JSValue = self.engine.new_string_len(ctx, bytes);
        self.log = Ghost(self.log@.push(Exchange::NewStringLen { ctx, bytes: bytes@, ret }));
        ret
    }

    pub fn new_object(&mut self, ctx: Address) -> (ret: JSValue)
        ensures
            final(self).log() == old(self).log().push(Exchange::NewObject { ctx, ret }),
            exists|e: &mut E|
                *e == old(self).engine() && *final(e) == final(self).engine()
                    && #[trigger] call_ensures(E::new_object, (e, ctx), ret),
    {
        let ret: JSValue = self.engine.new_object(ctx);
        self.log = Ghost(self.log@.push(Exchange::NewObject { ctx, ret }));
        ret
    }

    pub fn new_array(&mut self, ctx: Address) -> (ret: JSValue)
        ensures
            final(self).log() == old(self).log().push(Exchange::NewArray { ctx, ret }),
            exists|e: &mut E|
                *e == old(self).engine() && *final(e) == final(self).engine()
                    && #[trigger] call_ensures(E::new_array, (e, ctx), ret),
    {
        let ret: JSValue = self.engine.new_array(ctx);
        self.log = Ghost(self.log@.push(Exchange::NewArray { ctx, ret }));
        ret
    }

    pub fn new_array_buffer_copy(&mut self, ctx: Address, bytes: &[u8]) -> (ret: JSValue)
        ensures
            final(self).log() == old(self).log().push(
                Exchange::NewArrayBufferCopy { ctx, bytes: bytes@, ret },
            ),
            exists|e: &mut E|
                *e == old(self).engine() && *final(e) == final(self).engine()
                    && #[trigger] call_ensures(E::new_array_buffer_copy, (e, ctx, bytes), ret),
    {
        let ret: JSValue = self.engine.new_array_buffer_copy(ctx, bytes);
        self.log = Ghost(self.log@.push(Exchange::NewArrayBufferCopy { ctx, bytes: bytes@, ret }));
        ret
    }

    pub fn new_array_buffer_copy_t<T>(&mut self, ctx: Address, elements: &[T], len: usize) -> (ret:
        JSValue)
        ensures
            final(self).log() == old(self).log().push(
                Exchange::NewArrayBufferCopyT { ctx, count: elements@.len(), len, ret },
            ),
            exists|e: &mut E|
                *e == old(self).engine() && *final(e) == final(self).engine()
                    && #[trigger] call_ensures(
                    E::new_array_buffer_copy_t::<T>,
                    (e, ctx, elements, len),
                    ret,
                ),
    {
        let ret: JSValue = self.engine.new_array_buffer_copy_t(ctx, elements, len);
        self.log = Ghost(
            self.log@.push(
                Exchange::NewArrayBufferCopyT { ctx, count: elements@.len(), len, ret },
            ),
        );
        ret
    }

    pub fn new_c_function(
        &mut self,
        ctx: Address,
        callback: Address,
        name: &[u8],
        length: i32,
    ) -> (ret: JSValue)
        ensures
            final(self).log() == old(self).log().push(
                Exchange::NewCFunction { ctx, callback, name: name@, length, ret },
            ),
            exists|e: &mut E|
                *e == old(self).engine() && *final(e) == final(self).engine()
                    && #[trigger] call_ensures(
                    E::new_c_function,
                    (e, ctx, callback, name, length),
                    ret,
                ),
    {
        let ret: JSValue = self.engine.new_c_function(ctx, callback, name, length);
        self.log = Ghost(
            self.log@.push(Exchange::NewCFunction { ctx, callback, name: name@, length, ret }),
        );
        ret
    }

    pub fn new_error(&mut self, ctx: Address) -> (ret: JSValue)
        ensures
            final(self).log() == old(self).log().push(Exchange::NewError { ctx, ret }),
            exists|e: &mut E|
                *e == old(self).engine() && *final(e) == final(self).engine()
                    && #[trigger] call_ensures(E::new_error, (e, ctx), ret),
    {
        let ret: JSValue = self.engine.new_error(ctx);
        self.log = Ghost(self.log@.push(Exchange::NewError { ctx, ret }));
        ret
    }

    pub fn new_promise_capability(&mut self, ctx: Address) -> (ret: (JSValue, JSValue, JSValue))
        ensures
            final(self).log() == old(self).log().push(Exchange::NewPromiseCapability { ctx, ret }),
            exists|e: &mut E|
                *e == old(self).engine() && *final(e) == final(self).engine()
                    && #[trigger] call_ensures(E::new_promise_capability, (e, ctx), ret),
    {
        let ret: (JSValue, JSValue, JSValue) = self.engine.new_promise_capability(ctx);
        self.log = Ghost(self.log@.push(Exchange::NewPromiseCapability { ctx, ret }));
        ret
    }

    pub fn get_global_object(&mut self, ctx: Address) -> (ret: JSValue)
        ensures
            final(self).log() == old(self).log().push(Exchange::GetGlobalObject { ctx, ret }),
            exists|e: &mut E|
                *e == old(self).engine() && *final(e) == final(self).engine()
                    && #[trigger] call_ensures(E::get_global_object, (e, ctx), ret),
    {
        let ret: JSValue = self.engine.get_global_object(ctx);
        self.log = Ghost(self.log@.push(Exchange::GetGlobalObject { ctx, ret }));
        ret
    }

    pub fn throw(&mut self, ctx: Address, error: JSValue) -> (ret: JSValue)
        ensures
            final(self).log() == old(self).log().push(Exchange::Throw { ctx, error, ret }),
            exists|e: &mut E|
                *e == old(self).engine() && *final(e) == final(self).engine()
                    && #[trigger] call_ensures(E::throw, (e, ctx, error), ret),
    {
        let ret: JSValue = self.engine.throw(ctx, error);
        self.log = Ghost(self.log@.push(Exchange::Throw { ctx, error, ret }));
        ret
    }

    pub fn throw_type_error(&mut self, ctx: Address, message: &[u8]) -> (ret: JSValue)
        ensures
            final(self).log() == old(self).log().push(
                Exchange::ThrowTypeError { ctx, message: message@, ret },
            ),
            exists|e: &mut E|
                *e == old(self).engine() && *final(e) == final(self).engine()
                    && #[trigger] call_ensures(E::throw_type_error, (e, ctx, message), ret),
    {
        let ret: JSValue = self.engine.throw_type_error(ctx, message);
        self.log = Ghost(self.log@.push(Exchange::ThrowTypeError { ctx, message: message@, ret }));
        ret
    }

    pub fn throw_internal_error(&mut self, ctx: Address, message: &[u8]) -> (ret: JSValue)
        ensures
            final(self).log() == old(self).log().push(
                Exchange::ThrowInternalError { ctx, message: message@, ret },
            ),
            exists|e: &mut E|
                *e == old(self).engine() && *final(e) == final(self).engine()
                    && #[trigger] call_ensures(E::throw_internal_error, (e, ctx, message), ret),
    {
        let ret: JSValue = self.engine.throw_internal_error(ctx, message);
        self.log = Ghost(
            self.log@.push(Exchange::ThrowInternalError { ctx, message: message@, ret }),
        );
        ret
    }

    pub fn throw_reference_error(&mut self, ctx: Address, message: &[u8]) -> (ret: JSValue)
        ensures
            final(self).log() == old(self).log().push(
                Exchange::ThrowReferenceError { ctx, message: message@, ret },
            ),
            exists|e: &mut E|
                *e == old(self).engine() && *final(e) == final(self).engine()
                    && #[trigger] call_ensures(E::throw_reference_error, (e, ctx, message), ret),
    {
        let ret: JSValue = self.engine.throw_reference_error(ctx, message);
        self.log = Ghost(
            self.log@.push(Exchange::ThrowReferenceError { ctx, message: message@, ret }),
        );
        ret
    }

    pub fn throw_range_error(&mut self, ctx: Address, message: &[u8]) -> (ret: JSValue)
        ensures
            final(self).log() == old(self).log().push(
                Exchange::ThrowRangeError { ctx, message: message@, ret },
            ),
            exists|e: &mut E|
                *e == old(self).engine() && *final(e) == final(self).engine()
                    && #[trigger] call_ensures(E::throw_range_error, (e, ctx, message), ret),
    {
        let ret: JSValue = self.engine.throw_range_error(ctx, message);
        self.log = Ghost(self.log@.push(Exchange::ThrowRangeError { ctx, message: message@, ret }));
        ret
    }

    pub fn get_norm_tag(&mut self, v: JSValue) -> (ret: i32)
        ensures
            final(self).log() == old(self).log().push(Exchange::GetNormTag { v, ret }),
            exists|e: &mut E|
                *e == old(self).engine() && *final(e) == final(self).engine()
                    && #[trigger] call_ensures(E::get_norm_tag, (e, v), ret),
    {
        let ret: i32 = self.engine.get_norm_tag(v);
        self.log = Ghost(self.log@.push(Exchange::GetNormTag { v, ret }));
        ret
    }

    pub fn is_function(&mut self, ctx: Address, v: JSValue) -> (ret: i32)
        ensures
            final(self).log() == old(self).log().push(Exchange::IsFunction { ctx, v, ret }),
            exists|e: &mut E|
                *e == old(self).engine() && *final(e) == final(self).engine()
                    && #[trigger] call_ensures(E::is_function, (e, ctx, v), ret),
    {
        let ret: i32 = self.engine.is_function(ctx, v);
        self.log = Ghost(self.log@.push(Exchange::IsFunction { ctx, v, ret }));
        ret
    }

    pub fn is_array_buffer(&mut self, ctx: Address, v: JSValue) -> (ret: i32)
        ensures
            final(self).log() == old(self).log().push(Exchange::IsArrayBuffer { ctx, v, ret }),
            exists|e: &mut E|
                *e == old(self).engine() && *final(e) == final(self).engine()
                    && #[trigger] call_ensures(E::is_array_buffer, (e, ctx, v), ret),
    {
        let ret: i32 = self.engine.is_array_buffer(ctx, v);
        self.log = Ghost(self.log@.push(Exchange::IsArrayBuffer { ctx, v, ret }));
        ret
    }

    pub fn is_array(&mut self, ctx: Address, v: JSValue) -> (ret: i32)
        ensures
            final(self).log() == old(self).log().push(Exchange::IsArray { ctx, v, ret }),
            exists|e: &mut E|
                *e == old(self).engine() && *final(e) == final(self).engine()
                    && #[trigger] call_ensures(E::is_array, (e, ctx, v), ret),
    {
        let ret: i32 = self.engine.is_array(ctx, v);
        self.log = Ghost(self.log@.push(Exchange::IsArray { ctx, v, ret }));
        ret
    }

    pub fn is_promise(&mut self, ctx: Address, v: JSValue) -> (ret: i32)
        ensures
            final(self).log() == old(self).log().push(Exchange::IsPromise { ctx, v, ret }),
            exists|e: &mut E|
                *e == old(self).engine() && *final(e) == final(self).engine()
                    && #[trigger] call_ensures(E::is_promise, (e, ctx, v), ret),
    {
        let ret: i32 = self.engine.is_promise(ctx, v);
        self.log = Ghost(self.log@.push(Exchange::IsPromise { ctx, v, ret }));
        ret
    }

    pub fn to_bool(&mut self, ctx: Address, v: JSValue) -> (ret: i32)
        ensures
            final(self).log() == old(self).log().push(Exchange::ToBool { ctx, v, ret }),
            exists|e: &mut E|
                *e == old(self).engine() && *final(e) == final(self).engine()
                    && #[trigger] call_ensures(E::to_bool, (e, ctx, v), ret),
    {
        let ret: i32 = self.engine.to_bool(ctx, v);
        self.log = Ghost(self.log@.push(Exchange::ToBool { ctx, v, ret }));
        ret
    }

    pub fn to_int32(&mut self, ctx: Address, v: JSValue) -> (ret: i32)
        ensures
            final(self).log() == old(self).log().push(Exchange::ToInt32 { ctx, v, ret }),
            exists|e: &mut E|
                *e == old(self).engine() && *final(e) == final(self).engine()
                    && #[trigger] call_ensures(E::to_int32, (e, ctx, v), ret),
    {
        let ret: i32 = self.engine.to_int32(ctx, v);
        self.log = Ghost(self.log@.push(Exchange::ToInt32 { ctx, v, ret }));
        ret
    }

    pub fn to_uint32(&mut self, ctx: Address, v: JSValue) -> (ret: u32)
        ensures
            final(self).log() == old(self).log().push(Exchange::ToUint32 { ctx, v, ret }),
            exists|e: &mut E|
                *e == old(self).engine() && *final(e) == final(self).engine()
                    && #[trigger] call_ensures(E::to_uint32, (e, ctx, v), ret),
    {
        let ret: u32 = self.engine.to_uint32(ctx, v);
        self.log = Ghost(self.log@.push(Exchange::ToUint32 { ctx, v, ret }));
        ret
    }

    pub fn to_float64(&mut self, ctx: Address, v: JSValue) -> (ret: u64)
        ensures
            final(self).log() == old(self).log().push(Exchange::ToFloat64 { ctx, v, ret }),
            exists|e: &mut E|
                *e == old(self).engine() && *final(e) == final(self).engine()
                    && #[trigger] call_ensures(E::to_float64, (e, ctx, v), ret),
    {
        let ret: u64 = self.engine.to_float64(ctx, v);
        self.log = Ghost(self.log@.push(Exchange::ToFloat64 { ctx, v, ret }));
        ret
    }

    pub fn to_big_int64(&mut self, ctx: Address, v: JSValue) -> (ret: i64)
        ensures
            final(self).log() == old(self).log().push(Exchange::ToBigInt64 { ctx, v, ret }),
            exists|e: &mut E|
                *e == old(self).engine() && *final(e) == final(self).engine()
                    && #[trigger] call_ensures(E::to_big_int64, (e, ctx, v), ret),
    {
        let ret: i64 = self.engine.to_big_int64(ctx, v);
        self.log = Ghost(self.log@.push(Exchange::ToBigInt64 { ctx, v, ret }));
        ret
    }

    pub fn to_string(&mut self, ctx: Address, v: JSValue) -> (ret: JSValue)
        ensures
            final(self).log() == old(self).log().push(Exchange::ToString { ctx, v, ret }),
            exists|e: &mut E|
                *e == old(self).engine() && *final(e) == final(self).engine()
                    && #[trigger] call_ensures(E::to_string, (e, ctx, v), ret),
    {
        let ret: JSValue = self.engine.to_string(ctx, v);
        self.log = Ghost(self.log@.push(Exchange::ToString { ctx, v, ret }));
        ret
    }

    pub fn get_promise_result(&mut self, ctx: Address, v: JSValue) -> (ret: JSValue)
        ensures
            final(self).log() == old(self).log().push(Exchange::GetPromiseResult { ctx, v, ret }),
            exists|e: &mut E|
                *e == old(self).engine() && *final(e) == final(self).engine()
                    && #[trigger] call_ensures(E::get_promise_result, (e, ctx, v), ret),
    {
        let ret: JSValue = self.engine.get_promise_result(ctx, v);
        self.log = Ghost(self.log@.push(Exchange::GetPromiseResult { ctx, v, ret }));
        ret
    }

    pub fn to_c_string(&mut self, ctx: Address, v: JSValue) -> (ret: Address)
        ensures
            final(self).log() == old(self).log().push(Exchange::ToCString { ctx, v, ret }),
            exists|e: &mut E|
                *e == old(self).engine() && *final(e) == final(self).engine()
                    && #[trigger] call_ensures(E::to_c_string, (e, ctx, v), ret),
    {
        let ret: Address = self.engine.to_c_string(ctx, v);
        self.log = Ghost(self.log@.push(Exchange::ToCString { ctx, v, ret }));
        ret
    }

    pub fn read_c_string(&mut self, text: Address) -> (ret: Vec<u8>)
        ensures
            final(self).log() == old(self).log().push(Exchange::ReadCString { text, ret: ret@ }),
            exists|e: &mut E|
                *e == old(self).engine() && *final(e) == final(self).engine()
                    && #[trigger] call_ensures(E::read_c_string, (e, text), ret),
    {
        let ret: Vec<u8> = self.engine.read_c_string(text);
        self.log = Ghost(self.log@.push(Exchange::ReadCString { text, ret: ret@ }));
        ret
    }

    pub fn free_c_string(&mut self, ctx: Address, text: Address)
        ensures
            final(self).log() == old(self).log().push(Exchange::FreeCString { ctx, text }),
            exists|e: &mut E|
                *e == old(self).engine() && *final(e) == final(self).engine()
                    && #[trigger] call_ensures(E::free_c_string, (e, ctx, text), ()),
    {
        self.engine.free_c_string(ctx, text);
        self.log = Ghost(self.log@.push(Exchange::FreeCString { ctx, text }));
    }

    pub fn get_array_buffer(&mut self, ctx: Address, v: JSValue) -> (ret: (Address, usize))
        ensures
            final(self).log() == old(self).log().push(Exchange::GetArrayBuffer { ctx, v, ret }),
            exists|e: &mut E|
                *e == old(self).engine() && *final(e) == final(self).engine()
                    && #[trigger] call_ensures(E::get_array_buffer, (e, ctx, v), ret),
    {
        let ret: (Address, usize) = self.engine.get_array_buffer(ctx, v);
        self.log = Ghost(self.log@.push(Exchange::GetArrayBuffer { ctx, v, ret }));
        ret
    }

    pub fn read_byte(&mut self, base: Address, offset: usize) -> (ret: u8)
        ensures
            final(self).log() == old(self).log().push(Exchange::ReadByte { base, offset, ret }),
            exists|e: &mut E|
                *e == old(self).engine() && *final(e) == final(self).engine()
                    && #[trigger] call_ensures(E::read_byte, (e, base, offset), ret),
    {
        let ret: u8 = self.engine.read_byte(base, offset);
        self.log = Ghost(self.log@.push(Exchange::ReadByte { base, offset, ret }));
        ret
    }

    pub fn read_value(&mut self, base: Address, index: i32) -> (ret: JSValue)
        ensures
            final(self).log() == old(self).log().push(Exchange::ReadValue { base, index, ret }),
            exists|e: &mut E|
                *e == old(self).engine() && *final(e) == final(self).engine()
                    && #[trigger] call_ensures(E::read_value, (e, base, index), ret),
    {
        let ret: JSValue = self.engine.read_value(base, index);
        self.log = Ghost(self.log@.push(Exchange::ReadValue { base, index, ret }));
        ret
    }

    pub fn dup_value(&mut self, ctx: Address, v: JSValue) -> (ret: JSValue)
        ensures
            final(self).log() == old(self).log().push(Exchange::DupValue { ctx, v, ret }),
            exists|e: &mut E|
                *e == old(self).engine() && *final(e) == final(self).engine()
                    && #[trigger] call_ensures(E::dup_value, (e, ctx, v), ret),
    {
        let ret: JSValue = self.engine.dup_value(ctx, v);
        self.log = Ghost(self.log@.push(Exchange::DupValue { ctx, v, ret }));
        ret
    }

    pub fn free_value(&mut self, ctx: Address, v: JSValue)
        ensures
            final(self).log() == old(self).log().push(Exchange::FreeValue { ctx, v }),
            exists|e: &mut E|
                *e == old(self).engine() && *final(e) == final(self).engine()
                    && #[trigger] call_ensures(E::free_value, (e, ctx, v), ()),
    {
        self.engine.free_value(ctx, v);
        self.log = Ghost(self.log@.push(Exchange::FreeValue { ctx, v }));
    }

    pub fn get_property_str(&mut self, ctx: Address, obj: JSValue, key: &[u8]) -> (ret: JSValue)
        ensures
            final(self).log() == old(self).log().push(
                Exchange::GetPropertyStr { ctx, obj, key: key@, ret },
            ),
            exists|e: &mut E|
                *e == old(self).engine() && *final(e) == final(self).engine()
                    && #[trigger] call_ensures(E::get_property_str, (e, ctx, obj, key), ret),
    {
        let ret: JSValue = self.engine.get_property_str(ctx, obj, key);
        self.log = Ghost(self.log@.push(Exchange::GetPropertyStr { ctx, obj, key: key@, ret }));
        ret
    }

    pub fn set_property_str(
        &mut self,
        ctx: Address,
        obj: JSValue,
        key: &[u8],
        value: JSValue,
    ) -> (ret: i32)
        ensures
            final(self).log() == old(self).log().push(
                Exchange::SetPropertyStr { ctx, obj, key: key@, value, ret },
            ),
            exists|e: &mut E|
                *e == old(self).engine() && *final(e) == final(self).engine()
                    && #[trigger] call_ensures(E::set_property_str, (e, ctx, obj, key, value), ret),
    {
        let ret: i32 = self.engine.set_property_str(ctx, obj, key, value);
        self.log = Ghost(
            self.log@.push(Exchange::SetPropertyStr { ctx, obj, key: key@, value, ret }),
        );
        ret
    }

    pub fn get_property_uint32(&mut self, ctx: Address, obj: JSValue, index: u32) -> (ret: JSValue)
        ensures
            final(self).log() == old(self).log().push(
                Exchange::GetPropertyUint32 { ctx, obj, index, ret },
            ),
            exists|e: &mut E|
                *e == old(self).engine() && *final(e) == final(self).engine()
                    && #[trigger] call_ensures(E::get_property_uint32, (e, ctx, obj, index), ret),
    {
        let ret: JSValue = self.engine.get_property_uint32(ctx, obj, index);
        self.log = Ghost(self.log@.push(Exchange::GetPropertyUint32 { ctx, obj, index, ret }));
        ret
    }

    pub fn set_property_uint32(&mut self, ctx: Address, obj: JSValue, index: u32, value: JSValue)
        ensures
            final(self).log() == old(self).log().push(
                Exchange::SetPropertyUint32 { ctx, obj, index, value },
            ),
            exists|e: &mut E|
                *e == old(self).engine() && *final(e) == final(self).engine()
                    && #[trigger] call_ensures(
                    E::set_property_uint32,
                    (e, ctx, obj, index, value),
                    (),
                ),
    {
        self.engine.set_property_uint32(ctx, obj, index, value);
        self.log = Ghost(self.log@.push(Exchange::SetPropertyUint32 { ctx, obj, index, value }));
    }

    pub fn get_property_internal(
        &mut self,
        ctx: Address,
        obj: JSValue,
        prop: JSAtom,
        receiver: JSValue,
        throw_ref_error: i32,
    ) -> (ret: JSValue)
        ensures
            final(self).log() == old(self).log().push(
                Exchange::GetPropertyInternal { ctx, obj, prop, receiver, throw_ref_error, ret },
            ),
            exists|e: &mut E|
                *e == old(self).engine() && *final(e) == final(self).engine()
                    && #[trigger] call_ensures(
                    E::get_property_internal,
                    (e, ctx, obj, prop, receiver, throw_ref_error),
                    ret,
                ),
    {
        let ret: JSValue = self.engine.get_property_internal(ctx, obj, prop, receiver, throw_ref_error);
        self.log = Ghost(
            self.log@.push(Exchange::GetPropertyInternal { ctx, obj, prop, receiver, throw_ref_error, ret }),
        );
        ret
    }

    pub fn define_property(
        &mut self,
        ctx: Address,
        obj: JSValue,
        prop: JSAtom,
        value: JSValue,
        getter: JSValue,
        setter: JSValue,
        flags: i32,
    )
        ensures
            final(self).log() == old(self).log().push(
                Exchange::DefineProperty { ctx, obj, prop, value, getter, setter, flags },
            ),
            exists|e: &mut E|
                *e == old(self).engine() && *final(e) == final(self).engine()
                    && #[trigger] call_ensures(
                    E::define_property,
                    (e, ctx, obj, prop, value, getter, setter, flags),
                    (),
                ),
    {
        self.engine.define_property(ctx, obj, prop, value, getter, setter, flags);
        self.log = Ghost(
            self.log@.push(Exchange::DefineProperty { ctx, obj, prop, value, getter, setter, flags }),
        );
    }

    pub fn delete_property(&mut self, ctx: Address, obj: JSValue, prop: JSAtom, flags: i32)
        ensures
            final(self).log() == old(self).log().push(
                Exchange::DeleteProperty { ctx, obj, prop, flags },
            ),
            exists|e: &mut E|
                *e == old(self).engine() && *final(e) == final(self).engine()
                    && #[trigger] call_ensures(E::delete_property, (e, ctx, obj, prop, flags), ()),
    {
        self.engine.delete_property(ctx, obj, prop, flags);
        self.log = Ghost(self.log@.push(Exchange::DeleteProperty { ctx, obj, prop, flags }));
    }

    pub fn get_own_property_names(
        &mut self,
        ctx: Address,
        obj: JSValue,
        flags: i32,
    ) -> (ret: (i32, Address, u32))
        ensures
            final(self).log() == old(self).log().push(
                Exchange::GetOwnPropertyNames { ctx, obj, flags, ret },
            ),
            exists|e: &mut E|
                *e == old(self).engine() && *final(e) == final(self).engine()
                    && #[trigger] call_ensures(
                    E::get_own_property_names,
                    (e, ctx, obj, flags),
                    ret,
                ),
    {
        let ret: (i32, Address, u32) = self.engine.get_own_property_names(ctx, obj, flags);
        self.log = Ghost(self.log@.push(Exchange::GetOwnPropertyNames { ctx, obj, flags, ret }));
        ret
    }

    pub fn read_property_atom(&mut self, table: Address, index: u32) -> (ret: JSAtom)
        ensures
            final(self).log() == old(self).log().push(
                Exchange::ReadPropertyAtom { table, index, ret },
            ),
            exists|e: &mut E|
                *e == old(self).engine() && *final(e) == final(self).engine()
                    && #[trigger] call_ensures(E::read_property_atom, (e, table, index), ret),
    {
        let ret: JSAtom = self.engine.read_property_atom(table, index);
        self.log = Ghost(self.log@.push(Exchange::ReadPropertyAtom { table, index, ret }));
        ret
    }

    pub fn js_free(&mut self, ctx: Address, memory: Address)
        ensures
            final(self).log() == old(self).log().push(Exchange::JsFree { ctx, memory }),
            exists|e: &mut E|
                *e == old(self).engine() && *final(e) == final(self).engine()
                    && #[trigger] call_ensures(E::js_free, (e, ctx, memory), ()),
    {
        self.engine.js_free(ctx, memory);
        self.log = Ghost(self.log@.push(Exchange::JsFree { ctx, memory }));
    }

    pub fn new_atom(&mut self, ctx: Address, name: &[u8]) -> (ret: JSAtom)
        ensures
            final(self).log() == old(self).log().push(Exchange::NewAtom { ctx, name: name@, ret }),
            exists|e: &mut E|
                *e == old(self).engine() && *final(e) == final(self).engine()
                    && #[trigger] call_ensures(E::new_atom, (e, ctx, name), ret),
    {
        let ret: JSAtom = self.engine.new_atom(ctx, name);
        self.log = Ghost(self.log@.push(Exchange::NewAtom { ctx, name: name@, ret }));
        ret
    }

    pub fn free_atom(&mut self, ctx: Address, atom: JSAtom)
        ensures
            final(self).log() == old(self).log().push(Exchange::FreeAtom { ctx, atom }),
            exists|e: &mut E|
                *e == old(self).engine() && *final(e) == final(self).engine()
                    && #[trigger] call_ensures(E::free_atom, (e, ctx, atom), ()),
    {
        self.engine.free_atom(ctx, atom);
        self.log = Ghost(self.log@.push(Exchange::FreeAtom { ctx, atom }));
    }

    pub fn atom_to_value(&mut self, ctx: Address, atom: JSAtom) -> (ret: JSValue)
        ensures
            final(self).log() == old(self).log().push(Exchange::AtomToValue { ctx, atom, ret }),
            exists|e: &mut E|
                *e == old(self).engine() && *final(e) == final(self).engine()
                    && #[trigger] call_ensures(E::atom_to_value, (e, ctx, atom), ret),
    {
        let ret: JSValue = self.engine.atom_to_value(ctx, atom);
        self.log = Ghost(self.log@.push(Exchange::AtomToValue { ctx, atom, ret }));
        ret
    }

    pub fn atom_to_string(&mut self, ctx: Address, atom: JSAtom) -> (ret: JSValue)
        ensures
            final(self).log() == old(self).log().push(Exchange::AtomToString { ctx, atom, ret }),
            exists|e: &mut E|
                *e == old(self).engine() && *final(e) == final(self).engine()
                    && #[trigger] call_ensures(E::atom_to_string, (e, ctx, atom), ret),
    {
        let ret: JSValue = self.engine.atom_to_string(ctx, atom);
        self.log = Ghost(self.log@.push(Exchange::AtomToString { ctx, atom, ret }));
        ret
    }
}

} // verus!
