//! The library against a small stand-in for the engine, which keeps a heap with reference counts
//! and writes down every call.
use std::cell::RefCell;
use std::collections::HashMap;
use std::rc::Rc;

use quickjs_sys::array::to_u32;
use quickjs_sys::cjs::{get_file_name, js_init_cjs, CjsCallbacks, JsDirName, JsRequire};
use quickjs_sys::constants::{
    JS_EVAL_TYPE_GLOBAL, JS_EVAL_TYPE_MODULE, JS_TAG_BIG_DECIMAL, JS_TAG_BIG_FLOAT, JS_TAG_BIG_INT,
    JS_TAG_BOOL, JS_TAG_EXCEPTION, JS_TAG_FLOAT64, JS_TAG_FUNCTION_BYTECODE, JS_TAG_INT,
    JS_TAG_MODULE, JS_TAG_NULL, JS_TAG_OBJECT, JS_TAG_STRING, JS_TAG_SYMBOL, JS_TAG_UNDEFINED,
};
use quickjs_sys::context::Context;
use quickjs_sys::engine::{Address, Engine, JSAtom, JSValue, Session};
use quickjs_sys::function::{JsFn, JsFunctionTrampoline};
use quickjs_sys::value::{
    needs_free, release_all, JsArray, JsArrayBuffer, JsBigNum, JsException, JsFunction,
    JsFunctionByteCode, JsModule, JsObject, JsPromise, JsRef, JsString, JsValue, Probe,
};

const CTX: Address = 7;

#[derive(Default)]
struct Cell {
    tag: i32,
    kind: &'static str,
    number: i32,
    bits: u64,
    big: i64,
    text: Option<Vec<u8>>,
    bytes: Vec<u8>,
    props: Vec<(String, JSValue)>,
    refs: i64,
}

#[derive(Default)]
struct World {
    log: Vec<String>,
    cells: Vec<Cell>,
    atoms: Vec<String>,
    atom_refs: i64,
    tables: Vec<Vec<JSAtom>>,
    open_tables: i64,
    open_texts: i64,
    texts: Vec<Vec<u8>>,
    buffers: Vec<Vec<u8>>,
    argv: Vec<JSValue>,
    file: JSAtom,
    global: JSValue,
    set_status: i32,
    names_status: i32,
    results: Vec<JSValue>,
    modules: HashMap<String, JSValue>,
    bad_names: Vec<String>,
    plain_names: Vec<String>,
    error_is_object: bool,
}

fn counted(tag: i32) -> bool {
    [
        JS_TAG_STRING,
        JS_TAG_OBJECT,
        JS_TAG_FUNCTION_BYTECODE,
        JS_TAG_BIG_INT,
        JS_TAG_BIG_FLOAT,
        JS_TAG_BIG_DECIMAL,
        JS_TAG_SYMBOL,
    ]
    .contains(&tag)
}

fn shown(bytes: &[u8]) -> String {
    match bytes.split_last() {
        Some((0, rest)) => format!("{}\\0", String::from_utf8_lossy(rest)),
        _ => String::from_utf8_lossy(bytes).to_string(),
    }
}

fn plain(bytes: &[u8]) -> String {
    String::from_utf8_lossy(&bytes[..bytes.len() - 1]).to_string()
}

impl World {
    fn say(&mut self, text: String) {
        self.log.push(text);
    }

    fn add(&mut self, cell: Cell) -> JSValue {
        self.cells.push(cell);
        (self.cells.len() - 1) as JSValue
    }

    fn tagged(&mut self, tag: i32) -> JSValue {
        self.add(Cell { tag, refs: 1, ..Cell::default() })
    }

    fn object(&mut self, kind: &'static str) -> JSValue {
        self.add(Cell { tag: JS_TAG_OBJECT, kind, refs: 1, ..Cell::default() })
    }

    fn string(&mut self, text: &str) -> JSValue {
        let text = Some(text.as_bytes().to_vec());
        self.add(Cell { tag: JS_TAG_STRING, text, refs: 1, ..Cell::default() })
    }

    fn number(&mut self, value: i32) -> JSValue {
        self.add(Cell { tag: JS_TAG_INT, number: value, refs: 1, ..Cell::default() })
    }

    fn put(&mut self, obj: JSValue, key: &str, value: JSValue) {
        self.drop_prop(obj, key);
        self.cells[obj as usize].props.push((key.to_string(), value));
    }

    fn drop_prop(&mut self, obj: JSValue, key: &str) {
        let props = &mut self.cells[obj as usize].props;
        if let Some(at) = props.iter().position(|p| p.0 == key) {
            let (_, old) = props.remove(at);
            self.cells[old as usize].refs -= 1;
        }
    }

    fn fetch(&mut self, obj: JSValue, key: &str) -> JSValue {
        let found = self.cells[obj as usize].props.iter().find(|p| p.0 == key).map(|p| p.1);
        match found {
            Some(v) => {
                self.cells[v as usize].refs += 1;
                v
            }
            None => self.tagged(JS_TAG_UNDEFINED),
        }
    }

    fn result(&mut self) -> JSValue {
        if self.results.is_empty() {
            self.tagged(JS_TAG_UNDEFINED)
        } else {
            self.results.remove(0)
        }
    }

    fn atom(&mut self, name: &str) -> JSAtom {
        if self.atoms.is_empty() {
            self.atoms.push(String::new());
        }
        self.atom_refs += 1;
        self.atoms.push(name.to_string());
        (self.atoms.len() - 1) as JSAtom
    }

    fn refs(&self, v: JSValue) -> i64 {
        self.cells[v as usize].refs
    }
}

#[derive(Clone)]
struct Fake(Rc<RefCell<World>>);

impl Fake {
    fn new() -> (Fake, Session<Fake>) {
        let fake = Fake(Rc::new(RefCell::new(World::default())));
        fake.0.borrow_mut().error_is_object = true;
        let session = Session::new(fake.clone());
        (fake, session)
    }

    fn take_log(&self) -> Vec<String> {
        std::mem::take(&mut self.0.borrow_mut().log)
    }

    fn with<T>(&self, f: impl FnOnce(&mut World) -> T) -> T {
        f(&mut self.0.borrow_mut())
    }
}

impl Engine for Fake {
    fn new_runtime(&mut self) -> Address {
        self.with(|w| w.say(format!("new_runtime")));
        3
    }
    fn set_module_loader(&mut self, rt: Address) {
        self.with(|w| w.say(format!("set_module_loader {}", rt)));
    }
    fn std_init_handlers(&mut self, rt: Address) {
        self.with(|w| w.say(format!("std_init_handlers {}", rt)));
    }
    fn new_context(&mut self, rt: Address) -> Address {
        self.with(|w| w.say(format!("new_context {}", rt)));
        CTX
    }
    fn add_intrinsic_big_float(&mut self, ctx: Address) {
        self.with(|w| w.say(format!("add_intrinsic_big_float {}", ctx)));
    }
    fn add_intrinsic_big_decimal(&mut self, ctx: Address) {
        self.with(|w| w.say(format!("add_intrinsic_big_decimal {}", ctx)));
    }
    fn add_intrinsic_operators(&mut self, ctx: Address) {
        self.with(|w| w.say(format!("add_intrinsic_operators {}", ctx)));
    }
    fn enable_bignum_ext(&mut self, ctx: Address, enable: i32) {
        self.with(|w| w.say(format!("enable_bignum_ext {} {}", ctx, enable)));
    }
    fn std_add_console(&mut self, ctx: Address) {
        self.with(|w| w.say(format!("std_add_console {}", ctx)));
    }
    fn init_module_std(&mut self, ctx: Address, name: &[u8]) {
        self.with(|w| w.say(format!("init_module_std {} {}", ctx, shown(name))));
    }
    fn init_module_os(&mut self, ctx: Address, name: &[u8]) {
        self.with(|w| w.say(format!("init_module_os {} {}", ctx, shown(name))));
    }
    fn get_runtime(&mut self, ctx: Address) -> Address {
        self.with(|w| w.say(format!("get_runtime {}", ctx)));
        3
    }
    fn std_free_handlers(&mut self, rt: Address) {
        self.with(|w| w.say(format!("std_free_handlers {}", rt)));
    }
    fn free_context(&mut self, ctx: Address) {
        self.with(|w| w.say(format!("free_context {}", ctx)));
    }
    fn free_runtime(&mut self, rt: Address) {
        self.with(|w| w.say(format!("free_runtime {}", rt)));
    }
    fn eval(
        &mut self,
        ctx: Address,
        code: &[u8],
        len: usize,
        filename: &[u8],
        flags: i32,
    ) -> JSValue {
        self.with(|w| {
            w.say(format!("eval {} {} {} {} {}", ctx, shown(code), len, shown(filename), flags));
            w.result()
        })
    }
    fn eval_function(&mut self, ctx: Address, function: JSValue) -> JSValue {
        self.with(|w| {
            w.say(format!("eval_function {} {}", ctx, function));
            w.result()
        })
    }
    fn is_exception(&mut self, v: JSValue) -> i32 {
        self.with(|w| {
            w.say(format!("is_exception {}", v));
            if w.cells[v as usize].tag == JS_TAG_EXCEPTION {
                1
            } else {
                0
            }
        })
    }
    fn std_dump_error(&mut self, ctx: Address) {
        self.with(|w| w.say(format!("std_dump_error {}", ctx)));
    }
    fn std_loop(&mut self, ctx: Address) {
        self.with(|w| w.say(format!("std_loop {}", ctx)));
    }
    fn call(
        &mut self,
        ctx: Address,
        function: JSValue,
        this: JSValue,
        argc: i32,
        argv: &[JSValue],
    ) -> JSValue {
        self.with(|w| {
            let this = w.cells[this as usize].tag;
            w.say(format!("call {} {} tag{} {} {:?}", ctx, function, this, argc, argv));
            w.result()
        })
    }
    fn invoke(
        &mut self,
        ctx: Address,
        this: JSValue,
        name: JSAtom,
        argc: i32,
        argv: &[JSValue],
    ) -> JSValue {
        self.with(|w| {
            let name = w.atoms[name as usize].clone();
            w.say(format!("invoke {} {} {} {} {:?}", ctx, this, name, argc, argv));
            w.result()
        })
    }
    fn require(&mut self, ctx: Address, specifier: JSValue) -> JSValue {
        self.with(|w| {
            let text = w.cells[specifier as usize].text.clone().unwrap();
            let name = String::from_utf8(text).unwrap();
            w.say(format!("require {} {}", ctx, name));
            match w.modules.get(&name).copied() {
                Some(v) => v,
                None => w.tagged(JS_TAG_EXCEPTION),
            }
        })
    }
    fn get_script_or_module_name(&mut self, ctx: Address, level: i32) -> JSAtom {
        self.with(|w| {
            w.say(format!("get_script_or_module_name {} {}", ctx, level));
            w.file
        })
    }
    fn undefined(&mut self) -> JSValue {
        self.with(|w| {
            w.say(format!("undefined"));
            w.tagged(JS_TAG_UNDEFINED)
        })
    }
    fn null(&mut self) -> JSValue {
        self.with(|w| {
            w.say(format!("null"));
            w.tagged(JS_TAG_NULL)
        })
    }
    fn exception(&mut self) -> JSValue {
        self.with(|w| {
            w.say(format!("exception"));
            w.tagged(JS_TAG_EXCEPTION)
        })
    }
    fn new_bool(&mut self, ctx: Address, value: i32) -> JSValue {
        self.with(|w| {
            w.say(format!("new_bool {} {}", ctx, value));
            w.add(Cell { tag: JS_TAG_BOOL, number: value, ..Cell::default() })
        })
    }
    fn new_int32(&mut self, ctx: Address, value: i32) -> JSValue {
        self.with(|w| {
            w.say(format!("new_int32 {} {}", ctx, value));
            w.number(value)
        })
    }
    fn new_int64(&mut self, ctx: Address, value: i64) -> JSValue {
        self.with(|w| {
            w.say(format!("new_int64 {} {}", ctx, value));
            w.number(value as i32)
        })
    }
    fn new_float64(&mut self, ctx: Address, bits: u64) -> JSValue {
        self.with(|w| {
            w.say(format!("new_float64 {} {}", ctx, f64::from_bits(bits)));
            w.add(Cell { tag: JS_TAG_FLOAT64, bits, ..Cell::default() })
        })
    }
    fn new_string_len(&mut self, ctx: Address, bytes: &[u8]) -> JSValue {
        self.with(|w| {
            w.say(format!("new_string_len {} {}", ctx, shown(bytes)));
            w.string(&String::from_utf8(bytes.to_vec()).unwrap())
        })
    }
    fn new_object(&mut self, ctx: Address) -> JSValue {
        self.with(|w| {
            w.say(format!("new_object {}", ctx));
            w.object("object")
        })
    }
    fn new_array(&mut self, ctx: Address) -> JSValue {
        self.with(|w| {
            w.say(format!("new_array {}", ctx));
            w.object("array")
        })
    }
    fn new_array_buffer_copy(&mut self, ctx: Address, bytes: &[u8]) -> JSValue {
        self.with(|w| {
            w.say(format!("new_array_buffer_copy {} {:?}", ctx, bytes));
            let v = w.object("buffer");
            w.cells[v as usize].bytes = bytes.to_vec();
            v
        })
    }
    fn new_array_buffer_copy_t<T>(&mut self, ctx: Address, elements: &[T], len: usize) -> JSValue {
        self.with(|w| {
            w.say(format!("new_array_buffer_copy_t {} {} {}", ctx, elements.len(), len));
            w.object("buffer")
        })
    }
    fn new_c_function(
        &mut self,
        ctx: Address,
        callback: Address,
        name: &[u8],
        length: i32,
    ) -> JSValue {
        self.with(|w| {
            w.say(format!("new_c_function {} {} {} {}", ctx, callback, shown(name), length));
            w.object("function")
        })
    }
    fn new_error(&mut self, ctx: Address) -> JSValue {
        self.with(|w| {
            w.say(format!("new_error {}", ctx));
            if w.error_is_object {
                w.object("object")
            } else {
                w.tagged(JS_TAG_EXCEPTION)
            }
        })
    }
    fn new_promise_capability(&mut self, ctx: Address) -> (JSValue, JSValue, JSValue) {
        self.with(|w| {
            w.say(format!("new_promise_capability {}", ctx));
            (w.object("promise"), w.object("function"), w.object("function"))
        })
    }
    fn get_global_object(&mut self, ctx: Address) -> JSValue {
        self.with(|w| {
            w.say(format!("get_global_object {}", ctx));
            let g = w.global;
            w.cells[g as usize].refs += 1;
            g
        })
    }
    fn throw(&mut self, ctx: Address, error: JSValue) -> JSValue {
        self.with(|w| {
            w.say(format!("throw {} {}", ctx, error));
            w.tagged(JS_TAG_EXCEPTION)
        })
    }
    fn throw_type_error(&mut self, ctx: Address, message: &[u8]) -> JSValue {
        self.with(|w| {
            w.say(format!("throw_type_error {} {}", ctx, shown(message)));
            w.tagged(JS_TAG_EXCEPTION)
        })
    }
    fn throw_internal_error(&mut self, ctx: Address, message: &[u8]) -> JSValue {
        self.with(|w| {
            w.say(format!("throw_internal_error {} {}", ctx, shown(message)));
            w.tagged(JS_TAG_EXCEPTION)
        })
    }
    fn throw_reference_error(&mut self, ctx: Address, message: &[u8]) -> JSValue {
        self.with(|w| {
            w.say(format!("throw_reference_error {} {}", ctx, shown(message)));
            w.tagged(JS_TAG_EXCEPTION)
        })
    }
    fn throw_range_error(&mut self, ctx: Address, message: &[u8]) -> JSValue {
        self.with(|w| {
            w.say(format!("throw_range_error {} {}", ctx, shown(message)));
            w.tagged(JS_TAG_EXCEPTION)
        })
    }
    fn get_norm_tag(&mut self, v: JSValue) -> i32 {
        self.with(|w| {
            w.say(format!("tag {}", v));
            w.cells[v as usize].tag
        })
    }
    fn is_function(&mut self, ctx: Address, v: JSValue) -> i32 {
        self.with(|w| {
            w.say(format!("is_function {} {}", ctx, v));
            if w.cells[v as usize].kind == "function" { 1 } else { 0 }
        })
    }
    fn is_array_buffer(&mut self, ctx: Address, v: JSValue) -> i32 {
        self.with(|w| {
            w.say(format!("is_array_buffer {} {}", ctx, v));
            if w.cells[v as usize].kind == "buffer" { 1 } else { 0 }
        })
    }
    fn is_array(&mut self, ctx: Address, v: JSValue) -> i32 {
        self.with(|w| {
            w.say(format!("is_array {} {}", ctx, v));
            if w.cells[v as usize].kind == "array" { 1 } else { 0 }
        })
    }
    fn is_promise(&mut self, ctx: Address, v: JSValue) -> i32 {
        self.with(|w| {
            w.say(format!("is_promise {} {}", ctx, v));
            if w.cells[v as usize].kind == "promise" { 1 } else { 0 }
        })
    }
    fn to_bool(&mut self, ctx: Address, v: JSValue) -> i32 {
        self.with(|w| {
            w.say(format!("to_bool {} {}", ctx, v));
            w.cells[v as usize].number
        })
    }
    fn to_int32(&mut self, ctx: Address, v: JSValue) -> i32 {
        self.with(|w| {
            w.say(format!("to_int32 {} {}", ctx, v));
            w.cells[v as usize].number
        })
    }
    fn to_uint32(&mut self, ctx: Address, v: JSValue) -> u32 {
        self.with(|w| {
            w.say(format!("to_uint32 {} {}", ctx, v));
            w.cells[v as usize].number as u32
        })
    }
    fn to_float64(&mut self, ctx: Address, v: JSValue) -> u64 {
        self.with(|w| {
            w.say(format!("to_float64 {} {}", ctx, v));
            w.cells[v as usize].bits
        })
    }
    fn to_big_int64(&mut self, ctx: Address, v: JSValue) -> i64 {
        self.with(|w| {
            w.say(format!("to_big_int64 {} {}", ctx, v));
            w.cells[v as usize].big
        })
    }
    fn to_string(&mut self, ctx: Address, v: JSValue) -> JSValue {
        self.with(|w| {
            w.say(format!("to_string {} {}", ctx, v));
            let text = format!("{}", w.cells[v as usize].number);
            w.string(&text)
        })
    }
    fn get_promise_result(&mut self, ctx: Address, v: JSValue) -> JSValue {
        self.with(|w| {
            w.say(format!("get_promise_result {} {}", ctx, v));
            w.result()
        })
    }
    fn to_c_string(&mut self, ctx: Address, v: JSValue) -> Address {
        self.with(|w| {
            w.say(format!("to_c_string {} {}", ctx, v));
            match w.cells[v as usize].text.clone() {
                None => 0,
                Some(text) => {
                    w.open_texts += 1;
                    w.texts.push(text);
                    w.texts.len()
                }
            }
        })
    }
    fn read_c_string(&mut self, text: Address) -> Vec<u8> {
        self.with(|w| {
            w.say(format!("read_c_string {}", text));
            let bytes = &w.texts[text - 1];
            bytes.iter().copied().take_while(|b| *b != 0).collect()
        })
    }
    fn free_c_string(&mut self, ctx: Address, text: Address) {
        self.with(|w| {
            w.say(format!("free_c_string {} {}", ctx, text));
            w.open_texts -= 1;
        });
    }
    fn get_array_buffer(&mut self, ctx: Address, v: JSValue) -> (Address, usize) {
        self.with(|w| {
            w.say(format!("get_array_buffer {} {}", ctx, v));
            let bytes = w.cells[v as usize].bytes.clone();
            let len = bytes.len();
            w.buffers.push(bytes);
            (w.buffers.len() - 1, len)
        })
    }
    fn read_byte(&mut self, base: Address, offset: usize) -> u8 {
        self.with(|w| {
            w.say(format!("read_byte {} {}", base, offset));
            w.buffers[base][offset]
        })
    }
    fn read_value(&mut self, base: Address, index: i32) -> JSValue {
        self.with(|w| {
            w.say(format!("read_value {} {}", base, index));
            w.argv[index as usize]
        })
    }
    fn dup_value(&mut self, ctx: Address, v: JSValue) -> JSValue {
        self.with(|w| {
            w.say(format!("dup {} {}", ctx, v));
            w.cells[v as usize].refs += 1;
            v
        })
    }
    fn free_value(&mut self, ctx: Address, v: JSValue) {
        self.with(|w| {
            w.say(format!("free {} {}", ctx, v));
            w.cells[v as usize].refs -= 1;
        });
    }
    fn get_property_str(&mut self, ctx: Address, obj: JSValue, key: &[u8]) -> JSValue {
        self.with(|w| {
            w.say(format!("get_property_str {} {} {}", ctx, obj, shown(key)));
            w.fetch(obj, &plain(key))
        })
    }
    fn set_property_str(&mut self, ctx: Address, obj: JSValue, key: &[u8], value: JSValue) -> i32 {
        self.with(|w| {
            w.say(format!("set_property_str {} {} {} {}", ctx, obj, shown(key), value));
            w.put(obj, &plain(key), value);
            if w.cells[obj as usize].kind == "array" && plain(key) == "length" {
                let len = w.cells[value as usize].number;
                let props = &mut w.cells[obj as usize].props;
                props.retain(|p| p.0 == "length" || p.0.parse::<i32>().unwrap() < len);
            }
            w.set_status
        })
    }
    fn get_property_uint32(&mut self, ctx: Address, obj: JSValue, index: u32) -> JSValue {
        self.with(|w| {
            w.say(format!("get_property_uint32 {} {} {}", ctx, obj, index));
            w.fetch(obj, &format!("{}", index))
        })
    }
    fn set_property_uint32(&mut self, ctx: Address, obj: JSValue, index: u32, value: JSValue) {
        self.with(|w| {
            w.say(format!("set_property_uint32 {} {} {} {}", ctx, obj, index, value));
            w.put(obj, &format!("{}", index), value);
        });
    }
    fn get_property_internal(
        &mut self,
        ctx: Address,
        obj: JSValue,
        prop: JSAtom,
        receiver: JSValue,
        throw_ref_error: i32,
    ) -> JSValue {
        self.with(|w| {
            let name = w.atoms[prop as usize].clone();
            w.say(format!(
                "get_property_internal {} {} {} {} {}",
                ctx, obj, name, receiver, throw_ref_error
            ));
            w.fetch(obj, &name)
        })
    }
    fn define_property(
        &mut self,
        ctx: Address,
        obj: JSValue,
        prop: JSAtom,
        value: JSValue,
        getter: JSValue,
        setter: JSValue,
        flags: i32,
    ) {
        self.with(|w| {
            let name = w.atoms[prop as usize].clone();
            let (value, setter) = (w.cells[value as usize].tag, w.cells[setter as usize].tag);
            w.say(format!(
                "define_property {} {} {} tag{} {} tag{} {}",
                ctx, obj, name, value, getter, setter, flags
            ));
            w.cells[getter as usize].refs += 1;
            w.put(obj, &name, getter);
        });
    }
    fn delete_property(&mut self, ctx: Address, obj: JSValue, prop: JSAtom, flags: i32) {
        self.with(|w| {
            let name = w.atoms[prop as usize].clone();
            w.say(format!("delete_property {} {} {} {}", ctx, obj, name, flags));
            w.drop_prop(obj, &name);
        });
    }
    fn get_own_property_names(
        &mut self,
        ctx: Address,
        obj: JSValue,
        flags: i32,
    ) -> (i32, Address, u32) {
        self.with(|w| {
            w.say(format!("get_own_property_names {} {} {}", ctx, obj, flags));
            if w.names_status != 0 {
                return (w.names_status, 0, 0);
            }
            let names: Vec<String> =
                w.cells[obj as usize].props.iter().map(|p| p.0.clone()).collect();
            let atoms: Vec<JSAtom> = names.iter().map(|n| w.atom(n)).collect();
            let count = atoms.len() as u32;
            w.tables.push(atoms);
            w.open_tables += 1;
            (0, w.tables.len(), count)
        })
    }
    fn read_property_atom(&mut self, table: Address, index: u32) -> JSAtom {
        self.with(|w| w.tables[table - 1][index as usize])
    }
    fn js_free(&mut self, ctx: Address, memory: Address) {
        self.with(|w| {
            w.say(format!("js_free {} {}", ctx, memory));
            w.open_tables -= 1;
        });
    }
    fn new_atom(&mut self, ctx: Address, name: &[u8]) -> JSAtom {
        self.with(|w| {
            w.say(format!("new_atom {} {}", ctx, shown(name)));
            w.atom(&plain(name))
        })
    }
    fn free_atom(&mut self, ctx: Address, atom: JSAtom) {
        self.with(|w| {
            let name = w.atoms[atom as usize].clone();
            w.say(format!("free_atom {} {}", ctx, name));
            w.atom_refs -= 1;
        });
    }
    fn atom_to_value(&mut self, ctx: Address, atom: JSAtom) -> JSValue {
        self.with(|w| {
            let name = w.atoms[atom as usize].clone();
            w.say(format!("atom_to_value {} {}", ctx, name));
            if w.plain_names.contains(&name) {
                return w.tagged(JS_TAG_SYMBOL);
            }
            w.string(&name)
        })
    }
    fn atom_to_string(&mut self, ctx: Address, atom: JSAtom) -> JSValue {
        self.with(|w| {
            let name = w.atoms[atom as usize].clone();
            w.say(format!("atom_to_string {} {}", ctx, name));
            if w.bad_names.contains(&name) {
                return w.tagged(JS_TAG_EXCEPTION);
            }
            if w.plain_names.contains(&name) {
                return w.tagged(JS_TAG_SYMBOL);
            }
            let text = name.trim_end_matches('\'').to_string();
            w.string(&text)
        })
    }
}

fn at(v: JSValue) -> JsRef {
    JsRef { ctx: CTX, v }
}

fn answers(v: JSValue, tag: i32) -> Probe {
    Probe {
        v,
        tag,
        int: -4,
        bits: 2.5f64.to_bits(),
        truth: 2,
        is_function: 0,
        is_array_buffer: 0,
        is_array: 0,
        is_promise: 0,
    }
}

// Types

#[test]
fn tag_gives_kind() {
    let kind = |tag| JsValue::from_answers(CTX, &answers(9, tag));
    assert_eq!(kind(JS_TAG_INT), JsValue::Int(-4));
    assert_eq!(kind(JS_TAG_FLOAT64), JsValue::Float(2.5f64.to_bits()));
    assert_eq!(kind(JS_TAG_BIG_DECIMAL), JsValue::BigNum(JsBigNum(at(9))));
    assert_eq!(kind(JS_TAG_BIG_INT), JsValue::BigNum(JsBigNum(at(9))));
    assert_eq!(kind(JS_TAG_BIG_FLOAT), JsValue::BigNum(JsBigNum(at(9))));
    assert_eq!(kind(JS_TAG_STRING), JsValue::String(JsString(at(9))));
    assert_eq!(kind(JS_TAG_MODULE), JsValue::Module(JsModule(at(9))));
    assert_eq!(kind(JS_TAG_OBJECT), JsValue::Object(JsObject(at(9))));
    assert_eq!(kind(JS_TAG_BOOL), JsValue::Bool(true));
    assert_eq!(kind(JS_TAG_NULL), JsValue::Null);
    assert_eq!(kind(JS_TAG_UNDEFINED), JsValue::UnDefined);
    assert_eq!(kind(JS_TAG_EXCEPTION), JsValue::Exception(JsException(at(9))));
    assert_eq!(
        kind(JS_TAG_FUNCTION_BYTECODE),
        JsValue::FunctionByteCode(JsFunctionByteCode(at(9)))
    );
    assert_eq!(kind(JS_TAG_SYMBOL), JsValue::Other(at(9)));
    assert_eq!(kind(4), JsValue::Other(at(9)));
    assert_eq!(kind(-1000), JsValue::Other(at(9)));
}

#[test]
fn first_yes_gives_kind_of_object() {
    let mut p = answers(9, JS_TAG_OBJECT);
    p.is_promise = 1;
    assert_eq!(JsValue::from_answers(CTX, &p), JsValue::Promise(JsPromise(at(9))));
    p.is_array = -1;
    assert_eq!(JsValue::from_answers(CTX, &p), JsValue::Array(JsArray(at(9))));
    p.is_array_buffer = 1;
    assert_eq!(JsValue::from_answers(CTX, &p), JsValue::ArrayBuffer(JsArrayBuffer(at(9))));
    p.is_function = 1;
    assert_eq!(JsValue::from_answers(CTX, &p), JsValue::Function(JsFunction(at(9))));
}

#[test]
fn false_is_false() {
    let mut p = answers(9, JS_TAG_BOOL);
    p.truth = 0;
    assert_eq!(JsValue::from_answers(CTX, &p), JsValue::Bool(false));
}

#[test]
fn only_needed_questions_are_asked() {
    let (fake, mut js) = Fake::new();
    let n = fake.with(|w| w.number(12));
    assert_eq!(JsValue::from_qjs_value(&mut js, CTX, n), JsValue::Int(12));
    assert_eq!(fake.take_log(), vec!["tag 0", "to_int32 7 0"]);
    let f = fake.with(|w| w.object("function"));
    assert_eq!(JsValue::from_qjs_value(&mut js, CTX, f), JsValue::Function(JsFunction(at(1))));
    assert_eq!(fake.take_log(), vec!["tag 1", "is_function 7 1"]);
    let o = fake.with(|w| w.object("object"));
    assert_eq!(JsValue::from_qjs_value(&mut js, CTX, o), JsValue::Object(JsObject(at(2))));
    assert_eq!(
        fake.take_log(),
        vec!["tag 2", "is_function 7 2", "is_array_buffer 7 2", "is_array 7 2", "is_promise 7 2"]
    );
    let s = fake.with(|w| w.string("x"));
    assert_eq!(JsValue::from_qjs_value(&mut js, CTX, s), JsValue::String(JsString(at(3))));
    assert_eq!(fake.take_log(), vec!["tag 3"]);
}

#[test]
fn reading_through_a_reference_gives_it_up() {
    let (fake, mut js) = Fake::new();
    let s = fake.with(|w| w.string("x"));
    assert_eq!(JsValue::from_ref(&mut js, at(s)), JsValue::String(JsString(at(s))));
    assert_eq!(fake.take_log(), vec!["tag 0", "tag 0", "free 7 0"]);
    let n = fake.with(|w| w.number(5));
    assert_eq!(JsValue::from_ref(&mut js, at(n)), JsValue::Int(5));
    assert_eq!(fake.take_log(), vec!["tag 1", "to_int32 7 1", "tag 1"]);
}

#[test]
fn scalars_are_made_anew() {
    let (fake, mut js) = Fake::new();
    JsValue::Int(-3).get_qjs_value(&mut js);
    JsValue::Float(0.5f64.to_bits()).get_qjs_value(&mut js);
    JsValue::Bool(true).get_qjs_value(&mut js);
    JsValue::Bool(false).into_qjs_value(&mut js);
    JsValue::Null.get_qjs_value(&mut js);
    JsValue::UnDefined.get_qjs_value(&mut js);
    assert_eq!(
        fake.take_log(),
        vec!["new_int32 0 -3", "new_float64 0 0.5", "new_bool 0 1", "new_bool 0 0", "null", "undefined"]
    );
}

#[test]
fn references_go_back_unchanged() {
    let (fake, mut js) = Fake::new();
    let values = vec![
        JsValue::BigNum(JsBigNum(at(40))),
        JsValue::String(JsString(at(41))),
        JsValue::Module(JsModule(at(42))),
        JsValue::Object(JsObject(at(43))),
        JsValue::Array(JsArray(at(44))),
        JsValue::Promise(JsPromise(at(45))),
        JsValue::ArrayBuffer(JsArrayBuffer(at(46))),
        JsValue::Function(JsFunction(at(47))),
        JsValue::Exception(JsException(at(48))),
        JsValue::FunctionByteCode(JsFunctionByteCode(at(49))),
        JsValue::Other(at(50)),
    ];
    let raws: Vec<JSValue> = values.iter().map(|x| x.get_qjs_value(&mut js)).collect();
    assert_eq!(raws, vec![40, 41, 42, 43, 44, 45, 46, 47, 48, 49, 50]);
    assert!(fake.take_log().is_empty());
}

#[test]
fn conversions_pick_the_kind() {
    assert_eq!(JsValue::from(5), JsValue::Int(5));
    assert_eq!(JsValue::from(true), JsValue::Bool(true));
    assert_eq!(JsValue::from(JsString(at(1))), JsValue::String(JsString(at(1))));
    assert_eq!(JsValue::from(JsObject(at(1))), JsValue::Object(JsObject(at(1))));
    assert_eq!(JsValue::from(JsArray(at(1))), JsValue::Array(JsArray(at(1))));
    assert_eq!(JsValue::from(JsFunction(at(1))), JsValue::Function(JsFunction(at(1))));
    assert_eq!(JsValue::from(JsPromise(at(1))), JsValue::Promise(JsPromise(at(1))));
    assert_eq!(JsValue::from(JsBigNum(at(1))), JsValue::BigNum(JsBigNum(at(1))));
    assert_eq!(JsValue::from(JsModule(at(1))), JsValue::Module(JsModule(at(1))));
    assert_eq!(JsValue::from(JsArrayBuffer(at(1))), JsValue::ArrayBuffer(JsArrayBuffer(at(1))));
    assert_eq!(JsValue::from(JsException(at(1))), JsValue::Exception(JsException(at(1))));
    assert_eq!(
        JsValue::from(JsFunctionByteCode(at(1))),
        JsValue::FunctionByteCode(JsFunctionByteCode(at(1)))
    );
}

// References

#[test]
fn counted_tags_are_freed() {
    for tag in -12..9 {
        assert_eq!(needs_free(tag), counted(tag));
    }
}

#[test]
fn release_frees_counted_values_only() {
    let (fake, mut js) = Fake::new();
    let s = fake.with(|w| w.string("x"));
    let m = fake.with(|w| w.tagged(JS_TAG_MODULE));
    JsValue::String(JsString(at(s))).release(&mut js);
    JsValue::Module(JsModule(at(m))).release(&mut js);
    JsValue::Int(3).release(&mut js);
    assert_eq!(fake.take_log(), vec!["tag 0", "free 7 0", "tag 1"]);
    assert_eq!(fake.with(|w| w.refs(s)), 0);
}

#[test]
fn release_all_goes_first_to_last() {
    let (fake, mut js) = Fake::new();
    let a = fake.with(|w| w.string("a"));
    let b = fake.with(|w| w.object("array"));
    release_all(
        &mut js,
        vec![JsValue::Array(JsArray(at(b))), JsValue::Null, JsValue::String(JsString(at(a)))],
    );
    assert_eq!(fake.take_log(), vec!["tag 1", "free 7 1", "tag 0", "free 7 0"]);
}

#[test]
fn duplicate_takes_another_reference() {
    let (fake, mut js) = Fake::new();
    let s = fake.with(|w| w.string("x"));
    let x = JsValue::String(JsString(at(s)));
    let y = x.duplicate(&mut js);
    assert_eq!(x, y);
    assert_eq!(fake.with(|w| w.refs(s)), 2);
    assert_eq!(fake.take_log(), vec!["dup 7 0"]);
    assert_eq!(JsValue::Float(8).duplicate(&mut js), JsValue::Float(8));
    assert_eq!(JsValue::Bool(false).duplicate(&mut js), JsValue::Bool(false));
    assert_eq!(JsValue::UnDefined.duplicate(&mut js), JsValue::UnDefined);
    assert_eq!(JsValue::Null.duplicate(&mut js), JsValue::Null);
    assert_eq!(JsValue::Int(8).duplicate(&mut js), JsValue::Int(8));
    assert!(fake.take_log().is_empty());
    let r = at(s).duplicate(&mut js);
    assert_eq!(r, at(s));
    r.release(&mut js);
    x.release(&mut js);
    y.release(&mut js);
    assert_eq!(fake.with(|w| w.refs(s)), 0);
}

// Text and numbers

#[test]
fn text_is_read_and_freed() {
    let (fake, mut js) = Fake::new();
    let s = fake.with(|w| w.string("h\u{e9}llo"));
    assert_eq!(JsString(at(s)).to_string(&mut js), "h\u{e9}llo");
    assert_eq!(
        fake.take_log(),
        vec!["to_c_string 7 0", "read_c_string 1", "free_c_string 7 1"]
    );
    assert_eq!(at(s).fmt(&mut js), "h\u{e9}llo");
    assert_eq!(fake.with(|w| w.open_texts), 0);
}

#[test]
fn text_that_is_missing_or_broken_is_empty() {
    let (fake, mut js) = Fake::new();
    let none = fake.with(|w| w.tagged(JS_TAG_EXCEPTION));
    assert_eq!(JsString(at(none)).to_string(&mut js), "");
    assert_eq!(fake.take_log(), vec!["to_c_string 7 0"]);
    let broken = fake.with(|w| w.string(""));
    fake.with(|w| w.cells[broken as usize].text = Some(vec![b'a', 0xff]));
    assert_eq!(JsString(at(broken)).to_string(&mut js), "");
    assert_eq!(fake.with(|w| w.open_texts), 0);
}

#[test]
fn big_number_and_error_report() {
    let (fake, mut js) = Fake::new();
    let n = fake.with(|w| w.tagged(JS_TAG_BIG_INT));
    fake.with(|w| w.cells[n as usize].big = -77);
    assert_eq!(JsBigNum(at(n)).to_int64(&mut js), -77);
    JsException(at(5)).dump_error(&mut js);
    assert_eq!(fake.take_log(), vec!["to_big_int64 7 0", "std_dump_error 7"]);
}

#[test]
fn number_is_read_from_integers_only() {
    let (fake, mut js) = Fake::new();
    let n = fake.with(|w| w.number(41));
    assert_eq!(to_u32(&mut js, CTX, n), Ok(41));
    assert_eq!(fake.take_log(), vec!["tag 0", "to_uint32 7 0"]);
    let s = fake.with(|w| w.string("41"));
    assert_eq!(to_u32(&mut js, CTX, s), Err("value is Not Int".to_string()));
    assert_eq!(fake.take_log(), vec!["tag 1"]);
}

// Objects

#[test]
fn property_is_read_and_typed() {
    let (fake, mut js) = Fake::new();
    let o = fake.with(|w| w.object("object"));
    let n = fake.with(|w| w.number(6));
    fake.with(|w| w.put(o, "six", n));
    assert_eq!(JsObject(at(o)).get(&mut js, "six"), JsValue::Int(6));
    assert_eq!(fake.take_log(), vec!["get_property_str 7 0 six\\0", "tag 1", "to_int32 7 1"]);
    assert_eq!(JsObject(at(o)).get(&mut js, "seven"), JsValue::UnDefined);
}

#[test]
fn key_with_nul_is_the_empty_key() {
    let (fake, mut js) = Fake::new();
    let o = fake.with(|w| w.object("object"));
    JsObject(at(o)).get(&mut js, "a\0b");
    assert_eq!(fake.take_log()[0], "get_property_str 7 0 \\0");
}

#[test]
fn property_is_set() {
    let (fake, mut js) = Fake::new();
    let o = fake.with(|w| w.object("object"));
    let outcome = JsObject(at(o)).set(&mut js, "n", JsValue::Int(3));
    assert_eq!(outcome, JsValue::UnDefined);
    assert_eq!(fake.take_log(), vec!["new_int32 0 3", "set_property_str 7 0 n\\0 1"]);
}

#[test]
fn set_with_nonzero_status_gives_exception_marker() {
    for status in [1, -1] {
        let (fake, mut js) = Fake::new();
        let o = fake.with(|w| w.object("object"));
        fake.with(|w| w.set_status = status);
        let outcome = JsObject(at(o)).set(&mut js, "n", JsValue::Null);
        assert_eq!(outcome, JsValue::Exception(JsException(at(2))));
        assert_eq!(fake.take_log(), vec!["null", "set_property_str 7 0 n\\0 1", "exception"]);
    }
}

#[test]
fn method_is_invoked_on_arguments() {
    let (fake, mut js) = Fake::new();
    let o = fake.with(|w| w.object("object"));
    let s = fake.with(|w| w.string("s"));
    let r = fake.with(|w| w.number(5));
    fake.with(|w| w.results.push(r));
    let argv = vec![JsValue::Int(1), JsValue::String(JsString(at(s)))];
    let x = JsObject(at(o)).invoke(&mut js, "m", &argv);
    assert_eq!(x, JsValue::Int(5));
    assert_eq!(
        fake.take_log(),
        vec![
            "new_int32 0 1",
            "new_atom 7 m\\0",
            "invoke 7 0 m 2 [3, 1]",
            "free_atom 7 m",
            "tag 2",
            "to_int32 7 2"
        ]
    );
    assert_eq!(fake.with(|w| w.refs(s)), 1);
    assert_eq!(fake.with(|w| w.atom_refs), 0);
}

#[test]
fn property_is_deleted() {
    let (fake, mut js) = Fake::new();
    let o = fake.with(|w| w.object("object"));
    JsObject(at(o)).delete(&mut js, "k");
    assert_eq!(
        fake.take_log(),
        vec!["new_atom 7 k\\0", "delete_property 7 0 k 0", "free_atom 7 k"]
    );
}

#[test]
fn map_lists_enumerable_properties() {
    let (fake, mut js) = Fake::new();
    let o = fake.with(|w| w.object("object"));
    let s = fake.with(|w| w.string("text"));
    let n = fake.with(|w| w.number(4));
    fake.with(|w| w.put(o, "s", s));
    fake.with(|w| w.put(o, "n", n));
    let map = JsObject(at(o)).to_map(&mut js).unwrap();
    assert_eq!(
        map,
        vec![
            ("s".to_string(), JsValue::String(JsString(at(s)))),
            ("n".to_string(), JsValue::Int(4))
        ]
    );
    let log = fake.take_log();
    assert_eq!(log[0], "get_own_property_names 7 0 19");
    assert_eq!(log[1], "get_property_internal 7 0 s 0 0");
    assert_eq!(log[log.len() - 3..], ["free_atom 7 s", "free_atom 7 n", "js_free 7 1"]);
    assert_eq!(fake.with(|w| w.refs(s)), 2);
    assert_eq!(fake.with(|w| (w.atom_refs, w.open_tables, w.open_texts)), (0, 0, 0));
}

#[test]
fn later_value_of_a_name_wins() {
    let (fake, mut js) = Fake::new();
    let o = fake.with(|w| w.object("object"));
    let first = fake.with(|w| w.string("first"));
    let other = fake.with(|w| w.number(1));
    let second = fake.with(|w| w.string("second"));
    fake.with(|w| w.put(o, "k", first));
    fake.with(|w| w.put(o, "other", other));
    // A symbol whose text is also `k`.
    fake.with(|w| w.put(o, "k'", second));
    let map = JsObject(at(o)).to_map(&mut js).unwrap();
    assert_eq!(
        map,
        vec![
            ("k".to_string(), JsValue::String(JsString(at(second)))),
            ("other".to_string(), JsValue::Int(1))
        ]
    );
    assert_eq!(fake.with(|w| w.refs(first)), 1);
    assert_eq!(fake.with(|w| w.refs(second)), 2);
}

#[test]
fn name_that_is_no_string_makes_no_entry() {
    let (fake, mut js) = Fake::new();
    let o = fake.with(|w| w.object("object"));
    let s = fake.with(|w| w.string("s"));
    fake.with(|w| w.put(o, "sym", s));
    fake.with(|w| w.plain_names.push("sym".to_string()));
    assert_eq!(JsObject(at(o)).to_map(&mut js).unwrap(), vec![]);
    assert_eq!(fake.with(|w| w.refs(s)), 1);
    assert_eq!(fake.with(|w| w.refs(2)), 0);
}

#[test]
fn map_without_names_is_an_exception() {
    let (fake, mut js) = Fake::new();
    let o = fake.with(|w| w.object("object"));
    fake.with(|w| w.names_status = -1);
    let e = JsObject(at(o)).to_map(&mut js).unwrap_err();
    assert_eq!(e, JsException(at(1)));
    assert_eq!(fake.take_log(), vec!["get_own_property_names 7 0 19", "exception"]);
}

#[test]
fn exception_at_a_value_stops_the_listing() {
    let (fake, mut js) = Fake::new();
    let o = fake.with(|w| w.object("object"));
    let s = fake.with(|w| w.string("s"));
    let e = fake.with(|w| w.tagged(JS_TAG_EXCEPTION));
    let t = fake.with(|w| w.string("t"));
    fake.with(|w| w.put(o, "a", s));
    fake.with(|w| w.put(o, "b", e));
    fake.with(|w| w.put(o, "c", t));
    assert_eq!(JsObject(at(o)).to_map(&mut js).unwrap_err(), JsException(at(e)));
    assert_eq!(fake.with(|w| (w.refs(s), w.refs(t))), (1, 1));
    assert_eq!(fake.with(|w| (w.atom_refs, w.open_tables, w.open_texts)), (0, 0, 0));
}

#[test]
fn exception_at_a_name_stops_the_listing() {
    let (fake, mut js) = Fake::new();
    let o = fake.with(|w| w.object("object"));
    let s = fake.with(|w| w.string("s"));
    let t = fake.with(|w| w.string("t"));
    fake.with(|w| w.put(o, "a", s));
    fake.with(|w| w.put(o, "bad", t));
    fake.with(|w| w.bad_names.push("bad".to_string()));
    assert!(JsObject(at(o)).to_map(&mut js).is_err());
    assert_eq!(fake.with(|w| (w.refs(s), w.refs(t))), (1, 1));
    assert_eq!(fake.with(|w| (w.atom_refs, w.open_tables, w.open_texts)), (0, 0, 0));
}

// Arrays and buffers

fn array_of(fake: &Fake, items: &[JSValue]) -> JSValue {
    fake.with(|w| {
        let a = w.object("array");
        let n = w.number(items.len() as i32);
        w.put(a, "length", n);
        for (i, v) in items.iter().enumerate() {
            w.put(a, &format!("{}", i), *v);
        }
        a
    })
}

#[test]
fn array_is_read() {
    let (fake, mut js) = Fake::new();
    let s = fake.with(|w| w.string("s"));
    let n = fake.with(|w| w.number(2));
    let a = array_of(&fake, &[s, n]);
    let xs = JsArray(at(a)).to_vec(&mut js).unwrap();
    assert_eq!(xs, vec![JsValue::String(JsString(at(s))), JsValue::Int(2)]);
    assert_eq!(
        fake.take_log(),
        vec![
            "get_property_str 7 2 length\\0",
            "tag 3",
            "to_uint32 7 3",
            "free 7 3",
            "get_property_uint32 7 2 0",
            "tag 0",
            "tag 0",
            "get_property_uint32 7 2 1",
            "tag 1",
            "tag 1",
            "to_int32 7 1"
        ]
    );
}

#[test]
fn array_without_integer_length_is_empty() {
    let (fake, mut js) = Fake::new();
    let a = fake.with(|w| w.object("array"));
    assert_eq!(JsArray(at(a)).to_vec(&mut js).unwrap(), vec![]);
    assert_eq!(JsArray(at(a)).get_length(&mut js), 0);
}

#[test]
fn exception_at_an_element_gives_up_the_others() {
    let (fake, mut js) = Fake::new();
    let s = fake.with(|w| w.string("s"));
    let e = fake.with(|w| w.tagged(JS_TAG_EXCEPTION));
    let t = fake.with(|w| w.string("t"));
    let a = array_of(&fake, &[s, e, t]);
    assert_eq!(JsArray(at(a)).to_vec(&mut js).unwrap_err(), JsException(at(e)));
    assert_eq!(fake.with(|w| (w.refs(s), w.refs(t))), (1, 1));
    let log = fake.take_log();
    assert_eq!(log[log.len() - 4..], ["get_property_uint32 7 3 1", "tag 1", "tag 0", "free 7 0"]);
}

#[test]
fn array_elements_and_length() {
    let (fake, mut js) = Fake::new();
    let n = fake.with(|w| w.number(8));
    let a = array_of(&fake, &[n]);
    let mut array = JsArray(at(a));
    assert_eq!(array.get_length(&mut js), 1);
    assert_eq!(array.get(&mut js, 0), JsValue::Int(8));
    fake.take_log();
    array.set(&mut js, 3, JsValue::Bool(true));
    assert_eq!(fake.take_log(), vec!["new_bool 0 1", "set_property_uint32 7 1 3 3"]);
    assert!(array.set_length(&mut js, 9));
    assert_eq!(fake.take_log(), vec!["new_int64 7 9", "set_property_str 7 1 length\\0 4"]);
    fake.with(|w| w.set_status = 1);
    assert!(!array.set_length(&mut js, 9));
}

#[test]
fn buffer_is_copied() {
    let (fake, mut js) = Fake::new();
    let mut context = Context { rt: 3, ctx: CTX };
    let b = context.new_array_buffer(&mut js, &[5, 0, 255]);
    assert_eq!(b.to_vec(&mut js), vec![5, 0, 255]);
    assert_eq!(
        fake.take_log(),
        vec![
            "new_array_buffer_copy 7 [5, 0, 255]",
            "get_array_buffer 7 0",
            "read_byte 0 0",
            "read_byte 0 1",
            "read_byte 0 2"
        ]
    );
    let empty = context.new_array_buffer(&mut js, &[]);
    assert_eq!(empty.to_vec(&mut js), Vec::<u8>::new());
    assert_eq!(empty.get_mut_ptr(&mut js), (2, 0));
}

#[test]
fn buffer_of_elements_counts_their_bytes() {
    let (fake, mut js) = Fake::new();
    let mut context = Context { rt: 3, ctx: CTX };
    let b = context.new_array_buffer_t(&mut js, &[1u32, 2, 3]);
    assert_eq!(b, JsArrayBuffer(at(0)));
    context.new_array_buffer_t::<u64, Fake>(&mut js, &[]);
    assert_eq!(
        fake.take_log(),
        vec!["new_array_buffer_copy_t 7 3 12", "new_array_buffer_copy_t 7 0 0"]
    );
}

// Functions

#[test]
fn function_is_called_with_undefined_receiver() {
    let (fake, mut js) = Fake::new();
    let f = fake.with(|w| w.object("function"));
    let r = fake.with(|w| w.string("r"));
    fake.with(|w| w.results.push(r));
    let x = JsFunction(at(f)).call(&mut js, &[JsValue::Null, JsValue::Int(2)]);
    assert_eq!(x, JsValue::String(JsString(at(r))));
    assert_eq!(
        fake.take_log(),
        vec!["null", "new_int32 0 2", "undefined", "call 7 0 tag3 2 [2, 3]", "tag 1"]
    );
}

#[test]
fn promise_result_is_typed() {
    let (fake, mut js) = Fake::new();
    let r = fake.with(|w| w.number(1));
    fake.with(|w| w.results.push(r));
    assert_eq!(JsPromise(at(9)).get_result(&mut js), JsValue::Int(1));
    assert_eq!(fake.take_log(), vec!["get_promise_result 7 9", "tag 0", "to_int32 7 0"]);
}

struct Sum;

impl JsFn for Sum {
    fn call<E: Engine>(
        ctx: &mut Context,
        js: &mut Session<E>,
        this_val: JsValue,
        argv: &[JsValue],
    ) -> JsValue {
        assert_eq!(*ctx, Context { rt: 3, ctx: CTX });
        this_val.release(js);
        let mut sum = 0;
        for x in argv {
            match x {
                JsValue::Int(n) => sum += n,
                JsValue::String(s) => sum += s.to_string(js).len() as i32,
                _ => {}
            }
        }
        JsValue::Int(sum)
    }
}

#[test]
fn native_function_gets_its_own_references() {
    let (fake, mut js) = Fake::new();
    let this = fake.with(|w| w.object("object"));
    let n = fake.with(|w| w.number(30));
    let s = fake.with(|w| w.string("abc"));
    fake.with(|w| w.argv = vec![n, s]);
    let raw = JsFunctionTrampoline::callback::<Sum, Fake>(&mut js, CTX, this, 2, 500);
    assert_eq!(fake.with(|w| w.cells[raw as usize].number), 33);
    assert_eq!(fake.with(|w| (w.refs(this), w.refs(s))), (1, 1));
    let log = fake.take_log();
    assert_eq!(
        log[..4],
        ["get_runtime 7", "dup 7 0", "tag 0", "is_function 7 0"]
    );
    assert!(log.contains(&"read_value 500 0".to_string()));
    assert!(log.contains(&"read_value 500 1".to_string()));
    assert_eq!(log[log.len() - 3..], ["new_int32 0 33", "tag 2", "free 7 2"]);
}

#[test]
fn native_function_without_arguments() {
    let (fake, mut js) = Fake::new();
    let this = fake.with(|w| w.tagged(JS_TAG_UNDEFINED));
    for len in [0, -5] {
        let raw = JsFunctionTrampoline::callback::<Sum, Fake>(&mut js, CTX, this, len, 0);
        assert_eq!(fake.with(|w| w.cells[raw as usize].number), 0);
        assert_eq!(fake.take_log(), vec!["get_runtime 7", "dup 7 0", "tag 0", "new_int32 0 0"]);
    }
}

// CommonJS

fn global(fake: &Fake) -> JSValue {
    fake.with(|w| {
        let g = w.object("object");
        w.global = g;
        g
    })
}

fn file(fake: &Fake, name: &str) {
    fake.with(|w| {
        let atom = w.atom(name);
        w.file = atom;
    });
}

fn require(fake: &Fake, js: &mut Session<Fake>, specifier: &str) -> JsValue {
    let s = fake.with(|w| w.string(specifier));
    let mut context = Context { rt: 3, ctx: CTX };
    let argv = vec![JsValue::String(JsString(at(s)))];
    JsRequire::call(&mut context, js, JsValue::UnDefined, &argv)
}

#[test]
fn file_name_of_running_code() {
    let (fake, mut js) = Fake::new();
    let mut context = Context { rt: 3, ctx: CTX };
    assert_eq!(get_file_name(&mut context, &mut js, 1), JsValue::Null);
    assert_eq!(fake.take_log(), vec!["get_script_or_module_name 7 1"]);
    file(&fake, "dir/main.js");
    assert_eq!(get_file_name(&mut context, &mut js, 2), JsValue::String(JsString(at(0))));
    assert_eq!(
        fake.take_log(),
        vec!["get_script_or_module_name 7 2", "atom_to_value 7 dir/main.js", "tag 0"]
    );
}

#[test]
fn require_takes_exports_and_clears_them() {
    let (fake, mut js) = Fake::new();
    let g = global(&fake);
    let module = fake.with(|w| w.object("object"));
    let exports = fake.with(|w| w.object("function"));
    let m = fake.with(|w| w.object("object"));
    fake.with(|w| w.put(g, "module", module));
    fake.with(|w| w.put(module, "exports", exports));
    fake.with(|w| w.modules.insert("lib".to_string(), m));
    assert_eq!(require(&fake, &mut js, "lib"), JsValue::Function(JsFunction(at(exports))));
    assert!(fake.with(|w| w.cells[module as usize].props.is_empty()));
    assert_eq!(fake.with(|w| (w.refs(g), w.refs(module), w.refs(m))), (1, 1, 0));
    assert_eq!(fake.with(|w| (w.refs(exports), w.atom_refs, w.open_texts)), (1, 0, 0));
    let log = fake.take_log();
    assert!(log.contains(&"require 7 lib".to_string()));
    assert!(!log.iter().any(|l| l.starts_with("get_script_or_module_name")));
}

#[test]
fn require_without_exports_gives_the_result_of_loading() {
    for tag in [JS_TAG_NULL, JS_TAG_UNDEFINED] {
        let (fake, mut js) = Fake::new();
        let g = global(&fake);
        let module = fake.with(|w| w.object("object"));
        let none = fake.with(|w| w.tagged(tag));
        let m = fake.with(|w| w.object("object"));
        fake.with(|w| w.put(g, "module", module));
        fake.with(|w| w.put(module, "exports", none));
        fake.with(|w| w.modules.insert("lib".to_string(), m));
        assert_eq!(require(&fake, &mut js, "lib"), JsValue::Object(JsObject(at(m))));
        assert_eq!(fake.with(|w| (w.refs(g), w.refs(module), w.refs(m))), (1, 1, 1));
    }
}

#[test]
fn require_without_module_object() {
    let (fake, mut js) = Fake::new();
    let g = global(&fake);
    let s = fake.with(|w| w.string("not an object"));
    let m = fake.with(|w| w.number(3));
    fake.with(|w| w.put(g, "module", s));
    fake.with(|w| w.modules.insert("lib".to_string(), m));
    assert_eq!(require(&fake, &mut js, "lib"), JsValue::Int(3));
    assert_eq!(fake.with(|w| (w.refs(g), w.refs(s))), (1, 1));
}

#[test]
fn require_resolves_relative_names() {
    let (fake, mut js) = Fake::new();
    global(&fake);
    file(&fake, "dir/main.js");
    assert!(matches!(require(&fake, &mut js, "./x.js"), JsValue::Exception(_)));
    assert!(fake.take_log().contains(&"require 7 dir/./x.js".to_string()));
    require(&fake, &mut js, "../y.js");
    assert!(fake.take_log().contains(&"require 7 dir/../y.js".to_string()));
    require(&fake, &mut js, "z.js");
    assert!(fake.take_log().contains(&"require 7 z.js".to_string()));
    assert_eq!(fake.with(|w| w.open_texts), 0);
}

#[test]
fn require_keeps_relative_names_without_a_file() {
    let (fake, mut js) = Fake::new();
    global(&fake);
    require(&fake, &mut js, "./x.js");
    assert!(fake.take_log().contains(&"require 7 ./x.js".to_string()));
}

#[test]
fn require_without_a_name_is_undefined() {
    let (fake, mut js) = Fake::new();
    let this = fake.with(|w| w.object("object"));
    let mut context = Context { rt: 3, ctx: CTX };
    let this_val = JsValue::Object(JsObject(at(this)));
    assert_eq!(JsRequire::call(&mut context, &mut js, this_val, &[]), JsValue::UnDefined);
    assert_eq!(fake.take_log(), vec!["tag 0", "free 7 0"]);
    let argv = vec![JsValue::Int(2)];
    assert_eq!(
        JsRequire::call(&mut context, &mut js, JsValue::UnDefined, &argv),
        JsValue::UnDefined
    );
    assert!(fake.take_log().is_empty());
}

#[test]
fn dirname_of_running_code() {
    let (fake, mut js) = Fake::new();
    let mut context = Context { rt: 3, ctx: CTX };
    assert_eq!(JsDirName::call(&mut context, &mut js, JsValue::UnDefined, &[]), JsValue::Null);
    file(&fake, "a/b/main.js");
    fake.take_log();
    let dir = JsDirName::call(&mut context, &mut js, JsValue::UnDefined, &[]);
    let v = match dir {
        JsValue::String(s) => s.0.v,
        other => panic!("{:?}", other),
    };
    assert_eq!(fake.with(|w| w.cells[v as usize].text.clone()), Some(b"a/b".to_vec()));
    let log = fake.take_log();
    assert_eq!(log[log.len() - 3..], ["new_string_len 7 a/b", "tag 0", "free 7 0"]);
    file(&fake, "/");
    assert_eq!(JsDirName::call(&mut context, &mut js, JsValue::UnDefined, &[]), JsValue::Null);
}

#[test]
fn cjs_globals_are_set_up() {
    let (fake, mut js) = Fake::new();
    let g = global(&fake);
    let mut context = Context { rt: 3, ctx: CTX };
    js_init_cjs(&mut context, &mut js, CjsCallbacks { require: 1000, get_dirname: 2000 });
    assert_eq!(
        fake.take_log(),
        vec![
            "get_global_object 7",
            "new_object 7",
            "set_property_str 7 0 module\\0 1",
            "new_c_function 7 1000 require\\0 1",
            "set_property_str 7 0 require\\0 2",
            "new_c_function 7 2000 get_dirname\\0 1",
            "new_atom 7 __dirname\\0",
            "undefined",
            "null",
            "define_property 7 0 __dirname tag3 3 tag2 19717",
            "tag 3",
            "free 7 3",
            "tag 0",
            "free 7 0"
        ]
    );
    assert_eq!(fake.with(|w| w.refs(g)), 1);
}

// Contexts

#[test]
fn context_is_set_up_and_torn_down() {
    let (fake, mut js) = Fake::new();
    let context = Context::new(&mut js, None);
    assert_eq!(context, Context { rt: 3, ctx: CTX });
    assert_eq!(
        fake.take_log(),
        vec![
            "new_runtime",
            "set_module_loader 3",
            "std_init_handlers 3",
            "new_context 3",
            "add_intrinsic_big_float 7",
            "add_intrinsic_big_decimal 7",
            "add_intrinsic_operators 7",
            "enable_bignum_ext 7 1",
            "std_add_console 7",
            "init_module_std 7 std\\0",
            "init_module_os 7 os\\0"
        ]
    );
    context.release(&mut js);
    assert_eq!(fake.take_log(), vec!["std_free_handlers 3", "free_context 7", "free_runtime 3"]);
}

#[test]
fn context_with_cjs() {
    let (fake, mut js) = Fake::new();
    let g = global(&fake);
    Context::new(&mut js, Some(CjsCallbacks { require: 1, get_dirname: 2 }));
    let names: Vec<String> =
        fake.with(|w| w.cells[g as usize].props.iter().map(|p| p.0.clone()).collect());
    assert_eq!(names, vec!["module", "require", "__dirname"]);
}

#[test]
fn arguments_become_a_global_array() {
    let (fake, mut js) = Fake::new();
    let g = global(&fake);
    let mut context = Context { rt: 3, ctx: CTX };
    context.put_args(&mut js, &["a", "b\u{e9}"]);
    assert_eq!(
        fake.take_log(),
        vec![
            "new_array 7",
            "new_string_len 7 a",
            "set_property_uint32 7 1 0 2",
            "new_string_len 7 b\u{e9}",
            "set_property_uint32 7 1 1 3",
            "get_global_object 7",
            "set_property_str 7 0 args\\0 1",
            "tag 0",
            "free 7 0"
        ]
    );
    assert_eq!(fake.with(|w| (w.refs(g), w.refs(1), w.refs(2), w.refs(3))), (1, 1, 1, 1));
}

#[test]
fn no_arguments_make_an_empty_array() {
    let (fake, mut js) = Fake::new();
    global(&fake);
    let mut context = Context { rt: 3, ctx: CTX };
    context.put_args(&mut js, &[]);
    assert_eq!(fake.take_log().len(), 5);
}

#[test]
fn script_is_run_at_once() {
    let (fake, mut js) = Fake::new();
    let mut context = Context { rt: 3, ctx: CTX };
    let r = fake.with(|w| w.number(42));
    fake.with(|w| w.results.push(r));
    assert_eq!(context.eval_global_str(&mut js, "6*7"), JsValue::Int(42));
    assert_eq!(
        fake.take_log(),
        vec![
            "eval 7 6*7\\0 3 <evalScript>\\0 0",
            "is_exception 0",
            "tag 0",
            "to_int32 7 0"
        ]
    );
}

#[test]
fn exception_of_a_script_is_reported() {
    let (fake, mut js) = Fake::new();
    let mut context = Context { rt: 3, ctx: CTX };
    let e = fake.with(|w| w.tagged(JS_TAG_EXCEPTION));
    fake.with(|w| w.results.push(e));
    let x = context.eval_buf(&mut js, "?", "f.js", JS_EVAL_TYPE_GLOBAL);
    assert_eq!(x, JsValue::Exception(JsException(at(e))));
    assert_eq!(
        fake.take_log(),
        vec!["eval 7 ?\\0 1 f.js\\0 0", "is_exception 0", "std_dump_error 7", "tag 0"]
    );
}

#[test]
fn module_is_compiled_then_run() {
    let (fake, mut js) = Fake::new();
    let mut context = Context { rt: 3, ctx: CTX };
    let compiled = fake.with(|w| w.tagged(JS_TAG_MODULE));
    let r = fake.with(|w| w.tagged(JS_TAG_UNDEFINED));
    fake.with(|w| w.results = vec![compiled, r]);
    let x = context.eval_buf(&mut js, "m", "m.js", JS_EVAL_TYPE_MODULE);
    assert_eq!(x, JsValue::UnDefined);
    assert_eq!(
        fake.take_log(),
        vec![
            "eval 7 m\\0 1 m.js\\0 33",
            "is_exception 0",
            "eval_function 7 0",
            "is_exception 1",
            "tag 1"
        ]
    );
}

#[test]
fn module_that_does_not_compile_is_not_run() {
    let (fake, mut js) = Fake::new();
    let mut context = Context { rt: 3, ctx: CTX };
    let e = fake.with(|w| w.tagged(JS_TAG_EXCEPTION));
    fake.with(|w| w.results = vec![e]);
    let x = context.eval_buf(&mut js, "m", "m.js", JS_EVAL_TYPE_MODULE | 8);
    assert_eq!(x, JsValue::Exception(JsException(at(e))));
    assert_eq!(
        fake.take_log(),
        vec![
            "eval 7 m\\0 1 m.js\\0 41",
            "is_exception 0",
            "is_exception 0",
            "std_dump_error 7",
            "tag 0"
        ]
    );
}

#[test]
fn module_run_gives_result_up_and_polls() {
    let (fake, mut js) = Fake::new();
    let mut context = Context { rt: 3, ctx: CTX };
    let compiled = fake.with(|w| w.tagged(JS_TAG_MODULE));
    let r = fake.with(|w| w.object("promise"));
    fake.with(|w| w.results = vec![compiled, r]);
    context.eval_module_str(&mut js, "m", "m.js");
    let log = fake.take_log();
    assert_eq!(log[log.len() - 3..], ["tag 1", "free 7 1", "std_loop 7"]);
    assert_eq!(fake.with(|w| w.refs(r)), 0);
}

#[test]
fn values_are_made() {
    let (fake, mut js) = Fake::new();
    let g = global(&fake);
    let mut context = Context { rt: 3, ctx: CTX };
    assert_eq!(context.get_global(&mut js), JsObject(at(g)));
    assert_eq!(context.new_object(&mut js), JsObject(at(1)));
    assert_eq!(context.new_array(&mut js), JsArray(at(2)));
    assert_eq!(context.new_string(&mut js, "s\0t"), JsString(at(3)));
    assert_eq!(context.new_function(&mut js, 900, "f"), JsFunction(at(4)));
    assert_eq!(
        fake.take_log(),
        vec![
            "get_global_object 7",
            "new_object 7",
            "new_array 7",
            "new_string_len 7 s\0t",
            "new_c_function 7 900 f\\0 1"
        ]
    );
    let text = context.value_to_string(&mut js, &JsValue::Int(12));
    assert_eq!(text, JsValue::String(JsString(at(6))));
    assert_eq!(fake.take_log(), vec!["new_int32 0 12", "to_string 7 5", "tag 6"]);
}

#[test]
fn errors_are_thrown() {
    let (fake, mut js) = Fake::new();
    let mut context = Context { rt: 3, ctx: CTX };
    assert_eq!(context.throw_type_error(&mut js, "t"), JsException(at(0)));
    assert_eq!(context.throw_internal_type_error(&mut js, "i"), JsException(at(1)));
    assert_eq!(context.throw_reference_error(&mut js, "r"), JsException(at(2)));
    assert_eq!(context.throw_range_error(&mut js, "g"), JsException(at(3)));
    assert_eq!(context.throw_error(&mut js, JsValue::Int(1)), JsException(at(5)));
    assert_eq!(
        fake.take_log(),
        vec![
            "throw_type_error 7 t\\0",
            "throw_internal_error 7 i\\0",
            "throw_reference_error 7 r\\0",
            "throw_range_error 7 g\\0",
            "new_int32 0 1",
            "throw 7 4"
        ]
    );
}

#[test]
fn error_carries_its_message() {
    let (fake, mut js) = Fake::new();
    let mut context = Context { rt: 3, ctx: CTX };
    let x = context.new_error(&mut js, "boom");
    assert_eq!(x, JsValue::Object(JsObject(at(1))));
    let log = fake.take_log();
    assert_eq!(log[..3], ["new_string_len 7 boom", "new_error 7", "tag 1"]);
    assert_eq!(log[log.len() - 1], "set_property_str 7 1 message\\0 0");
    assert_eq!(fake.with(|w| w.refs(0)), 1);
}

#[test]
fn error_that_is_no_object_loses_its_message() {
    let (fake, mut js) = Fake::new();
    fake.with(|w| w.error_is_object = false);
    let mut context = Context { rt: 3, ctx: CTX };
    let x = context.new_error(&mut js, "boom");
    assert_eq!(x, JsValue::Exception(JsException(at(1))));
    assert_eq!(
        fake.take_log(),
        vec!["new_string_len 7 boom", "new_error 7", "tag 1", "tag 0", "free 7 0"]
    );
}

#[test]
fn promise_comes_with_its_functions() {
    let (fake, mut js) = Fake::new();
    let mut context = Context { rt: 3, ctx: CTX };
    let parts = context.new_promise(&mut js);
    assert_eq!(
        parts,
        (
            JsValue::Promise(JsPromise(at(0))),
            JsValue::Function(JsFunction(at(1))),
            JsValue::Function(JsFunction(at(2)))
        )
    );
    assert_eq!(fake.take_log()[0], "new_promise_capability 7");
    context.promise_loop_poll(&mut js);
    assert_eq!(fake.take_log(), vec!["std_loop 7"]);
}

// What is put in comes back

#[test]
fn property_comes_back_as_it_was_set() {
    let (fake, mut js) = Fake::new();
    let o = fake.with(|w| w.object("object"));
    let s = fake.with(|w| w.string("s"));
    let mut object = JsObject(at(o));
    object.set(&mut js, "n", JsValue::Int(-9));
    object.set(&mut js, "s", JsValue::String(JsString(at(s))));
    object.set(&mut js, "b", JsValue::Bool(false));
    object.set(&mut js, "z", JsValue::Null);
    assert_eq!(object.get(&mut js, "n"), JsValue::Int(-9));
    assert_eq!(object.get(&mut js, "s"), JsValue::String(JsString(at(s))));
    assert_eq!(object.get(&mut js, "b"), JsValue::Bool(false));
    assert_eq!(object.get(&mut js, "z"), JsValue::Null);
    object.set(&mut js, "n", JsValue::Int(10));
    assert_eq!(object.get(&mut js, "n"), JsValue::Int(10));
    assert_eq!(object.get(&mut js, "s"), JsValue::String(JsString(at(s))));
    object.delete(&mut js, "n");
    assert_eq!(object.get(&mut js, "n"), JsValue::UnDefined);
    object.delete(&mut js, "n");
    object.delete(&mut js, "never");
    assert_eq!(object.get(&mut js, "n"), JsValue::UnDefined);
    assert_eq!(object.get(&mut js, "b"), JsValue::Bool(false));
}

#[test]
fn length_and_elements_come_back() {
    let (fake, mut js) = Fake::new();
    let a = fake.with(|w| w.number(1));
    let b = fake.with(|w| w.string("b"));
    let c = fake.with(|w| w.number(3));
    let v = array_of(&fake, &[a, b, c]);
    let mut array = JsArray(at(v));
    let xs = array.to_vec(&mut js).unwrap();
    assert_eq!(xs.len(), array.get_length(&mut js));
    for (i, x) in xs.iter().enumerate() {
        assert_eq!(array.get(&mut js, i), *x);
    }
    assert!(array.set_length(&mut js, 2));
    assert_eq!(array.get_length(&mut js), 2);
    assert_eq!(array.get(&mut js, 0), JsValue::Int(1));
    assert_eq!(array.get(&mut js, 1), JsValue::String(JsString(at(b))));
    assert_eq!(array.get(&mut js, 2), JsValue::UnDefined);
}

#[test]
fn string_comes_back_as_its_text() {
    let (_, mut js) = Fake::new();
    let mut context = Context { rt: 3, ctx: CTX };
    for text in ["", "plain", "h\u{e9}\u{1f600}"] {
        let string = context.new_string(&mut js, text);
        assert_eq!(string.to_string(&mut js), text);
    }
    let cut = context.new_string(&mut js, "a\0b");
    assert_eq!(cut.to_string(&mut js), "a");
}

#[test]
fn later_arguments_replace_earlier_ones() {
    let (fake, mut js) = Fake::new();
    let g = global(&fake);
    let mut context = Context { rt: 3, ctx: CTX };
    context.put_args(&mut js, &["x", "y", "z"]);
    let first = fake.with(|w| w.cells[g as usize].props[0].1);
    context.put_args(&mut js, &["new"]);
    assert_eq!(fake.with(|w| w.cells[g as usize].props.len()), 1);
    let second = fake.with(|w| w.cells[g as usize].props[0].1);
    assert_ne!(first, second);
    assert_eq!(fake.with(|w| w.cells[first as usize].props.len()), 3);
    assert_eq!(fake.with(|w| w.cells[second as usize].props.len()), 1);
    let text = fake.with(|w| w.cells[second as usize].props[0].1);
    assert_eq!(JsString(at(text)).to_string(&mut js), "new");
}

#[test]
fn dirname_is_told_anew_to_each_reader() {
    let (fake, mut js) = Fake::new();
    let this = fake.with(|w| w.tagged(JS_TAG_UNDEFINED));
    for (name, dir) in [("a/b/c.js", "a/b"), ("main.js", ""), ("/x.js", "/")] {
        file(&fake, name);
        let raw = JsFunctionTrampoline::callback::<JsDirName, Fake>(&mut js, CTX, this, 0, 0);
        assert_eq!(JsString(at(raw)).to_string(&mut js), dir);
    }
    for name in ["/", ""] {
        file(&fake, name);
        let raw = JsFunctionTrampoline::callback::<JsDirName, Fake>(&mut js, CTX, this, 0, 0);
        assert_eq!(fake.with(|w| w.cells[raw as usize].tag), JS_TAG_NULL);
    }
}

#[test]
fn plain_value_goes_back_as_what_was_answered() {
    let (fake, mut js) = Fake::new();
    let n = fake.with(|w| w.number(77));
    let x = JsValue::from_qjs_value(&mut js, CTX, n);
    fake.take_log();
    let raw = x.get_qjs_value(&mut js);
    assert_eq!(fake.take_log(), vec!["new_int32 0 77"]);
    assert_eq!(JsValue::from_qjs_value(&mut js, CTX, raw), x);
}

#[test]
fn element_comes_back_as_it_was_set() {
    let (fake, mut js) = Fake::new();
    let a = array_of(&fake, &[]);
    let s = fake.with(|w| w.string("s"));
    let mut array = JsArray(at(a));
    array.set(&mut js, 0, JsValue::Int(4));
    array.set(&mut js, 1, JsValue::String(JsString(at(s))));
    array.set(&mut js, 2, JsValue::Bool(true));
    array.set(&mut js, 0, JsValue::Null);
    assert_eq!(array.get(&mut js, 0), JsValue::Null);
    assert_eq!(array.get(&mut js, 1), JsValue::String(JsString(at(s))));
    assert_eq!(array.get(&mut js, 2), JsValue::Bool(true));
}

#[test]
fn arguments_leave_other_globals_alone() {
    let (fake, mut js) = Fake::new();
    let g = global(&fake);
    let n = fake.with(|w| w.number(5));
    fake.with(|w| w.put(g, "kept", n));
    let mut context = Context { rt: 3, ctx: CTX };
    context.put_args(&mut js, &["a"]);
    assert_eq!(JsObject(at(g)).get(&mut js, "kept"), JsValue::Int(5));
    let writes: Vec<String> =
        fake.take_log().into_iter().filter(|l| l.starts_with("set_property_str")).collect();
    assert_eq!(writes, vec!["set_property_str 7 0 args\\0 2"]);
}

#[test]
fn listing_has_an_entry_for_each_name() {
    let (fake, mut js) = Fake::new();
    let o = fake.with(|w| w.object("object"));
    for (i, name) in ["c", "a", "b"].iter().enumerate() {
        let n = fake.with(|w| w.number(i as i32));
        fake.with(|w| w.put(o, name, n));
    }
    let map = JsObject(at(o)).to_map(&mut js).unwrap();
    assert_eq!(
        map,
        vec![
            ("c".to_string(), JsValue::Int(0)),
            ("a".to_string(), JsValue::Int(1)),
            ("b".to_string(), JsValue::Int(2))
        ]
    );
}

#[test]
fn array_is_read_without_writing() {
    let (fake, mut js) = Fake::new();
    let s = fake.with(|w| w.string("s"));
    let e = fake.with(|w| w.tagged(JS_TAG_EXCEPTION));
    for items in [vec![s], vec![s, e]] {
        let a = array_of(&fake, &items);
        fake.take_log();
        if let Ok(xs) = JsArray(at(a)).to_vec(&mut js) {
            release_all(&mut js, xs);
        }
        let log = fake.take_log();
        assert!(!log.iter().any(|l| l.starts_with("set_") || l.starts_with("delete_")));
    }
}

#[test]
fn jobs_run_though_the_module_fails() {
    let (fake, mut js) = Fake::new();
    let mut context = Context { rt: 3, ctx: CTX };
    let e = fake.with(|w| w.tagged(JS_TAG_EXCEPTION));
    fake.with(|w| w.results = vec![e]);
    context.eval_module_str(&mut js, "?", "m.js");
    let log = fake.take_log();
    assert_eq!(log.iter().filter(|l| *l == "std_loop 7").count(), 1);
    assert_eq!(log.last().unwrap(), "std_loop 7");
    assert!(!log.iter().any(|l| l.starts_with("eval_function")));
}
