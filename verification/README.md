# quickjs_sys

Typed access to the QuickJS engine from Rust, verified with Verus.

The library does not link against the engine. It reaches it through the trait `Engine`, which has
one method for each entry point over plain values and promises nothing. `Session` keeps a ghost
record of every question and answer. Each of its methods is proved to make the one call of the
engine that it writes down, and no other. The contract of each operation says exactly how the
record grows and what value comes out, whatever the engine answers.

| module      | what it holds                                                        |
|-------------|----------------------------------------------------------------------|
| `engine`    | the engine's entry points, the record of what was said to it         |
| `constants` | tags and flags of the engine                                         |
| `text`      | C strings and UTF-8                                                  |
| `value`     | typed values, their references, conversion to and from raw values    |
| `object`    | properties, methods, listing of properties                           |
| `array`     | arrays and array buffers                                             |
| `function`  | functions, promises, native functions that scripts call              |
| `context`   | contexts: evaluating code, making values, raising errors             |
| `cjs`       | CommonJS modules: `module`, `require`, `__dirname`                   |
| `path`      | slash-separated file names                                           |
| `droppable` | a value with its clean-up                                            |
| `laws`      | what holds across operations, whatever the engine answers            |
| `conduct`   | what holds across operations where the engine's answers agree        |

Values of the library are plain data, and nothing happens when one goes out of scope: giving up a
reference takes a session with the engine. A value that holds a reference is given up with
`release` and doubled with `duplicate`.

`app/` puts the real engine behind `Engine` and wraps the values in types that free themselves. A
program that uses it links `libquickjs.a`, built with 64-bit values.
