//! Typed access to the QuickJS engine.
//!
//! The engine is reached through [`engine::Engine`], which promises nothing. Every operation
//! takes an [`engine::Session`], whose ghost record holds what the engine was asked and what it
//! answered; each method of the session is proved to make the call that it records. A contract
//! relates the record before an operation to the record after it and to the value that comes out:
//! what is asked, in which order, what becomes of each answer, and which references are given up.
//!
//! [`exchanges`], [`exchanges_of_objects`] and [`exchanges_of_code`] say what that means exchange
//! by exchange, [`laws`] what holds across operations, and [`conduct`] what follows where the
//! answers of the engine agree with one another.
pub mod array;
pub mod cjs;
pub mod conduct;
pub mod constants;
pub mod context;
pub mod droppable;
pub mod engine;
pub mod exchanges;
pub mod exchanges_of_code;
pub mod exchanges_of_objects;
pub mod function;
pub mod laws;
pub mod object;
pub mod path;
pub mod text;
pub mod value;
