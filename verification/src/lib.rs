//! Name resolution and type checking for Lumen modules.
use vstd::prelude::*;

pub mod ast;
pub mod boundary;
pub mod bounds;
pub mod building;
pub mod calls;
pub mod code;
pub mod definition;
pub mod derive;
pub mod environment;
pub mod error;
pub mod filed;
pub mod generalise;
pub mod held;
pub mod holds;
pub mod laws;
pub mod library;
pub mod lookup;
pub mod naming;
pub mod operators;
pub mod order;
pub mod prelude;
pub mod reaching_java;
pub mod records;
pub mod resolve;
pub mod scheme;
pub mod scope;
pub mod settle;
pub mod supplied;
pub mod surface;
pub mod table;
pub mod text;
pub mod type_error;
pub mod types;
pub mod unify;

verus! {

} // verus!
