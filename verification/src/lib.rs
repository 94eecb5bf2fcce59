//! A compiler and runtime for Carta, a small declarative language that
//! describes the byte-level layout of a binary file.  A source text defines
//! named structs over fixed-width primitives and arrays; `compile_schema_file`
//! runs the pipeline — tokenise, parse, type check, correctness check — and
//! `apply_schema` walks the compiled schema over a byte array, producing a
//! tree of named, annotated spans.

use vstd::prelude::*;

pub mod error;
pub mod decimal;
pub mod text;
pub mod builtin_types;
pub mod tokeniser;
pub mod parser;
pub mod type_check;
pub mod correctness;
pub mod apply;
pub mod laws;

pub use apply::{Nugget, apply_schema};
pub use error::{CartaError, CartaErrorCode};
pub use parser::{ArrayDefn, ArrayLen, Element, ElementTypeRef, Schema, StructDefn,
    compile_schema};
pub use tokeniser::{Token, TokenType, TokenValue, Tokeniser};
pub use type_check::{TSchema, type_check_schema};
pub use correctness::check_schema;
pub use builtin_types::{BuiltinTypeClass, get_value, is_builtin_type, is_type_class};

use crate::error::ErrV;
use crate::parser::StructDefnV;

verus! {

/// What compiling a source text yields: the checked struct list, or the
/// first error of the first failing stage.
pub open spec fn spec_compile(cs: Seq<char>) -> Result<Seq<StructDefnV>, ErrV> {
    match tokeniser::spec_tokenise(cs) {
        Err(e) => Err(e),
        Ok(ts) => match parser::spec_parse(ts) {
            Err(e) => Err(e),
            Ok(sv) => match type_check::spec_type_check(sv) {
                Err(e) => Err(e),
                Ok(tv) => match correctness::spec_check_schema(tv) {
                    Err(e) => Err(e),
                    Ok(()) => Ok(tv),
                },
            },
        },
    }
}

/// Compiles a Carta source text into a checked schema.
pub fn compile_schema_file(data: &str) -> (r: Result<TSchema, CartaError>)
    requires
        data@.len() < usize::MAX,
    ensures
        r is Ok ==> spec_compile(data@) is Ok && r->Ok_0@ == spec_compile(data@)->Ok_0,
        r is Err ==> spec_compile(data@) is Err && r->Err_0@ == spec_compile(data@)->Err_0,
{
    let tok = match tokeniser::Tokeniser::new(data) {
        Ok(t) => t,
        Err(e) => {
            return Err(e);
        },
    };
    let schema = match parser::compile_schema(tok) {
        Ok(s) => s,
        Err(e) => {
            return Err(e);
        },
    };
    let tschema = match type_check::type_check_schema(schema) {
        Ok(t) => t,
        Err(e) => {
            return Err(e);
        },
    };
    match correctness::check_schema(&tschema) {
        Ok(()) => Ok(tschema),
        Err(e) => Err(e),
    }
}

} // verus!
