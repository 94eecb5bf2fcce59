//! The error model: every stage of the pipeline reports its first failure as a
//! `CartaError`, a source line number (1-based, or 0 when no position is
//! available) paired with a machine-inspectable code.

use vstd::prelude::*;

verus! {

/// The tagged code of a `CartaError`.
#[derive(Debug, Clone, PartialEq)]
pub enum CartaErrorCode {
    UnknownType(String),
    DuplicateType(String),
    RecursiveTypes(Vec<String>),
    UnknownSymbol(char),
    UnexpectedSymbol(String, char),
    UnclosedBlockComment,
    ParseError(String, String),
    IncompleteInput,
    MissingRootElement,
    BadArrayLen(String),
    BadArrayLenType(String),
    LeadingZero,
    IntegerTooLarge,
    TruncatedInput,
}

/// Mathematical model of an error code: strings become character sequences.
pub enum CodeV {
    UnknownType(Seq<char>),
    DuplicateType(Seq<char>),
    RecursiveTypes(Seq<Seq<char>>),
    UnknownSymbol(char),
    UnexpectedSymbol(Seq<char>, char),
    UnclosedBlockComment,
    ParseError(Seq<char>, Seq<char>),
    IncompleteInput,
    MissingRootElement,
    BadArrayLen(Seq<char>),
    BadArrayLenType(Seq<char>),
    LeadingZero,
    IntegerTooLarge,
    TruncatedInput,
}

impl View for CartaErrorCode {
    type V = CodeV;

    open spec fn view(&self) -> CodeV {
        match self {
            CartaErrorCode::UnknownType(s) => CodeV::UnknownType(s@),
            CartaErrorCode::DuplicateType(s) => CodeV::DuplicateType(s@),
            CartaErrorCode::RecursiveTypes(v) => CodeV::RecursiveTypes(
                Seq::new(v@.len(), |i: int| v@[i]@),
            ),
            CartaErrorCode::UnknownSymbol(c) => CodeV::UnknownSymbol(*c),
            CartaErrorCode::UnexpectedSymbol(e, c) => CodeV::UnexpectedSymbol(e@, *c),
            CartaErrorCode::UnclosedBlockComment => CodeV::UnclosedBlockComment,
            CartaErrorCode::ParseError(e, g) => CodeV::ParseError(e@, g@),
            CartaErrorCode::IncompleteInput => CodeV::IncompleteInput,
            CartaErrorCode::MissingRootElement => CodeV::MissingRootElement,
            CartaErrorCode::BadArrayLen(s) => CodeV::BadArrayLen(s@),
            CartaErrorCode::BadArrayLenType(s) => CodeV::BadArrayLenType(s@),
            CartaErrorCode::LeadingZero => CodeV::LeadingZero,
            CartaErrorCode::IntegerTooLarge => CodeV::IntegerTooLarge,
            CartaErrorCode::TruncatedInput => CodeV::TruncatedInput,
        }
    }
}

/// An error from compiling or applying a schema.
#[derive(Debug, Clone, PartialEq)]
pub struct CartaError {
    pub line_no: usize,
    pub code: CartaErrorCode,
}

/// Mathematical model of an error.
pub struct ErrV {
    pub line_no: nat,
    pub code: CodeV,
}

impl View for CartaError {
    type V = ErrV;

    open spec fn view(&self) -> ErrV {
        ErrV { line_no: self.line_no as nat, code: self.code@ }
    }
}

impl CartaError {
    pub fn new_unknown_type(line_no: usize, kind: String) -> (r: CartaError)
        ensures
            r@ == (ErrV { line_no: line_no as nat, code: CodeV::UnknownType(kind@) }),
    {
        CartaError { line_no, code: CartaErrorCode::UnknownType(kind) }
    }

    pub fn new_duplicate_type(line_no: usize, kind: String) -> (r: CartaError)
        ensures
            r@ == (ErrV { line_no: line_no as nat, code: CodeV::DuplicateType(kind@) }),
    {
        CartaError { line_no, code: CartaErrorCode::DuplicateType(kind) }
    }

    pub fn new_recursive_types(line_no: usize, kinds: Vec<String>) -> (r: CartaError)
        ensures
            r@ == (ErrV {
                line_no: line_no as nat,
                code: CodeV::RecursiveTypes(Seq::new(kinds@.len(), |i: int| kinds@[i]@)),
            }),
    {
        CartaError { line_no, code: CartaErrorCode::RecursiveTypes(kinds) }
    }

    pub fn new_unknown_symbol(line_no: usize, sym: char) -> (r: CartaError)
        ensures
            r@ == (ErrV { line_no: line_no as nat, code: CodeV::UnknownSymbol(sym) }),
    {
        CartaError { line_no, code: CartaErrorCode::UnknownSymbol(sym) }
    }

    pub fn new_unexpected_symbol(line_no: usize, expected: &str, got: char) -> (r: CartaError)
        ensures
            r@ == (ErrV {
                line_no: line_no as nat,
                code: CodeV::UnexpectedSymbol(expected@, got),
            }),
    {
        CartaError {
            line_no,
            code: CartaErrorCode::UnexpectedSymbol(expected.to_owned(), got),
        }
    }

    pub fn new_unclosed_block_comment(line_no: usize) -> (r: CartaError)
        ensures
            r@ == (ErrV { line_no: line_no as nat, code: CodeV::UnclosedBlockComment }),
    {
        CartaError { line_no, code: CartaErrorCode::UnclosedBlockComment }
    }

    pub fn new_parse_error(line_no: usize, expected: &str, got: String) -> (r: CartaError)
        ensures
            r@ == (ErrV {
                line_no: line_no as nat,
                code: CodeV::ParseError(expected@, got@),
            }),
    {
        CartaError {
            line_no,
            code: CartaErrorCode::ParseError(expected.to_owned(), got),
        }
    }

    pub fn new_incomplete_input(line_no: usize) -> (r: CartaError)
        ensures
            r@ == (ErrV { line_no: line_no as nat, code: CodeV::IncompleteInput }),
    {
        CartaError { line_no, code: CartaErrorCode::IncompleteInput }
    }

    pub fn new_missing_root_element(line_no: usize) -> (r: CartaError)
        ensures
            r@ == (ErrV { line_no: line_no as nat, code: CodeV::MissingRootElement }),
    {
        CartaError { line_no, code: CartaErrorCode::MissingRootElement }
    }

    pub fn new_bad_array_len(line_no: usize, len_desc: &str) -> (r: CartaError)
        ensures
            r@ == (ErrV { line_no: line_no as nat, code: CodeV::BadArrayLen(len_desc@) }),
    {
        CartaError { line_no, code: CartaErrorCode::BadArrayLen(len_desc.to_owned()) }
    }

    pub fn new_bad_array_len_type(line_no: usize, kind: &str) -> (r: CartaError)
        ensures
            r@ == (ErrV { line_no: line_no as nat, code: CodeV::BadArrayLenType(kind@) }),
    {
        CartaError { line_no, code: CartaErrorCode::BadArrayLenType(kind.to_owned()) }
    }

    pub fn new_leading_zero(line_no: usize) -> (r: CartaError)
        ensures
            r@ == (ErrV { line_no: line_no as nat, code: CodeV::LeadingZero }),
    {
        CartaError { line_no, code: CartaErrorCode::LeadingZero }
    }

    pub fn new_integer_too_large(line_no: usize) -> (r: CartaError)
        ensures
            r@ == (ErrV { line_no: line_no as nat, code: CodeV::IntegerTooLarge }),
    {
        CartaError { line_no, code: CartaErrorCode::IntegerTooLarge }
    }

    pub fn new_truncated_input(line_no: usize) -> (r: CartaError)
        ensures
            r@ == (ErrV { line_no: line_no as nat, code: CodeV::TruncatedInput }),
    {
        CartaError { line_no, code: CartaErrorCode::TruncatedInput }
    }
}

} // verus!
