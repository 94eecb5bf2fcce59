//! The parser: a state machine over the token stream that builds a `Schema`,
//! the ordered list of struct definitions exactly as they stand in the
//! source.  At file scope only `struct` definitions (and blank lines) are
//! accepted.

use vstd::prelude::*;
use crate::decimal::spec_dec;
use crate::error::{CartaError, CodeV, ErrV};
use crate::tokeniser::{Token, TokenType, TokenV, TokenValue, Tokeniser, ValueV, toks_view};

verus! {

/// An ordered list of struct definitions, in source order.
#[derive(Debug, PartialEq)]
pub struct Schema {
    pub structs: Vec<StructDefn>,
}

/// A named struct: an ordered list of elements.
#[derive(Debug, PartialEq, Clone)]
pub struct StructDefn {
    pub name: String,
    pub line_no: usize,
    pub elements: Vec<Element>,
}

/// A named field of a struct.
#[derive(Debug, PartialEq, Clone)]
pub struct Element {
    pub name: String,
    pub line_no: usize,
    pub kind: ElementTypeRef,
}

/// What an element is: a single named type, or an array.
#[derive(Debug, PartialEq, Clone)]
pub enum ElementTypeRef {
    TypeName(String),
    ArrayElem(ArrayDefn),
}

/// An array: the element type name and the length.
#[derive(Debug, PartialEq, Clone)]
pub struct ArrayDefn {
    pub kind: String,
    pub length: ArrayLen,
}

/// An array length: a reference to an earlier sibling, or a literal count.
#[derive(Debug, PartialEq, Clone)]
pub enum ArrayLen {
    Identifier(String),
    Static(u32),
}

/// Mathematical model of an array length.
pub enum ArrayLenV {
    Identifier(Seq<char>),
    Static(nat),
}

impl View for ArrayLen {
    type V = ArrayLenV;

    open spec fn view(&self) -> ArrayLenV {
        match self {
            ArrayLen::Identifier(s) => ArrayLenV::Identifier(s@),
            ArrayLen::Static(v) => ArrayLenV::Static(*v as nat),
        }
    }
}

/// Mathematical model of an array.
pub struct ArrayDefnV {
    pub kind: Seq<char>,
    pub length: ArrayLenV,
}

impl View for ArrayDefn {
    type V = ArrayDefnV;

    open spec fn view(&self) -> ArrayDefnV {
        ArrayDefnV { kind: self.kind@, length: self.length@ }
    }
}

/// Mathematical model of an element's kind.
pub enum ETypeV {
    TypeName(Seq<char>),
    ArrayElem(ArrayDefnV),
}

impl View for ElementTypeRef {
    type V = ETypeV;

    open spec fn view(&self) -> ETypeV {
        match self {
            ElementTypeRef::TypeName(s) => ETypeV::TypeName(s@),
            ElementTypeRef::ArrayElem(a) => ETypeV::ArrayElem(a@),
        }
    }
}

/// Mathematical model of an element.
pub struct ElementV {
    pub name: Seq<char>,
    pub line_no: nat,
    pub kind: ETypeV,
}

impl View for Element {
    type V = ElementV;

    open spec fn view(&self) -> ElementV {
        ElementV { name: self.name@, line_no: self.line_no as nat, kind: self.kind@ }
    }
}

/// Mathematical model of a struct definition.
pub struct StructDefnV {
    pub name: Seq<char>,
    pub line_no: nat,
    pub elements: Seq<ElementV>,
}

impl View for StructDefn {
    type V = StructDefnV;

    open spec fn view(&self) -> StructDefnV {
        StructDefnV {
            name: self.name@,
            line_no: self.line_no as nat,
            elements: self.elements@.map_values(|e: Element| e@),
        }
    }
}

impl View for Schema {
    type V = Seq<StructDefnV>;

    open spec fn view(&self) -> Seq<StructDefnV> {
        self.structs@.map_values(|s: StructDefn| s@)
    }
}

/// The token's payload as text, for error messages.
pub open spec fn spec_token_text(t: TokenV) -> Seq<char> {
    match t.value {
        ValueV::StrV(s) => s,
        ValueV::IntV(v) => spec_dec(v),
    }
}

/// The token's integer payload; tokens without one count as zero.
pub open spec fn spec_token_int(t: TokenV) -> nat {
    match t.value {
        ValueV::IntV(v) => v,
        ValueV::StrV(_) => 0,
    }
}

pub open spec fn parse_err(line: nat, expected: Seq<char>, got: Seq<char>) -> ErrV {
    ErrV { line_no: line, code: CodeV::ParseError(expected, got) }
}

/// Where a struct definition in progress stands.
#[derive(Debug, Clone, Copy, PartialEq, Eq, Structural)]
pub enum StructSub {
    /// After the `struct` keyword.
    Begin,
    /// After the name.
    Name,
    /// Inside the braces, before or between elements.
    OpenBrace,
    /// After an element name.
    ChildName,
    /// After the colon.
    ChildTypeOf,
    /// After an element's type; a comma or the closing brace follows.
    ChildKind,
}

/// Where an array in progress stands.
#[derive(Debug, Clone, Copy, PartialEq, Eq, Structural)]
pub enum ArraySub {
    /// After the opening bracket.
    Begin,
    /// After the element type name.
    Kind,
    /// After the semicolon.
    Semicolon,
    /// After the length; the closing bracket follows.
    Length,
}

/// Model of a struct definition in progress.
pub struct StructStV {
    pub sub: StructSub,
    pub name: Seq<char>,
    pub line_no: nat,
    pub elements: Seq<ElementV>,
    pub child_name: Seq<char>,
    pub child_line: nat,
}

/// Model of an array in progress.
pub struct ArrayStV {
    pub sub: ArraySub,
    pub kind: Seq<char>,
    pub length: ArrayLenV,
}

/// The parser state between two tokens.
pub enum ParseStV {
    Empty,
    InStruct(StructStV),
    InArray(StructStV, ArrayStV),
}

pub open spec fn fresh_struct_state() -> StructStV {
    StructStV {
        sub: StructSub::Begin,
        name: Seq::empty(),
        line_no: 0,
        elements: Seq::empty(),
        child_name: Seq::empty(),
        child_line: 0,
    }
}

pub open spec fn fresh_array_state() -> ArrayStV {
    ArrayStV { sub: ArraySub::Begin, kind: Seq::empty(), length: ArrayLenV::Static(0) }
}

/// Handling of a token at file scope.
pub open spec fn spec_pdispatch(t: TokenV) -> Result<(ParseStV, Seq<StructDefnV>), ErrV> {
    if t.kind == TokenType::NewLine {
        Ok((ParseStV::Empty, seq![]))
    } else if t.kind == TokenType::Word && spec_token_text(t) == "struct"@ {
        Ok((ParseStV::InStruct(fresh_struct_state()), seq![]))
    } else {
        Err(parse_err(t.line_no, "<keyword>"@, spec_token_text(t)))
    }
}

/// One step of the parser on token `t`.
pub open spec fn spec_pstep(st: ParseStV, t: TokenV) -> Result<
    (ParseStV, Seq<StructDefnV>),
    ErrV,
> {
    match st {
        ParseStV::Empty => spec_pdispatch(t),
        ParseStV::InStruct(ss) => {
            if t.kind == TokenType::NewLine {
                Ok((ParseStV::InStruct(ss), seq![]))
            } else {
                match ss.sub {
                    StructSub::Begin => {
                        if t.kind == TokenType::Word {
                            Ok(
                                (
                                    ParseStV::InStruct(
                                        StructStV {
                                            sub: StructSub::Name,
                                            name: spec_token_text(t),
                                            line_no: t.line_no,
                                            ..ss
                                        },
                                    ),
                                    seq![],
                                ),
                            )
                        } else {
                            Err(parse_err(t.line_no, "<name>"@, spec_token_text(t)))
                        }
                    },
                    StructSub::Name => {
                        if t.kind == TokenType::OpenBrace {
                            Ok(
                                (
                                    ParseStV::InStruct(StructStV { sub: StructSub::OpenBrace, ..ss }),
                                    seq![],
                                ),
                            )
                        } else {
                            Err(parse_err(t.line_no, "{"@, spec_token_text(t)))
                        }
                    },
                    StructSub::OpenBrace => {
                        if t.kind == TokenType::CloseBrace {
                            Ok(
                                (
                                    ParseStV::Empty,
                                    seq![
                                        StructDefnV {
                                            name: ss.name,
                                            line_no: ss.line_no,
                                            elements: ss.elements,
                                        },
                                    ],
                                ),
                            )
                        } else if t.kind == TokenType::Word {
                            Ok(
                                (
                                    ParseStV::InStruct(
                                        StructStV {
                                            sub: StructSub::ChildName,
                                            child_name: spec_token_text(t),
                                            child_line: t.line_no,
                                            ..ss
                                        },
                                    ),
                                    seq![],
                                ),
                            )
                        } else {
                            Err(parse_err(t.line_no, "}"@, spec_token_text(t)))
                        }
                    },
                    StructSub::ChildName => {
                        if t.kind == TokenType::Colon {
                            Ok(
                                (
                                    ParseStV::InStruct(
                                        StructStV { sub: StructSub::ChildTypeOf, ..ss },
                                    ),
                                    seq![],
                                ),
                            )
                        } else {
                            Err(parse_err(t.line_no, ":"@, spec_token_text(t)))
                        }
                    },
                    StructSub::ChildTypeOf => {
                        if t.kind == TokenType::Word {
                            Ok(
                                (
                                    ParseStV::InStruct(
                                        StructStV {
                                            sub: StructSub::ChildKind,
                                            elements: ss.elements.push(
                                                ElementV {
                                                    name: ss.child_name,
                                                    line_no: ss.child_line,
                                                    kind: ETypeV::TypeName(spec_token_text(t)),
                                                },
                                            ),
                                            ..ss
                                        },
                                    ),
                                    seq![],
                                ),
                            )
                        } else if t.kind == TokenType::OpenBracket {
                            Ok(
                                (
                                    ParseStV::InArray(
                                        StructStV { sub: StructSub::ChildKind, ..ss },
                                        fresh_array_state(),
                                    ),
                                    seq![],
                                ),
                            )
                        } else {
                            Err(parse_err(t.line_no, "<typename>"@, spec_token_text(t)))
                        }
                    },
                    StructSub::ChildKind => {
                        if t.kind == TokenType::Comma {
                            Ok(
                                (
                                    ParseStV::InStruct(StructStV { sub: StructSub::OpenBrace, ..ss }),
                                    seq![],
                                ),
                            )
                        } else if t.kind == TokenType::CloseBrace {
                            Ok(
                                (
                                    ParseStV::Empty,
                                    seq![
                                        StructDefnV {
                                            name: ss.name,
                                            line_no: ss.line_no,
                                            elements: ss.elements,
                                        },
                                    ],
                                ),
                            )
                        } else {
                            Err(parse_err(t.line_no, ","@, spec_token_text(t)))
                        }
                    },
                }
            }
        },
        ParseStV::InArray(ss, ar) => {
            if t.kind == TokenType::NewLine {
                Ok((ParseStV::InArray(ss, ar), seq![]))
            } else {
                match ar.sub {
                    ArraySub::Begin => {
                        if t.kind == TokenType::Word {
                            Ok(
                                (
                                    ParseStV::InArray(
                                        ss,
                                        ArrayStV {
                                            sub: ArraySub::Kind,
                                            kind: spec_token_text(t),
                                            ..ar
                                        },
                                    ),
                                    seq![],
                                ),
                            )
                        } else {
                            Err(parse_err(t.line_no, "<typename>"@, spec_token_text(t)))
                        }
                    },
                    ArraySub::Kind => {
                        if t.kind == TokenType::Semicolon {
                            Ok(
                                (
                                    ParseStV::InArray(ss, ArrayStV { sub: ArraySub::Semicolon, ..ar }),
                                    seq![],
                                ),
                            )
                        } else {
                            Err(parse_err(t.line_no, ";"@, spec_token_text(t)))
                        }
                    },
                    ArraySub::Semicolon => {
                        if t.kind == TokenType::Word {
                            Ok(
                                (
                                    ParseStV::InArray(
                                        ss,
                                        ArrayStV {
                                            sub: ArraySub::Length,
                                            length: ArrayLenV::Identifier(spec_token_text(t)),
                                            ..ar
                                        },
                                    ),
                                    seq![],
                                ),
                            )
                        } else if t.kind == TokenType::Integer {
                            Ok(
                                (
                                    ParseStV::InArray(
                                        ss,
                                        ArrayStV {
                                            sub: ArraySub::Length,
                                            length: ArrayLenV::Static(spec_token_int(t)),
                                            ..ar
                                        },
                                    ),
                                    seq![],
                                ),
                            )
                        } else {
                            Err(parse_err(t.line_no, "<array_length>"@, spec_token_text(t)))
                        }
                    },
                    ArraySub::Length => {
                        if t.kind == TokenType::CloseBracket {
                            Ok(
                                (
                                    ParseStV::InStruct(
                                        StructStV {
                                            elements: ss.elements.push(
                                                ElementV {
                                                    name: ss.child_name,
                                                    line_no: ss.child_line,
                                                    kind: ETypeV::ArrayElem(
                                                        ArrayDefnV { kind: ar.kind, length: ar.length },
                                                    ),
                                                },
                                            ),
                                            ..ss
                                        },
                                    ),
                                    seq![],
                                ),
                            )
                        } else {
                            Err(parse_err(t.line_no, "]"@, spec_token_text(t)))
                        }
                    },
                }
            }
        },
    }
}

/// Runs the parser over the remaining tokens.
pub open spec fn spec_parse_from(st: ParseStV, ts: Seq<TokenV>) -> Result<Seq<StructDefnV>, ErrV>
    decreases ts.len(),
{
    if ts.len() == 0 {
        match st {
            ParseStV::Empty => Ok(seq![]),
            _ => Err(ErrV { line_no: 0, code: CodeV::IncompleteInput }),
        }
    } else {
        match spec_pstep(st, ts[0]) {
            Err(e) => Err(e),
            Ok((st2, out)) => match spec_parse_from(st2, ts.skip(1)) {
                Ok(rest) => Ok(out + rest),
                Err(e) => Err(e),
            },
        }
    }
}

/// The struct list a token stream parses to, or its first error.
pub open spec fn spec_parse(ts: Seq<TokenV>) -> Result<Seq<StructDefnV>, ErrV> {
    spec_parse_from(ParseStV::Empty, ts)
}

/// The executable struct-in-progress.
struct StructSt {
    sub: StructSub,
    name: String,
    line_no: usize,
    elements: Vec<Element>,
    child_name: String,
    child_line: usize,
}

impl StructSt {
    spec fn view(&self) -> StructStV {
        StructStV {
            sub: self.sub,
            name: self.name@,
            line_no: self.line_no as nat,
            elements: self.elements@.map_values(|e: Element| e@),
            child_name: self.child_name@,
            child_line: self.child_line as nat,
        }
    }
}

/// The executable array-in-progress.
struct ArraySt {
    sub: ArraySub,
    kind: String,
    length: ArrayLen,
}

impl ArraySt {
    spec fn view(&self) -> ArrayStV {
        ArrayStV { sub: self.sub, kind: self.kind@, length: self.length@ }
    }
}

/// The executable parser state.
enum ParseSt {
    Empty,
    InStruct(StructSt),
    InArray(StructSt, ArraySt),
}

impl ParseSt {
    spec fn view(&self) -> ParseStV {
        match self {
            ParseSt::Empty => ParseStV::Empty,
            ParseSt::InStruct(ss) => ParseStV::InStruct(ss.view()),
            ParseSt::InArray(ss, ar) => ParseStV::InArray(ss.view(), ar.view()),
        }
    }
}

/// The struct list a struct vector models.
pub open spec fn structs_view(v: Seq<StructDefn>) -> Seq<StructDefnV> {
    v.map_values(|s: StructDefn| s@)
}

/// One step of the parser, pushing any finished struct.
fn exec_pstep(st: ParseSt, t: Token, structs: &mut Vec<StructDefn>) -> (r: Result<
    ParseSt,
    CartaError,
>)
    ensures
        match spec_pstep(st.view(), t@) {
            Ok((st2, out)) => r is Ok && r->Ok_0.view() == st2 && structs_view(final(structs)@)
                == structs_view(old(structs)@) + out,
            Err(e) => r is Err && r->Err_0@ == e,
        },
{
    proof {
        assert(structs_view(old(structs)@) + Seq::<StructDefnV>::empty() =~= structs_view(
            old(structs)@,
        ));
    }
    match st {
        ParseSt::Empty => {
            if t.kind == TokenType::NewLine {
                Ok(ParseSt::Empty)
            } else if t.kind == TokenType::Word {
                let line_no = t.line_no;
                let text = t.get_string();
                if crate::text::str_eq(text.as_str(), "struct") {
                    let ns = StructSt {
                        sub: StructSub::Begin,
                        name: String::new(),
                        line_no: 0,
                        elements: Vec::new(),
                        child_name: String::new(),
                        child_line: 0,
                    };
                    proof {
                        assert(ns.view().elements =~= Seq::<ElementV>::empty());
                        assert(ns.view() == fresh_struct_state());
                    }
                    Ok(ParseSt::InStruct(ns))
                } else {
                    Err(CartaError::new_parse_error(line_no, "<keyword>", text))
                }
            } else {
                let line_no = t.line_no;
                Err(CartaError::new_parse_error(line_no, "<keyword>", t.get_string()))
            }
        },
        ParseSt::InStruct(mut ss) => {
            let ghost ssv0 = ss.view();
            if t.kind == TokenType::NewLine {
                return Ok(ParseSt::InStruct(ss));
            }
            match ss.sub {
                StructSub::Begin => {
                    if t.kind == TokenType::Word {
                        let line_no = t.line_no;
                        ss.name = t.get_string();
                        ss.line_no = line_no;
                        ss.sub = StructSub::Name;
                        proof {
                            assert(ss.view().elements =~= ssv0.elements);
                        }
                        Ok(ParseSt::InStruct(ss))
                    } else {
                        Err(CartaError::new_parse_error(t.line_no, "<name>", t.get_string()))
                    }
                },
                StructSub::Name => {
                    if t.kind == TokenType::OpenBrace {
                        ss.sub = StructSub::OpenBrace;
                        proof {
                            assert(ss.view().elements =~= ssv0.elements);
                        }
                        Ok(ParseSt::InStruct(ss))
                    } else {
                        Err(CartaError::new_parse_error(t.line_no, "{", t.get_string()))
                    }
                },
                StructSub::OpenBrace => {
                    if t.kind == TokenType::CloseBrace {
                        let defn = StructDefn {
                            name: ss.name,
                            line_no: ss.line_no,
                            elements: ss.elements,
                        };
                        let ghost defn_v = defn@;
                        structs.push(defn);
                        proof {
                            assert(structs_view(structs@) =~= structs_view(old(structs)@) + seq![
                                defn_v,
                            ]);
                        }
                        Ok(ParseSt::Empty)
                    } else if t.kind == TokenType::Word {
                        let line_no = t.line_no;
                        ss.child_name = t.get_string();
                        ss.child_line = line_no;
                        ss.sub = StructSub::ChildName;
                        proof {
                            assert(ss.view().elements =~= ssv0.elements);
                        }
                        Ok(ParseSt::InStruct(ss))
                    } else {
                        Err(CartaError::new_parse_error(t.line_no, "}", t.get_string()))
                    }
                },
                StructSub::ChildName => {
                    if t.kind == TokenType::Colon {
                        ss.sub = StructSub::ChildTypeOf;
                        proof {
                            assert(ss.view().elements =~= ssv0.elements);
                        }
                        Ok(ParseSt::InStruct(ss))
                    } else {
                        Err(CartaError::new_parse_error(t.line_no, ":", t.get_string()))
                    }
                },
                StructSub::ChildTypeOf => {
                    if t.kind == TokenType::Word {
                        let elem = Element {
                            name: ss.child_name.clone(),
                            line_no: ss.child_line,
                            kind: ElementTypeRef::TypeName(t.get_string()),
                        };
                        let ghost elems_v = ss.view().elements;
                        let ghost elem_v = elem@;
                        ss.elements.push(elem);
                        ss.sub = StructSub::ChildKind;
                        proof {
                            assert(ss.view().elements =~= elems_v.push(elem_v));
                        }
                        Ok(ParseSt::InStruct(ss))
                    } else if t.kind == TokenType::OpenBracket {
                        ss.sub = StructSub::ChildKind;
                        proof {
                            assert(ss.view().elements =~= ssv0.elements);
                        }
                        Ok(
                            ParseSt::InArray(
                                ss,
                                ArraySt {
                                    sub: ArraySub::Begin,
                                    kind: String::new(),
                                    length: ArrayLen::Static(0),
                                },
                            ),
                        )
                    } else {
                        Err(CartaError::new_parse_error(t.line_no, "<typename>", t.get_string()))
                    }
                },
                StructSub::ChildKind => {
                    if t.kind == TokenType::Comma {
                        ss.sub = StructSub::OpenBrace;
                        proof {
                            assert(ss.view().elements =~= ssv0.elements);
                        }
                        Ok(ParseSt::InStruct(ss))
                    } else if t.kind == TokenType::CloseBrace {
                        let defn = StructDefn {
                            name: ss.name,
                            line_no: ss.line_no,
                            elements: ss.elements,
                        };
                        let ghost defn_v = defn@;
                        structs.push(defn);
                        proof {
                            assert(structs_view(structs@) =~= structs_view(old(structs)@) + seq![
                                defn_v,
                            ]);
                        }
                        Ok(ParseSt::Empty)
                    } else {
                        Err(CartaError::new_parse_error(t.line_no, ",", t.get_string()))
                    }
                },
            }
        },
        ParseSt::InArray(mut ss, mut ar) => {
            if t.kind == TokenType::NewLine {
                return Ok(ParseSt::InArray(ss, ar));
            }
            match ar.sub {
                ArraySub::Begin => {
                    if t.kind == TokenType::Word {
                        ar.kind = t.get_string();
                        ar.sub = ArraySub::Kind;
                        Ok(ParseSt::InArray(ss, ar))
                    } else {
                        Err(CartaError::new_parse_error(t.line_no, "<typename>", t.get_string()))
                    }
                },
                ArraySub::Kind => {
                    if t.kind == TokenType::Semicolon {
                        ar.sub = ArraySub::Semicolon;
                        Ok(ParseSt::InArray(ss, ar))
                    } else {
                        Err(CartaError::new_parse_error(t.line_no, ";", t.get_string()))
                    }
                },
                ArraySub::Semicolon => {
                    if t.kind == TokenType::Word {
                        ar.length = ArrayLen::Identifier(t.get_string());
                        ar.sub = ArraySub::Length;
                        Ok(ParseSt::InArray(ss, ar))
                    } else if t.kind == TokenType::Integer {
                        let v: u32 = match t.value {
                            TokenValue::IntVal(v) => v,
                            TokenValue::StringVal(_) => 0,
                        };
                        ar.length = ArrayLen::Static(v);
                        ar.sub = ArraySub::Length;
                        Ok(ParseSt::InArray(ss, ar))
                    } else {
                        Err(
                            CartaError::new_parse_error(
                                t.line_no,
                                "<array_length>",
                                t.get_string(),
                            ),
                        )
                    }
                },
                ArraySub::Length => {
                    if t.kind == TokenType::CloseBracket {
                        let elem = Element {
                            name: ss.child_name.clone(),
                            line_no: ss.child_line,
                            kind: ElementTypeRef::ArrayElem(
                                ArrayDefn { kind: ar.kind, length: ar.length },
                            ),
                        };
                        let ghost elems_v = ss.view().elements;
                        let ghost elem_v = elem@;
                        ss.elements.push(elem);
                        proof {
                            assert(ss.view().elements =~= elems_v.push(elem_v));
                        }
                        Ok(ParseSt::InStruct(ss))
                    } else {
                        Err(CartaError::new_parse_error(t.line_no, "]", t.get_string()))
                    }
                },
            }
        },
    }
}

/// Parses a token stream into a schema, or reports the first error.
pub fn compile_schema(tokeniser: Tokeniser) -> (r: Result<Schema, CartaError>)
    ensures
        r is Ok ==> spec_parse(tokeniser@) is Ok && r->Ok_0@ == spec_parse(tokeniser@)->Ok_0,
        r is Err ==> spec_parse(tokeniser@) is Err && r->Err_0@ == spec_parse(tokeniser@)->Err_0,
{
    let ghost all = tokeniser@;
    let mut toks = tokeniser.into_iter();
    let mut structs: Vec<StructDefn> = Vec::new();
    let mut st = ParseSt::Empty;
    #[verifier::loop_isolation(false)]
    while toks.len() > 0
        invariant
            spec_parse(all) == match spec_parse_from(st.view(), toks_view(toks@)) {
                Ok(rest) => Ok::<Seq<StructDefnV>, ErrV>(structs_view(structs@) + rest),
                Err(e) => Err::<Seq<StructDefnV>, ErrV>(e),
            },
        decreases toks@.len(),
    {
        let ghost prev_st = st.view();
        let ghost prev_toks = toks_view(toks@);
        let ghost prev_structs = structs_view(structs@);
        let t = toks.remove(0);
        proof {
            assert(toks_view(toks@) =~= prev_toks.skip(1));
            assert(prev_toks[0] == t@);
        }
        let r = exec_pstep(st, t, &mut structs);
        match r {
            Ok(st2) => {
                st = st2;
            },
            Err(e) => {
                proof {
                    match spec_pstep(prev_st, t@) {
                        Err(se) => {
                            assert(spec_parse_from(prev_st, prev_toks) == Err::<
                                Seq<StructDefnV>,
                                ErrV,
                            >(se));
                        },
                        Ok(_) => {},
                    }
                    assert(spec_parse_from(prev_st, prev_toks) == Err::<
                        Seq<StructDefnV>,
                        ErrV,
                    >(e@));
                    assert(spec_parse(all) == Err::<Seq<StructDefnV>, ErrV>(e@));
                }
                return Err(e);
            },
        }
        proof {
            match spec_pstep(prev_st, t@) {
                Ok((st2v, out)) => {
                    match spec_parse_from(st2v, toks_view(toks@)) {
                        Ok(rest) => {
                            assert(prev_structs + (out + rest) =~= (prev_structs + out) + rest);
                        },
                        Err(_) => {},
                    }
                },
                Err(_) => {},
            }
        }
    }
    proof {
        assert(toks_view(toks@) =~= Seq::<TokenV>::empty());
    }
    match st {
        ParseSt::Empty => {
            proof {
                assert(structs_view(structs@) + Seq::<StructDefnV>::empty() =~= structs_view(
                    structs@,
                ));
            }
            Ok(Schema { structs })
        },
        _ => Err(CartaError::new_incomplete_input(0)),
    }
}

} // verus!
