//! The tokeniser: a single-pass, character-by-character state machine over
//! the source text.  It produces the flat token sequence that the parser
//! consumes, with each token carrying the 1-based line of its first
//! character; a newline belongs to the line it ends.

use vstd::prelude::*;
use crate::decimal::pow10;
use crate::error::{CartaError, CodeV, ErrV};
use crate::text::push_char;

verus! {

/// The kind of a token.
#[derive(Debug, Clone, Copy, PartialEq, Eq, Structural)]
pub enum TokenType {
    /// Starts with `_` or a letter; continues with letters, digits or `_`.
    Word,
    /// `:`
    Colon,
    /// A newline character.
    NewLine,
    /// `{`
    OpenBrace,
    /// `}`
    CloseBrace,
    /// `,`
    Comma,
    /// `[`
    OpenBracket,
    /// `]`
    CloseBracket,
    /// `;`
    Semicolon,
    /// Starts with 1-9; at most nine digits, so it always fits in a `u32`.
    Integer,
}

/// A token's payload: the text for words and punctuation, the value for
/// integer literals.
#[derive(Debug, Clone, PartialEq)]
pub enum TokenValue {
    StringVal(String),
    IntVal(u32),
}

/// Mathematical model of a token payload.
pub enum ValueV {
    StrV(Seq<char>),
    IntV(nat),
}

impl View for TokenValue {
    type V = ValueV;

    open spec fn view(&self) -> ValueV {
        match self {
            TokenValue::StringVal(s) => ValueV::StrV(s@),
            TokenValue::IntVal(v) => ValueV::IntV(*v as nat),
        }
    }
}

/// A token: its kind, the line its first character stood on, and its payload.
#[derive(Debug, Clone, PartialEq)]
pub struct Token {
    pub kind: TokenType,
    pub line_no: usize,
    pub value: TokenValue,
}

/// Mathematical model of a token.
pub struct TokenV {
    pub kind: TokenType,
    pub line_no: nat,
    pub value: ValueV,
}

impl View for Token {
    type V = TokenV;

    open spec fn view(&self) -> TokenV {
        TokenV { kind: self.kind, line_no: self.line_no as nat, value: self.value@ }
    }
}

impl Token {
    pub fn new(kind: TokenType, line_no: usize, value: TokenValue) -> (r: Token)
        ensures
            r@ == (TokenV { kind, line_no: line_no as nat, value: value@ }),
    {
        Token { kind, line_no, value }
    }

    /// The payload as text; an integer renders in decimal.
    pub fn get_string(self) -> (r: String)
        ensures
            self@.value matches ValueV::StrV(s) ==> r@ == s,
            self@.value matches ValueV::IntV(v) ==> r@ == crate::decimal::spec_dec(v),
    {
        match self.value {
            TokenValue::StringVal(s) => s,
            TokenValue::IntVal(v) => {
                let chars = crate::decimal::u64_dec_chars(v as u64);
                crate::text::chars_to_string(&chars)
            },
        }
    }

    /// Borrows the payload text; only word and punctuation tokens carry
    /// one.
    pub fn value(&self) -> (r: &str)
        requires
            self@.value is StrV,
        ensures
            r@ == self@.value->StrV_0,
    {
        match &self.value {
            TokenValue::StringVal(s) => s.as_str(),
            TokenValue::IntVal(_) => {
                proof {
                    assert(false);
                }
                ""
            },
        }
    }

    /// The payload as an integer; only integer tokens have one.
    pub fn get_int(self) -> (r: u32)
        requires
            self@.value is IntV,
        ensures
            r as nat == self@.value->IntV_0,
    {
        match self.value {
            TokenValue::StringVal(_) => {
                proof {
                    assert(false);
                }
                0
            },
            TokenValue::IntVal(v) => v,
        }
    }
}

/// The tokeniser state between two characters.
pub enum LexStV {
    Empty,
    /// An open word: its characters so far and its starting line.
    Word(Seq<char>, nat),
    /// An open integer: its value, digit count and starting line.
    Int(nat, nat, nat),
    /// A `/` was seen; the comment form is not yet known.
    CommentStart,
    LineComment,
    BlockComment,
    /// A `*` was seen inside a block comment.
    BlockEnd,
}

pub open spec fn word_start_char(c: char) -> bool {
    ('a' <= c && c <= 'z') || ('A' <= c && c <= 'Z') || c == '_'
}

pub open spec fn word_char(c: char) -> bool {
    word_start_char(c) || digit_char_p(c)
}

pub open spec fn digit_char_p(c: char) -> bool {
    '0' <= c && c <= '9'
}

pub open spec fn digit_of(c: char) -> nat {
    (c as int - '0' as int) as nat
}

pub open spec fn str_tok(kind: TokenType, line: nat, s: Seq<char>) -> TokenV {
    TokenV { kind, line_no: line, value: ValueV::StrV(s) }
}

pub open spec fn int_tok(line: nat, v: nat) -> TokenV {
    TokenV { kind: TokenType::Integer, line_no: line, value: ValueV::IntV(v) }
}

pub open spec fn lex_err(code: CodeV) -> ErrV {
    ErrV { line_no: 0, code }
}

/// Handling of a character met with no token under construction.
pub open spec fn spec_dispatch(c: char, line: nat) -> Result<(LexStV, Seq<TokenV>), ErrV> {
    if c == '\n' {
        Ok((LexStV::Empty, seq![str_tok(TokenType::NewLine, line, seq![c])]))
    } else if c == ' ' || c == '\t' {
        Ok((LexStV::Empty, seq![]))
    } else if word_start_char(c) {
        Ok((LexStV::Word(seq![c], line), seq![]))
    } else if digit_char_p(c) {
        if c == '0' {
            Err(lex_err(CodeV::LeadingZero))
        } else {
            Ok((LexStV::Int(digit_of(c), 1, line), seq![]))
        }
    } else if c == ':' {
        Ok((LexStV::Empty, seq![str_tok(TokenType::Colon, line, seq![c])]))
    } else if c == '{' {
        Ok((LexStV::Empty, seq![str_tok(TokenType::OpenBrace, line, seq![c])]))
    } else if c == '}' {
        Ok((LexStV::Empty, seq![str_tok(TokenType::CloseBrace, line, seq![c])]))
    } else if c == ',' {
        Ok((LexStV::Empty, seq![str_tok(TokenType::Comma, line, seq![c])]))
    } else if c == '[' {
        Ok((LexStV::Empty, seq![str_tok(TokenType::OpenBracket, line, seq![c])]))
    } else if c == ']' {
        Ok((LexStV::Empty, seq![str_tok(TokenType::CloseBracket, line, seq![c])]))
    } else if c == ';' {
        Ok((LexStV::Empty, seq![str_tok(TokenType::Semicolon, line, seq![c])]))
    } else if c == '/' {
        Ok((LexStV::CommentStart, seq![]))
    } else {
        Err(lex_err(CodeV::UnknownSymbol(c)))
    }
}

/// One step of the state machine on character `c` at line `line`.
pub open spec fn spec_step(st: LexStV, c: char, line: nat) -> Result<(LexStV, Seq<TokenV>), ErrV> {
    match st {
        LexStV::Empty => spec_dispatch(c, line),
        LexStV::Word(buf, l) => {
            if word_char(c) {
                Ok((LexStV::Word(buf.push(c), l), seq![]))
            } else {
                match spec_dispatch(c, line) {
                    Ok((st2, ts)) => Ok(
                        (st2, seq![str_tok(TokenType::Word, l, buf)] + ts),
                    ),
                    Err(e) => Err(e),
                }
            }
        },
        LexStV::Int(v, n, l) => {
            if digit_char_p(c) {
                if n > 8 {
                    Err(lex_err(CodeV::IntegerTooLarge))
                } else {
                    Ok((LexStV::Int(10 * v + digit_of(c), n + 1, l), seq![]))
                }
            } else {
                match spec_dispatch(c, line) {
                    Ok((st2, ts)) => Ok((st2, seq![int_tok(l, v)] + ts)),
                    Err(e) => Err(e),
                }
            }
        },
        LexStV::CommentStart => {
            if c == '/' {
                Ok((LexStV::LineComment, seq![]))
            } else if c == '*' {
                Ok((LexStV::BlockComment, seq![]))
            } else {
                Err(lex_err(CodeV::UnexpectedSymbol("* or /"@, c)))
            }
        },
        LexStV::LineComment => {
            if c == '\n' {
                Ok((LexStV::Empty, seq![]))
            } else {
                Ok((LexStV::LineComment, seq![]))
            }
        },
        LexStV::BlockComment => {
            if c == '*' {
                Ok((LexStV::BlockEnd, seq![]))
            } else {
                Ok((LexStV::BlockComment, seq![]))
            }
        },
        LexStV::BlockEnd => {
            if c == '/' {
                Ok((LexStV::Empty, seq![]))
            } else {
                Ok((LexStV::BlockComment, seq![]))
            }
        },
    }
}

/// What the state machine yields when the input ends.
pub open spec fn spec_eof(st: LexStV) -> Result<Seq<TokenV>, ErrV> {
    match st {
        LexStV::Empty => Ok(seq![]),
        LexStV::Word(buf, l) => Ok(seq![str_tok(TokenType::Word, l, buf)]),
        LexStV::Int(v, n, l) => Ok(seq![int_tok(l, v)]),
        LexStV::CommentStart => Ok(seq![]),
        LexStV::LineComment => Ok(seq![]),
        LexStV::BlockComment => Err(lex_err(CodeV::UnclosedBlockComment)),
        LexStV::BlockEnd => Err(lex_err(CodeV::UnclosedBlockComment)),
    }
}

/// Runs the state machine over the remaining characters.
pub open spec fn spec_lex_from(st: LexStV, cs: Seq<char>, line: nat) -> Result<
    Seq<TokenV>,
    ErrV,
>
    decreases cs.len(),
{
    if cs.len() == 0 {
        spec_eof(st)
    } else {
        match spec_step(st, cs[0], line) {
            Err(e) => Err(e),
            Ok((st2, ts)) => {
                let line2 = if cs[0] == '\n' {
                    line + 1
                } else {
                    line
                };
                match spec_lex_from(st2, cs.skip(1), line2) {
                    Ok(rest) => Ok(ts + rest),
                    Err(e) => Err(e),
                }
            },
        }
    }
}

/// The token sequence of a source text, or its first error.
pub open spec fn spec_tokenise(cs: Seq<char>) -> Result<Seq<TokenV>, ErrV> {
    spec_lex_from(LexStV::Empty, cs, 1)
}

/// The executable state between two characters.
enum LexState {
    Empty,
    Word(String, usize),
    Int(u32, usize, usize),
    CommentStart,
    LineComment,
    BlockComment,
    BlockEnd,
}

impl LexState {
    spec fn view(&self) -> LexStV {
        match self {
            LexState::Empty => LexStV::Empty,
            LexState::Word(buf, l) => LexStV::Word(buf@, *l as nat),
            LexState::Int(v, n, l) => LexStV::Int(*v as nat, *n as nat, *l as nat),
            LexState::CommentStart => LexStV::CommentStart,
            LexState::LineComment => LexStV::LineComment,
            LexState::BlockComment => LexStV::BlockComment,
            LexState::BlockEnd => LexStV::BlockEnd,
        }
    }

    /// An open integer never exceeds nine digits nor its digit bound.
    spec fn wf(&self) -> bool {
        match self {
            LexState::Int(v, n, l) => 1 <= *n && *n <= 9 && (*v as nat) < pow10(*n as nat),
            _ => true,
        }
    }
}

/// The token sequence a token vector models.
pub open spec fn toks_view(v: Seq<Token>) -> Seq<TokenV> {
    v.map_values(|t: Token| t@)
}

fn char_string(c: char) -> (r: String)
    ensures
        r@ == seq![c],
{
    let mut s = String::new();
    push_char(&mut s, c);
    proof {
        assert(s@ =~= seq![c]);
    }
    s
}

fn exec_word_start(c: char) -> (r: bool)
    ensures
        r == word_start_char(c),
{
    ('a' <= c && c <= 'z') || ('A' <= c && c <= 'Z') || c == '_'
}

fn exec_digit(c: char) -> (r: bool)
    ensures
        r == digit_char_p(c),
{
    '0' <= c && c <= '9'
}

fn exec_word_char(c: char) -> (r: bool)
    ensures
        r == word_char(c),
{
    exec_word_start(c) || exec_digit(c)
}

/// Handles `c` with no token under construction, pushing any finished token.
fn exec_dispatch(c: char, line_no: usize, tokens: &mut Vec<Token>) -> (r: Result<
    LexState,
    CartaError,
>)
    ensures
        match spec_dispatch(c, line_no as nat) {
            Ok((st2, ts)) => r is Ok && r->Ok_0.view() == st2 && r->Ok_0.wf() && toks_view(
                final(tokens)@,
            ) == toks_view(old(tokens)@) + ts,
            Err(e) => r is Err && r->Err_0@ == e,
        },
{
    proof {
        reveal_with_fuel(pow10, 2);
    }
    if c == '\n' {
        let t = Token::new(TokenType::NewLine, line_no, TokenValue::StringVal(char_string(c)));
        tokens.push(t);
        proof {
            assert(toks_view(tokens@) =~= toks_view(old(tokens)@) + seq![
                str_tok(TokenType::NewLine, line_no as nat, seq![c]),
            ]);
        }
        Ok(LexState::Empty)
    } else if c == ' ' || c == '\t' {
        proof {
            assert(toks_view(tokens@) =~= toks_view(old(tokens)@) + Seq::<TokenV>::empty());
        }
        Ok(LexState::Empty)
    } else if exec_word_start(c) {
        proof {
            assert(toks_view(tokens@) =~= toks_view(old(tokens)@) + Seq::<TokenV>::empty());
        }
        Ok(LexState::Word(char_string(c), line_no))
    } else if exec_digit(c) {
        if c == '0' {
            Err(CartaError::new_leading_zero(0))
        } else {
            proof {
                assert(toks_view(tokens@) =~= toks_view(old(tokens)@) + Seq::<TokenV>::empty());
            }
            let d: u32 = (c as u32) - 48;
            proof {
                assert(d as nat == digit_of(c));
                assert(d < 10);
            }
            Ok(LexState::Int(d, 1, line_no))
        }
    } else if c == ':' || c == '{' || c == '}' || c == ',' || c == '[' || c == ']' || c == ';' {
        let kind = if c == ':' {
            TokenType::Colon
        } else if c == '{' {
            TokenType::OpenBrace
        } else if c == '}' {
            TokenType::CloseBrace
        } else if c == ',' {
            TokenType::Comma
        } else if c == '[' {
            TokenType::OpenBracket
        } else if c == ']' {
            TokenType::CloseBracket
        } else {
            TokenType::Semicolon
        };
        let t = Token::new(kind, line_no, TokenValue::StringVal(char_string(c)));
        tokens.push(t);
        proof {
            assert(toks_view(tokens@) =~= toks_view(old(tokens)@) + seq![
                str_tok(kind, line_no as nat, seq![c]),
            ]);
        }
        Ok(LexState::Empty)
    } else if c == '/' {
        proof {
            assert(toks_view(tokens@) =~= toks_view(old(tokens)@) + Seq::<TokenV>::empty());
        }
        Ok(LexState::CommentStart)
    } else {
        Err(CartaError::new_unknown_symbol(0, c))
    }
}

/// One step of the state machine, pushing any finished tokens.
fn exec_step(st: LexState, c: char, line_no: usize, tokens: &mut Vec<Token>) -> (r: Result<
    LexState,
    CartaError,
>)
    requires
        st.wf(),
    ensures
        match spec_step(st.view(), c, line_no as nat) {
            Ok((st2, ts)) => r is Ok && r->Ok_0.view() == st2 && r->Ok_0.wf() && toks_view(
                final(tokens)@,
            ) == toks_view(old(tokens)@) + ts,
            Err(e) => r is Err && r->Err_0@ == e,
        },
{
    proof {
        assert(toks_view(old(tokens)@) + Seq::<TokenV>::empty() =~= toks_view(old(tokens)@));
    }
    match st {
        LexState::Empty => exec_dispatch(c, line_no, tokens),
        LexState::Word(buf, l) => {
            if exec_word_char(c) {
                let mut buf = buf;
                push_char(&mut buf, c);
                proof {
                    assert(toks_view(tokens@) =~= toks_view(old(tokens)@) + Seq::<
                        TokenV,
                    >::empty());
                }
                Ok(LexState::Word(buf, l))
            } else {
                let ghost buf_v = buf@;
                let t = Token::new(TokenType::Word, l, TokenValue::StringVal(buf));
                tokens.push(t);
                let ghost mid = tokens@;
                let r = exec_dispatch(c, line_no, tokens);
                proof {
                    match spec_dispatch(c, line_no as nat) {
                        Ok((st2, ts)) => {
                            assert(toks_view(mid) =~= toks_view(old(tokens)@) + seq![
                                str_tok(TokenType::Word, l as nat, buf_v),
                            ]);
                            assert(toks_view(tokens@) =~= toks_view(old(tokens)@) + (seq![
                                str_tok(TokenType::Word, l as nat, buf_v),
                            ] + ts));
                        },
                        Err(e) => {},
                    }
                }
                match r {
                    Ok(st2) => Ok(st2),
                    Err(e) => Err(e),
                }
            }
        },
        LexState::Int(v, n, l) => {
            if exec_digit(c) {
                if n > 8 {
                    Err(CartaError::new_integer_too_large(0))
                } else {
                    let d: u32 = (c as u32) - 48;
                    proof {
                        assert(d as nat == digit_of(c));
                        assert(d < 10);
                        reveal_with_fuel(pow10, 10);
                        assert(pow10(8) == 100000000);
                        assert(pow10(n as nat) <= pow10(8)) by {
                            crate::decimal::lemma_pow10_mono(n as nat, 8);
                        }
                        assert(10 * (v as nat) + d < 10 * pow10(n as nat)) by (nonlinear_arith)
                            requires
                                (v as nat) < pow10(n as nat),
                                d < 10,
                        ;
                        assert(10 * pow10(n as nat) == pow10(n as nat + 1)) by {
                            crate::decimal::lemma_pow10_step(n as nat);
                        }
                        assert(toks_view(tokens@) =~= toks_view(old(tokens)@) + Seq::<
                            TokenV,
                        >::empty());
                    }
                    Ok(LexState::Int(10 * v + d, n + 1, l))
                }
            } else {
                let ghost old_toks = tokens@;
                let t = Token::new(TokenType::Integer, l, TokenValue::IntVal(v));
                tokens.push(t);
                let ghost mid = tokens@;
                let r = exec_dispatch(c, line_no, tokens);
                proof {
                    match spec_dispatch(c, line_no as nat) {
                        Ok((st2, ts)) => {
                            assert(toks_view(mid) =~= toks_view(old_toks) + seq![
                                int_tok(l as nat, v as nat),
                            ]);
                            assert(toks_view(tokens@) =~= toks_view(old_toks) + (seq![
                                int_tok(l as nat, v as nat),
                            ] + ts));
                        },
                        Err(e) => {},
                    }
                }
                match r {
                    Ok(st2) => Ok(st2),
                    Err(e) => Err(e),
                }
            }
        },
        LexState::CommentStart => {
            if c == '/' {
                Ok(LexState::LineComment)
            } else if c == '*' {
                Ok(LexState::BlockComment)
            } else {
                Err(CartaError::new_unexpected_symbol(0, "* or /", c))
            }
        },
        LexState::LineComment => {
            if c == '\n' {
                Ok(LexState::Empty)
            } else {
                Ok(LexState::LineComment)
            }
        },
        LexState::BlockComment => {
            if c == '*' {
                Ok(LexState::BlockEnd)
            } else {
                Ok(LexState::BlockComment)
            }
        },
        LexState::BlockEnd => {
            if c == '/' {
                Ok(LexState::Empty)
            } else {
                Ok(LexState::BlockComment)
            }
        },
    }
}

/// A tokenised source text.
#[derive(Debug, PartialEq)]
pub struct Tokeniser {
    tokens: Vec<Token>,
}

impl View for Tokeniser {
    type V = Seq<TokenV>;

    closed spec fn view(&self) -> Seq<TokenV> {
        toks_view(self.tokens@)
    }
}

impl Tokeniser {
    /// Tokenises the whole input, or reports the first error.
    pub fn new(data: &str) -> (r: Result<Tokeniser, CartaError>)
        requires
            data@.len() < usize::MAX,
        ensures
            match (r, spec_tokenise(data@)) {
                (Ok(t), Ok(ts)) => t@ == ts,
                (Err(e), Err(se)) => e@ == se,
                _ => false,
            },
    {
        let mut tokens: Vec<Token> = Vec::new();
        let mut st = LexState::Empty;
        let mut line_no: usize = 1;
        let len = data.unicode_len();
        let mut i: usize = 0;
        proof {
            assert(data@.skip(0) =~= data@);
        }
        while i < len
            invariant
                data@.len() < usize::MAX,
                len == data@.len(),
                i <= len,
                line_no as nat <= 1 + i,
                st.wf(),
                spec_tokenise(data@) == match spec_lex_from(
                    st.view(),
                    data@.skip(i as int),
                    line_no as nat,
                ) {
                    Ok(rest) => Ok::<Seq<TokenV>, ErrV>(toks_view(tokens@) + rest),
                    Err(e) => Err::<Seq<TokenV>, ErrV>(e),
                },
            decreases len - i,
        {
            let c = data.get_char(i);
            let ghost prev_st = st.view();
            let ghost prev_toks = toks_view(tokens@);
            let ghost prev_line = line_no as nat;
            let ghost cs_i = data@.skip(i as int);
            let r = exec_step(st, c, line_no, &mut tokens);
            proof {
                assert(cs_i[0] == c);
                assert(cs_i.skip(1) =~= data@.skip(i as int + 1));
            }
            match r {
                Ok(st2) => {
                    st = st2;
                },
                Err(e) => {
                    return Err(e);
                },
            }
            if c == '\n' {
                line_no += 1;
            }
            proof {
                let stepped = spec_step(prev_st, c, prev_line);
                match stepped {
                    Ok((st2v, ts)) => {
                        let line2: nat = if c == '\n' {
                            prev_line + 1
                        } else {
                            prev_line
                        };
                        assert(line_no as nat == line2);
                        match spec_lex_from(st2v, data@.skip(i as int + 1), line2) {
                            Ok(rest) => {
                                assert(prev_toks + (ts + rest) =~= (prev_toks + ts) + rest);
                            },
                            Err(_) => {},
                        }
                    },
                    Err(_) => {},
                }
            }
            i += 1;
        }
        proof {
            assert(data@.skip(len as int) =~= Seq::<char>::empty());
        }
        let ghost pre_eof = toks_view(tokens@);
        match st {
            LexState::Empty | LexState::CommentStart | LexState::LineComment => {
                proof {
                    assert(pre_eof + Seq::<TokenV>::empty() =~= pre_eof);
                }
            },
            LexState::Word(buf, l) => {
                let ghost buf_v = buf@;
                let t = Token::new(TokenType::Word, l, TokenValue::StringVal(buf));
                tokens.push(t);
                proof {
                    assert(toks_view(tokens@) =~= pre_eof + seq![
                        str_tok(TokenType::Word, l as nat, buf_v),
                    ]);
                }
            },
            LexState::Int(v, n, l) => {
                let t = Token::new(TokenType::Integer, l, TokenValue::IntVal(v));
                tokens.push(t);
                proof {
                    assert(toks_view(tokens@) =~= pre_eof + seq![int_tok(l as nat, v as nat)]);
                }
            },
            LexState::BlockComment | LexState::BlockEnd => {
                return Err(CartaError::new_unclosed_block_comment(0));
            },
        }
        Ok(Tokeniser { tokens })
    }

    /// Borrows the tokens in order.
    pub fn iter(&self) -> (r: &Vec<Token>)
        ensures
            toks_view(r@) == self@,
    {
        &self.tokens
    }

    /// Hands the token vector over for consumption in order.
    pub fn into_iter(self) -> (r: Vec<Token>)
        ensures
            toks_view(r@) == self@,
    {
        self.tokens
    }
}

} // verus!
