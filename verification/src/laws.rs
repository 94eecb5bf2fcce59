//! Properties of the pipeline, stated over the same specification functions
//! that the executable contracts use, and proved here once and for all.

use vstd::prelude::*;
use crate::apply::{NuggetV, spec_apply, spec_build_struct, spec_build_elems, spec_build_array,
    spec_single, spec_resolve_count, lemma_build_struct_bounds, text_val};
use crate::builtin_types::spec_is_builtin;
use crate::decimal::{digit_char, pow10, spec_dec};
use crate::error::ErrV;
use crate::parser::{ElementV, ETypeV, StructDefnV, spec_parse};
use crate::tokeniser::{LexStV, TokenType, TokenV, ValueV, digit_char_p, digit_of, int_tok,
    spec_lex_from, spec_step, spec_tokenise, str_tok, word_char, word_start_char};
use crate::type_check::{all_sound, lookup, lookup_idx, spec_first_dup, spec_first_undef};
use crate::spec_compile;

verus! {

/// The sum of the lengths of a nugget list.
pub open spec fn sum_lens(children: Seq<NuggetV>) -> nat
    decreases children.len(),
{
    if children.len() == 0 {
        0
    } else {
        sum_lens(children.drop_last()) + children.last().len
    }
}

/// Structural well-formedness of a nugget tree: a leaf carries a value and
/// no children; an interior node's length is the sum of its children's
/// lengths, and each child starts where the previous one ended.
pub open spec fn nugget_wf(n: NuggetV) -> bool
    decreases n,
{
    &&& (n.value is Some ==> n.children.len() == 0)
    &&& (n.value is None ==> n.len == sum_lens(n.children))
    &&& (forall|i: int|
        0 <= i < n.children.len() ==> (#[trigger] n.children[i]).start == n.start + sum_lens(
            n.children.take(i),
        ))
    &&& (forall|i: int|
        0 <= i < n.children.len() ==> nugget_wf(#[trigger] n.children[i]))
}

proof fn lemma_sum_push(s: Seq<NuggetV>, x: NuggetV)
    ensures
        sum_lens(s.push(x)) == sum_lens(s) + x.len,
{
    assert(s.push(x).drop_last() =~= s);
}

/// Any successful decode of a single value yields a well-formed tree
/// starting at the decode position.
pub proof fn lemma_single_wf(
    types: Seq<StructDefnV>,
    t: Seq<char>,
    name: Seq<char>,
    pos: nat,
    bytes: Seq<u8>,
    fuel: nat,
)
    ensures
        spec_single(types, t, name, pos, bytes, fuel) matches Ok(n) ==> nugget_wf(n) && n.start
            == pos,
    decreases fuel, 0nat, 0nat,
{
    if spec_is_builtin(t) {
    } else {
        match lookup(types, t) {
            Some(d) => {
                if fuel > 0 {
                    lemma_build_struct_wf(types, d, name, pos, bytes, (fuel - 1) as nat);
                }
            },
            None => {},
        }
    }
}

/// Any successful struct walk yields a well-formed tree starting at the
/// walk position.
pub proof fn lemma_build_struct_wf(
    types: Seq<StructDefnV>,
    defn: StructDefnV,
    name: Seq<char>,
    start: nat,
    bytes: Seq<u8>,
    fuel: nat,
)
    ensures
        spec_build_struct(types, defn, name, start, bytes, fuel) matches Ok(n) ==> nugget_wf(n)
            && n.start == start,
    decreases fuel, 3nat, 0nat,
{
    lemma_build_elems_wf(types, defn.elements, 0, start, 0, bytes, fuel, Seq::empty());
    match spec_build_elems(types, defn.elements, 0, start, 0, bytes, fuel, Seq::empty()) {
        Ok((children, size)) => {
            let n = NuggetV { start, len: size, name, value: None, children };
            assert(n.children.take(n.children.len() as int) =~= n.children);
        },
        Err(_) => {},
    }
}

/// Element-walk invariant: the accumulated children are well-formed, sum
/// to the consumed offset, and chain from the struct start; the walk
/// preserves all of that.
proof fn lemma_build_elems_wf(
    types: Seq<StructDefnV>,
    elems: Seq<ElementV>,
    idx: int,
    start: nat,
    off: nat,
    bytes: Seq<u8>,
    fuel: nat,
    acc: Seq<NuggetV>,
)
    requires
        sum_lens(acc) == off,
        forall|i: int|
            0 <= i < acc.len() ==> (#[trigger] acc[i]).start == start + sum_lens(acc.take(i)),
        forall|i: int| 0 <= i < acc.len() ==> nugget_wf(#[trigger] acc[i]),
    ensures
        spec_build_elems(types, elems, idx, start, off, bytes, fuel, acc) matches Ok(r) ==> {
            &&& sum_lens(r.0) == r.1
            &&& (forall|i: int|
                0 <= i < r.0.len() ==> (#[trigger] r.0[i]).start == start + sum_lens(r.0.take(i)))
            &&& (forall|i: int| 0 <= i < r.0.len() ==> nugget_wf(#[trigger] r.0[i]))
        },
    decreases fuel, 2nat, elems.len() - idx,
{
    if 0 <= idx < elems.len() {
        let e = elems[idx];
        match e.kind {
            ETypeV::TypeName(t) => {
                lemma_single_wf(types, t, e.name, start + off, bytes, fuel);
                match spec_single(types, t, e.name, start + off, bytes, fuel) {
                    Ok(n) => {
                        lemma_sum_push(acc, n);
                        assert(acc.push(n).take(acc.len() as int) =~= acc);
                        assert forall|i: int| 0 <= i < acc.push(n).len() implies (
                        #[trigger] acc.push(n)[i]).start == start + sum_lens(
                            acc.push(n).take(i),
                        ) by {
                            if i < acc.len() {
                                assert(acc.push(n).take(i) =~= acc.take(i));
                            }
                        }
                        lemma_build_elems_wf(
                            types,
                            elems,
                            idx + 1,
                            start,
                            off + n.len,
                            bytes,
                            fuel,
                            acc.push(n),
                        );
                    },
                    Err(_) => {},
                }
            },
            ETypeV::ArrayElem(a) => {
                match spec_resolve_count(a.length, acc) {
                    None => {},
                    Some(c) => {
                        lemma_build_array_wf(
                            types,
                            a.kind,
                            0,
                            c,
                            start + off,
                            start + off,
                            bytes,
                            fuel,
                            Seq::empty(),
                            0,
                        );
                        match spec_build_array(
                            types,
                            a.kind,
                            0,
                            c,
                            start + off,
                            bytes,
                            fuel,
                            Seq::empty(),
                            0,
                        ) {
                            Ok(r) => {
                                let an = NuggetV {
                                    start: start + off,
                                    len: r.1,
                                    name: e.name,
                                    value: None,
                                    children: r.0,
                                };
                                assert(an.children.take(an.children.len() as int) =~= an.children);
                                assert(nugget_wf(an));
                                lemma_sum_push(acc, an);
                                assert(acc.push(an).take(acc.len() as int) =~= acc);
                                assert forall|i: int| 0 <= i < acc.push(an).len() implies (
                                #[trigger] acc.push(an)[i]).start == start + sum_lens(
                                    acc.push(an).take(i),
                                ) by {
                                    if i < acc.len() {
                                        assert(acc.push(an).take(i) =~= acc.take(i));
                                    }
                                }
                                lemma_build_elems_wf(
                                    types,
                                    elems,
                                    idx + 1,
                                    start,
                                    off + r.1,
                                    bytes,
                                    fuel,
                                    acc.push(an),
                                );
                            },
                            Err(_) => {},
                        }
                    },
                }
            },
        }
    }
}

/// Array-walk invariant: entries are well-formed and chain from the array
/// base.
proof fn lemma_build_array_wf(
    types: Seq<StructDefnV>,
    kind: Seq<char>,
    i: u64,
    count: u64,
    base: nat,
    pos: nat,
    bytes: Seq<u8>,
    fuel: nat,
    acc: Seq<NuggetV>,
    size: nat,
)
    requires
        pos == base + size,
        sum_lens(acc) == size,
        forall|q: int|
            0 <= q < acc.len() ==> (#[trigger] acc[q]).start == base + sum_lens(acc.take(q)),
        forall|q: int| 0 <= q < acc.len() ==> nugget_wf(#[trigger] acc[q]),
    ensures
        spec_build_array(types, kind, i, count, pos, bytes, fuel, acc, size) matches Ok(r) ==> {
            &&& sum_lens(r.0) == r.1
            &&& (forall|q: int|
                0 <= q < r.0.len() ==> (#[trigger] r.0[q]).start == base + sum_lens(r.0.take(q)))
            &&& (forall|q: int| 0 <= q < r.0.len() ==> nugget_wf(#[trigger] r.0[q]))
        },
    decreases fuel, 1nat, count - i,
{
    if i < count {
        lemma_single_wf(types, kind, spec_dec(i as nat), pos, bytes, fuel);
        match spec_single(types, kind, spec_dec(i as nat), pos, bytes, fuel) {
            Ok(n) => {
                lemma_sum_push(acc, n);
                assert(acc.push(n).take(acc.len() as int) =~= acc);
                assert forall|q: int| 0 <= q < acc.push(n).len() implies (
                #[trigger] acc.push(n)[q]).start == base + sum_lens(acc.push(n).take(q)) by {
                    if q < acc.len() {
                        assert(acc.push(n).take(q) =~= acc.take(q));
                    }
                }
                lemma_build_array_wf(
                    types,
                    kind,
                    (i + 1) as u64,
                    count,
                    base,
                    pos + n.len,
                    bytes,
                    fuel,
                    acc.push(n),
                    size + n.len,
                );
            },
            Err(_) => {},
        }
    }
}

/// Sum of children: every tree a successful `apply` returns is
/// well-formed — each interior node's length is the sum of its children's
/// lengths, and each child starts at its parent's start plus the lengths
/// of its earlier siblings.
pub proof fn lemma_apply_sum_of_children(types: Seq<StructDefnV>, bytes: Seq<u8>)
    ensures
        spec_apply(types, bytes) matches Ok(n) ==> nugget_wf(n) && n.start == 0,
{
    match lookup(types, "root"@) {
        Some(d) => {
            lemma_build_struct_wf(types, d, "root"@, 0, bytes, types.len());
        },
        None => {},
    }
}

/// The leaf spans of a tree, in walk order: `(start, len)` for every node
/// that carries a decoded value.
pub open spec fn leaf_spans(n: NuggetV) -> Seq<(nat, nat)>
    decreases n,
{
    if n.value is Some {
        seq![(n.start, n.len)]
    } else {
        child_spans(n.children)
    }
}

pub open spec fn child_spans(children: Seq<NuggetV>) -> Seq<(nat, nat)>
    decreases children,
{
    if children.len() == 0 {
        Seq::empty()
    } else {
        leaf_spans(children[0]) + child_spans(children.skip(1))
    }
}

/// The total length of a span list.
pub open spec fn spans_total(sp: Seq<(nat, nat)>) -> nat
    decreases sp.len(),
{
    if sp.len() == 0 {
        0
    } else {
        spans_total(sp.drop_last()) + sp.last().1
    }
}

/// The spans are contiguous from `base`: each one starts exactly where its
/// predecessors end.
pub open spec fn spans_chained(sp: Seq<(nat, nat)>, base: nat) -> bool {
    forall|k: int| 0 <= k < sp.len() ==> (#[trigger] sp[k]).0 == base + spans_total(sp.take(k))
}

proof fn lemma_spans_total_concat(a: Seq<(nat, nat)>, b: Seq<(nat, nat)>)
    ensures
        spans_total(a + b) == spans_total(a) + spans_total(b),
    decreases b.len(),
{
    if b.len() == 0 {
        assert(a + b =~= a);
    } else {
        assert((a + b).drop_last() =~= a + b.drop_last());
        assert((a + b).last() == b.last());
        lemma_spans_total_concat(a, b.drop_last());
    }
}

proof fn lemma_spans_chained_concat(a: Seq<(nat, nat)>, b: Seq<(nat, nat)>, base: nat)
    requires
        spans_chained(a, base),
        spans_chained(b, base + spans_total(a)),
    ensures
        spans_chained(a + b, base),
{
    assert forall|k: int| 0 <= k < (a + b).len() implies (#[trigger] (a + b)[k]).0 == base
        + spans_total((a + b).take(k)) by {
        if k < a.len() {
            assert((a + b)[k] == a[k]);
            assert((a + b).take(k) =~= a.take(k));
        } else {
            assert((a + b)[k] == b[k - a.len()]);
            assert((a + b).take(k) =~= a + b.take(k - a.len()));
            lemma_spans_total_concat(a, b.take(k - a.len()));
        }
    }
}

/// The leaves of a well-formed tree tile its span exactly: they are
/// contiguous from its start and their lengths sum to its length.
pub proof fn lemma_leaves_tile(n: NuggetV)
    requires
        nugget_wf(n),
    ensures
        spans_chained(leaf_spans(n), n.start),
        spans_total(leaf_spans(n)) == n.len,
    decreases n,
{
    if n.value is Some {
        assert(leaf_spans(n).take(0) =~= Seq::<(nat, nat)>::empty());
        assert(leaf_spans(n).drop_last() =~= Seq::<(nat, nat)>::empty());
    } else {
        lemma_children_tile(n.children, n.start);
    }
}

proof fn lemma_children_tile(children: Seq<NuggetV>, base: nat)
    requires
        forall|i: int|
            0 <= i < children.len() ==> (#[trigger] children[i]).start == base + sum_lens(
                children.take(i),
            ),
        forall|i: int| 0 <= i < children.len() ==> nugget_wf(#[trigger] children[i]),
    ensures
        spans_chained(child_spans(children), base),
        spans_total(child_spans(children)) == sum_lens(children),
    decreases children,
{
    if children.len() == 0 {
    } else {
        let c0 = children[0];
        assert(children.take(0) =~= Seq::<NuggetV>::empty());
        assert(c0.start == base);
        lemma_leaves_tile(c0);
        let rest = children.skip(1);
        assert forall|i: int| 0 <= i < rest.len() implies (#[trigger] rest[i]).start == (base
            + c0.len) + sum_lens(rest.take(i)) by {
            assert(rest[i] == children[i + 1]);
            assert(children.take(i + 1) =~= seq![c0] + rest.take(i));
            lemma_sum_cons(c0, rest.take(i));
        }
        assert(forall|i: int| 0 <= i < rest.len() ==> nugget_wf(#[trigger] rest[i])) by {
            assert(forall|i: int|
                0 <= i < rest.len() ==> rest[i] == children[i + 1] && nugget_wf(
                    #[trigger] children[i + 1],
                ));
        }
        lemma_children_tile(rest, (base + c0.len) as nat);
        lemma_spans_total_concat(leaf_spans(c0), child_spans(rest));
        lemma_spans_chained_concat(leaf_spans(c0), child_spans(rest), base);
        assert(sum_lens(children) == c0.len + sum_lens(rest)) by {
            lemma_sum_cons(c0, rest);
            assert(children =~= seq![c0] + rest);
        }
    }
}

proof fn lemma_sum_cons(x: NuggetV, s: Seq<NuggetV>)
    ensures
        sum_lens(seq![x] + s) == x.len + sum_lens(s),
    decreases s.len(),
{
    reveal_with_fuel(sum_lens, 3);
    if s.len() == 0 {
        assert(seq![x] + s =~= seq![x]);
        assert(seq![x].drop_last() =~= Seq::<NuggetV>::empty());
    } else {
        assert((seq![x] + s).drop_last() =~= seq![x] + s.drop_last());
        assert((seq![x] + s).last() == s.last());
        lemma_sum_cons(x, s.drop_last());
    }
}

/// Full coverage, no overlap: on a successful `apply`, the leaf spans are
/// contiguous from 0, cover exactly `[0, root.len)`, no two overlap, and
/// the root never reaches past the input.
pub proof fn lemma_apply_full_coverage(types: Seq<StructDefnV>, bytes: Seq<u8>)
    ensures
        spec_apply(types, bytes) matches Ok(n) ==> {
            &&& n.start == 0
            &&& n.len <= bytes.len()
            &&& spans_chained(leaf_spans(n), 0)
            &&& spans_total(leaf_spans(n)) == n.len
            &&& (forall|k1: int, k2: int|
                0 <= k1 < k2 < leaf_spans(n).len() ==> (#[trigger] leaf_spans(n)[k1]).0
                    + leaf_spans(n)[k1].1 <= (#[trigger] leaf_spans(n)[k2]).0)
        },
{
    lemma_apply_sum_of_children(types, bytes);
    match lookup(types, "root"@) {
        Some(d) => {
            lemma_build_struct_bounds(types, d, "root"@, 0, bytes, types.len());
        },
        None => {},
    }
    match spec_apply(types, bytes) {
        Ok(n) => {
            lemma_leaves_tile(n);
            let sp = leaf_spans(n);
            assert forall|k1: int, k2: int| 0 <= k1 < k2 < sp.len() implies (#[trigger] sp[k1]).0
                + sp[k1].1 <= (#[trigger] sp[k2]).0 by {
                lemma_spans_total_prefix(sp, k1 + 1, k2);
                assert(sp.take(k1 + 1).drop_last() =~= sp.take(k1));
                assert(sp.take(k1 + 1).last() == sp[k1]);
            }
        },
        Err(_) => {},
    }
}

proof fn lemma_spans_total_prefix(sp: Seq<(nat, nat)>, j: int, k: int)
    requires
        0 <= j <= k <= sp.len(),
    ensures
        spans_total(sp.take(j)) <= spans_total(sp.take(k)),
    decreases k - j,
{
    if j < k {
        lemma_spans_total_prefix(sp, j, k - 1);
        assert(sp.take(k).drop_last() =~= sp.take(k - 1));
    }
}

/// Determinism: `apply` is a pure function.  The executable
/// `apply_schema` is bound by its contract to return exactly
/// `spec_apply(schema@, bytes@)`, a function of its arguments alone, so
/// byte-identical inputs give identical trees.
pub proof fn lemma_apply_deterministic(
    t1: Seq<StructDefnV>,
    b1: Seq<u8>,
    t2: Seq<StructDefnV>,
    b2: Seq<u8>,
)
    requires
        t1 == t2,
        b1 == b2,
    ensures
        spec_apply(t1, b1) == spec_apply(t2, b2),
{
}

/// Toposort soundness: compiling succeeds exactly when the source
/// tokenises and parses, struct names are unique, every reference names a
/// built-in or a defined struct, the struct-embedding graph (arrays count
/// through their element type) bottoms out in built-ins — that is, every
/// struct resolves within as many steps as there are structs, which for
/// the finite embedding graph is acyclicity with built-in leaves — `root`
/// is present, and every identifier array length names an earlier
/// built-in integer sibling.
pub proof fn lemma_compile_characterisation(cs: Seq<char>)
    ensures
        spec_compile(cs) is Ok <==> {
            &&& spec_tokenise(cs) is Ok
            &&& spec_parse(spec_tokenise(cs)->Ok_0) is Ok
            &&& {
                let types = spec_parse(spec_tokenise(cs)->Ok_0)->Ok_0;
                &&& spec_first_dup(types, 0) is None
                &&& spec_first_undef(types, 0) is None
                &&& all_sound(types)
                &&& lookup_idx(types, "root"@) >= 0
                &&& crate::correctness::array_lengths_ok(types)
            }
        },
{
    match spec_tokenise(cs) {
        Ok(ts) => {
            match spec_parse(ts) {
                Ok(types) => {
                    crate::type_check::lemma_lookup_idx(types, "root"@);
                },
                Err(_) => {},
            }
        },
        Err(_) => {},
    }
}


/// The textual form of one token: the word or punctuation text, or the
/// decimal rendering of an integer literal.
pub open spec fn token_text(t: TokenV) -> Seq<char> {
    match t.value {
        ValueV::StrV(s) => s,
        ValueV::IntV(v) => spec_dec(v),
    }
}

/// The textual reconstruction of a token stream: each token's text,
/// followed by one separating space.
pub open spec fn reconstruct(ts: Seq<TokenV>) -> Seq<char>
    decreases ts.len(),
{
    if ts.len() == 0 {
        Seq::empty()
    } else {
        token_text(ts[0]) + seq![' '] + reconstruct(ts.skip(1))
    }
}

/// A token the tokeniser itself could have produced: its payload matches
/// its kind, words and integers are lexically well-formed, and an integer
/// is positive and at most nine digits.
pub open spec fn token_wf(t: TokenV) -> bool {
    match t.kind {
        TokenType::Word => t.value matches ValueV::StrV(s) && s.len() > 0 && word_start_char(s[0])
            && (forall|i: int| 0 <= i < s.len() ==> word_char(#[trigger] s[i])),
        TokenType::Integer => t.value matches ValueV::IntV(v) && 1 <= v <= 999999999,
        TokenType::Colon => t.value == ValueV::StrV(seq![':']),
        TokenType::NewLine => t.value == ValueV::StrV(seq!['\n']),
        TokenType::OpenBrace => t.value == ValueV::StrV(seq!['{']),
        TokenType::CloseBrace => t.value == ValueV::StrV(seq!['}']),
        TokenType::Comma => t.value == ValueV::StrV(seq![',']),
        TokenType::OpenBracket => t.value == ValueV::StrV(seq!['[']),
        TokenType::CloseBracket => t.value == ValueV::StrV(seq![']']),
        TokenType::Semicolon => t.value == ValueV::StrV(seq![';']),
    }
}

/// Line numbers agree with the newline tokens: each token stands on line
/// `base` plus the newlines before it.
pub open spec fn lines_wf(ts: Seq<TokenV>, base: nat) -> bool
    decreases ts.len(),
{
    ts.len() > 0 ==> ts[0].line_no == base && lines_wf(
        ts.skip(1),
        if ts[0].kind == TokenType::NewLine {
            base + 1
        } else {
            base
        },
    )
}

/// Running the state machine over `cs` without reaching the end of input:
/// the final state, line, and tokens emitted on the way.
pub open spec fn spec_run(st: LexStV, cs: Seq<char>, line: nat) -> Result<
    (LexStV, nat, Seq<TokenV>),
    ErrV,
>
    decreases cs.len(),
{
    if cs.len() == 0 {
        Ok((st, line, Seq::empty()))
    } else {
        match spec_step(st, cs[0], line) {
            Err(e) => Err(e),
            Ok((st2, ts)) => {
                let line2: nat = if cs[0] == '\n' {
                    line + 1
                } else {
                    line
                };
                match spec_run(st2, cs.skip(1), line2) {
                    Ok((st3, line3, rest)) => Ok((st3, line3, ts + rest)),
                    Err(e) => Err(e),
                }
            },
        }
    }
}

/// Lexing a concatenation: run over the first part, then continue.
proof fn lemma_lex_concat(st: LexStV, a: Seq<char>, b: Seq<char>, line: nat)
    requires
        spec_run(st, a, line) is Ok,
    ensures
        spec_lex_from(st, a + b, line) == match spec_lex_from(
            spec_run(st, a, line)->Ok_0.0,
            b,
            spec_run(st, a, line)->Ok_0.1,
        ) {
            Ok(rest) => Ok::<Seq<TokenV>, ErrV>(spec_run(st, a, line)->Ok_0.2 + rest),
            Err(e) => Err::<Seq<TokenV>, ErrV>(e),
        },
    decreases a.len(),
{
    if a.len() == 0 {
        assert(a + b =~= b);
        let r = spec_run(st, a, line)->Ok_0;
        match spec_lex_from(st, b, line) {
            Ok(rest) => {
                assert(r.2 + rest =~= rest);
            },
            Err(_) => {},
        }
    } else {
        assert((a + b)[0] == a[0]);
        match spec_step(st, a[0], line) {
            Ok((st2, ts)) => {
                let line2: nat = if a[0] == '\n' {
                    line + 1
                } else {
                    line
                };
                assert((a + b).skip(1) =~= a.skip(1) + b);
                lemma_lex_concat(st2, a.skip(1), b, line2);
                let r1 = spec_run(st2, a.skip(1), line2)->Ok_0;
                match spec_lex_from(r1.0, b, r1.1) {
                    Ok(rest) => {
                        assert(ts + (r1.2 + rest) =~= (ts + r1.2) + rest);
                    },
                    Err(_) => {},
                }
            },
            Err(_) => {},
        }
    }
}

/// Every character of a decimal rendering is a digit, and the first is not
/// zero when the value is positive.
proof fn lemma_dec_digits(v: nat)
    ensures
        spec_dec(v).len() > 0,
        forall|i: int| 0 <= i < spec_dec(v).len() ==> digit_char_p(#[trigger] spec_dec(v)[i]),
        v >= 1 ==> spec_dec(v)[0] != '0',
        digit_of(spec_dec(v)[0]) >= 1 || v < 10,
    decreases v,
{
    if v >= 10 {
        lemma_dec_digits(v / 10);
        assert(forall|i: int|
            0 <= i < spec_dec(v / 10).len() ==> spec_dec(v)[i] == spec_dec(v / 10)[i]);
        assert(spec_dec(v).last() == digit_char(v % 10));
        assert(digit_char_p(digit_char(v % 10)));
    } else {
        assert(digit_char_p(digit_char(v)));
        if v >= 1 {
            assert(digit_char(v) != '0');
            assert(digit_of(digit_char(v)) == v);
        }
    }
}

/// A value below `pow10(k)` renders in at most `k` digits.
proof fn lemma_dec_len(v: nat, k: nat)
    requires
        v < pow10(k),
        k >= 1,
    ensures
        spec_dec(v).len() <= k,
    decreases v,
{
    if v >= 10 {
        assert(pow10(k) == 10 * pow10((k - 1) as nat));
        assert(v / 10 < pow10((k - 1) as nat));
        assert((k - 1) as nat >= 1) by {
            reveal_with_fuel(pow10, 2);
        }
        lemma_dec_len(v / 10, (k - 1) as nat);
    }
}

/// The numeric value of a decimal rendering is the rendered value.
proof fn lemma_dec_text_val(v: nat)
    ensures
        text_val(spec_dec(v)) == v,
    decreases v,
{
    reveal_with_fuel(text_val, 3);
    if v < 10 {
        assert(spec_dec(v).drop_last() =~= Seq::<char>::empty());
        assert(digit_of(digit_char(v)) == v);
    } else {
        lemma_dec_text_val(v / 10);
        assert(spec_dec(v).drop_last() =~= spec_dec(v / 10));
        assert(digit_of(digit_char(v % 10)) == v % 10);
    }
}

/// Front expansion of a digit string's value.
proof fn lemma_text_val_front(s: Seq<char>)
    requires
        s.len() > 0,
    ensures
        text_val(s) == digit_of(s[0]) * pow10((s.len() - 1) as nat) + text_val(s.skip(1)),
    decreases s.len(),
{
    reveal_with_fuel(text_val, 3);
    if s.len() == 1 {
        assert(s.drop_last() =~= Seq::<char>::empty());
        assert(s.skip(1) =~= Seq::<char>::empty());
        reveal_with_fuel(pow10, 2);
    } else {
        assert(s.drop_last().len() > 0);
        lemma_text_val_front(s.drop_last());
        assert(s.drop_last()[0] == s[0]);
        assert(s.drop_last().skip(1) =~= s.skip(1).drop_last());
        assert(s.skip(1).last() == s.last());
        assert(text_val(s) == text_val(s.drop_last()) * 10 + digit_of(s.last()));
        assert(text_val(s.skip(1)) == text_val(s.skip(1).drop_last()) * 10 + digit_of(
            s.skip(1).last(),
        ));
        assert((digit_of(s[0]) * pow10((s.len() - 2) as nat) + text_val(s.skip(1).drop_last()))
            * 10 == digit_of(s[0]) * pow10((s.len() - 1) as nat) + text_val(
            s.skip(1).drop_last(),
        ) * 10) by (nonlinear_arith)
            requires
                pow10((s.len() - 1) as nat) == 10 * pow10((s.len() - 2) as nat),
        ;
        assert(pow10((s.len() - 1) as nat) == 10 * pow10((s.len() - 2) as nat)) by {
            crate::decimal::lemma_pow10_step((s.len() - 2) as nat);
        }
    }
}

/// Running an open word over its remaining word characters and the closing
/// space: the buffered word is emitted and the machine returns to rest.
proof fn lemma_run_word(buf: Seq<char>, s: Seq<char>, l: nat, line: nat)
    requires
        forall|i: int| 0 <= i < s.len() ==> word_char(#[trigger] s[i]),
    ensures
        spec_run(LexStV::Word(buf, l), s + seq![' '], line) == Ok::<
            (LexStV, nat, Seq<TokenV>),
            ErrV,
        >((LexStV::Empty, line, seq![str_tok(TokenType::Word, l, buf + s)])),
    decreases s.len(),
{
    reveal_with_fuel(spec_run, 3);
    if s.len() == 0 {
        assert(s + seq![' '] =~= seq![' ']);
        assert(seq![' '][0] == ' ');
        assert(!word_char(' '));
        assert(seq![' '].skip(1) =~= Seq::<char>::empty());
        assert(buf + s =~= buf);
        assert(seq![str_tok(TokenType::Word, l, buf)] + Seq::<TokenV>::empty() =~= seq![
            str_tok(TokenType::Word, l, buf),
        ]);
    } else {
        assert((s + seq![' '])[0] == s[0]);
        assert(word_char(s[0]));
        assert(s[0] != '\n');
        assert((s + seq![' ']).skip(1) =~= s.skip(1) + seq![' ']);
        lemma_run_word(buf.push(s[0]), s.skip(1), l, line);
        assert(buf.push(s[0]) + s.skip(1) =~= buf + s);
        assert(Seq::<TokenV>::empty() + seq![str_tok(TokenType::Word, l, buf + s)] =~= seq![
            str_tok(TokenType::Word, l, buf + s),
        ]);
    }
}

/// Running an open integer over its remaining digits and the closing
/// space: the accumulated value is emitted and the machine returns to rest.
proof fn lemma_run_int(v: nat, nd: nat, s: Seq<char>, l: nat, line: nat)
    requires
        forall|i: int| 0 <= i < s.len() ==> digit_char_p(#[trigger] s[i]),
        1 <= nd,
        nd + s.len() <= 9,
    ensures
        spec_run(LexStV::Int(v, nd, l), s + seq![' '], line) == Ok::<
            (LexStV, nat, Seq<TokenV>),
            ErrV,
        >(
            (
                LexStV::Empty,
                line,
                seq![int_tok(l, v * pow10(s.len()) + text_val(s))],
            ),
        ),
    decreases s.len(),
{
    reveal_with_fuel(spec_run, 3);
    reveal_with_fuel(text_val, 2);
    if s.len() == 0 {
        assert(s + seq![' '] =~= seq![' ']);
        assert(!digit_char_p(' '));
        assert(seq![' '].skip(1) =~= Seq::<char>::empty());
        reveal_with_fuel(pow10, 2);
        assert(v * pow10(0) + text_val(s) == v) by (nonlinear_arith)
            requires
                pow10(0) == 1,
                text_val(s) == 0,
        ;
        assert(seq![int_tok(l, v)] + Seq::<TokenV>::empty() =~= seq![int_tok(l, v)]);
    } else {
        assert((s + seq![' '])[0] == s[0]);
        assert(digit_char_p(s[0]));
        assert(s[0] != '\n');
        assert(nd <= 8);
        assert((s + seq![' ']).skip(1) =~= s.skip(1) + seq![' ']);
        lemma_run_int(10 * v + digit_of(s[0]), nd + 1, s.skip(1), l, line);
        lemma_text_val_front(s);
        assert((10 * v + digit_of(s[0])) * pow10((s.len() - 1) as nat) == v * pow10(s.len())
            + digit_of(s[0]) * pow10((s.len() - 1) as nat)) by (nonlinear_arith)
            requires
                pow10(s.len()) == 10 * pow10((s.len() - 1) as nat),
        ;
        assert(pow10(s.len()) == 10 * pow10((s.len() - 1) as nat)) by {
            crate::decimal::lemma_pow10_step((s.len() - 1) as nat);
        }
        assert(Seq::<TokenV>::empty() + seq![
            int_tok(l, v * pow10(s.len()) + text_val(s)),
        ] =~= seq![int_tok(l, v * pow10(s.len()) + text_val(s))]);
    }
}

/// Running one reconstructed token and its separating space from rest at
/// its own line: exactly that token comes out, and the machine rests again.
proof fn lemma_run_token(t: TokenV, line: nat)
    requires
        token_wf(t),
        t.line_no == line,
    ensures
        spec_run(LexStV::Empty, token_text(t) + seq![' '], line) == Ok::<
            (LexStV, nat, Seq<TokenV>),
            ErrV,
        >(
            (
                LexStV::Empty,
                if t.kind == TokenType::NewLine {
                    line + 1
                } else {
                    line
                },
                seq![t],
            ),
        ),
{
    reveal_with_fuel(spec_run, 4);
    match t.kind {
        TokenType::Word => {
            let s = t.value->StrV_0;
            assert(token_text(t) == s);
            assert((s + seq![' '])[0] == s[0]);
            assert(word_start_char(s[0]));
            assert(!digit_char_p(s[0]) && s[0] != '\n' && s[0] != ' ' && s[0] != '\t');
            assert((s + seq![' ']).skip(1) =~= s.skip(1) + seq![' ']);
            assert(forall|i: int| 0 <= i < s.skip(1).len() ==> word_char(#[trigger] s.skip(1)[i]));
            lemma_run_word(seq![s[0]], s.skip(1), line, line);
            assert(seq![s[0]] + s.skip(1) =~= s);
            assert(Seq::<TokenV>::empty() + seq![str_tok(TokenType::Word, line, s)] =~= seq![
                str_tok(TokenType::Word, line, s),
            ]);
            assert(str_tok(TokenType::Word, line, s) == t);
        },
        TokenType::Integer => {
            let v = t.value->IntV_0;
            let s = spec_dec(v);
            lemma_dec_digits(v);
            assert(token_text(t) == s);
            assert((s + seq![' '])[0] == s[0]);
            assert(digit_char_p(s[0]));
            assert(!word_start_char(s[0]) && s[0] != '\n' && s[0] != ' ' && s[0] != '\t');
            assert(s[0] != '0');
            assert((s + seq![' ']).skip(1) =~= s.skip(1) + seq![' ']);
            assert(forall|i: int|
                0 <= i < s.skip(1).len() ==> digit_char_p(#[trigger] s.skip(1)[i]));
            assert(s.len() <= 9) by {
                reveal_with_fuel(pow10, 10);
                lemma_dec_len(v, 9);
            }
            lemma_run_int(digit_of(s[0]), 1, s.skip(1), line, line);
            lemma_text_val_front(s);
            lemma_dec_text_val(v);
            assert(digit_of(s[0]) * pow10(s.skip(1).len()) + text_val(s.skip(1)) == v);
            assert(Seq::<TokenV>::empty() + seq![int_tok(line, v)] =~= seq![int_tok(line, v)]);
            assert(int_tok(line, v) == t);
        },
        _ => {
            let c = t.value->StrV_0[0];
            let s = token_text(t);
            assert(s =~= seq![c]);
            assert((s + seq![' '])[0] == c);
            assert((s + seq![' ']).skip(1) =~= seq![' ']);
            assert(seq![' '].skip(1) =~= Seq::<char>::empty());
            let emitted = spec_step(LexStV::Empty, c, line)->Ok_0.1;
            assert(emitted == seq![t]);
            assert(emitted + (Seq::<TokenV>::empty() + Seq::<TokenV>::empty()) =~= emitted);
        },
    }
}

/// Parser-feed idempotence: tokenising the textual reconstruction of a
/// well-formed token stream gives back exactly that stream.  Reconstruction
/// is defined for streams whose tokens the tokeniser itself could have
/// produced, with line numbers that agree with the newline tokens.
pub proof fn lemma_retokenise_reconstruct(ts: Seq<TokenV>)
    requires
        forall|i: int| 0 <= i < ts.len() ==> token_wf(#[trigger] ts[i]),
        lines_wf(ts, 1),
    ensures
        spec_tokenise(reconstruct(ts)) == Ok::<Seq<TokenV>, ErrV>(ts),
{
    lemma_retokenise_from(ts, 1);
}

proof fn lemma_retokenise_from(ts: Seq<TokenV>, line: nat)
    requires
        forall|i: int| 0 <= i < ts.len() ==> token_wf(#[trigger] ts[i]),
        lines_wf(ts, line),
    ensures
        spec_lex_from(LexStV::Empty, reconstruct(ts), line) == Ok::<Seq<TokenV>, ErrV>(ts),
    decreases ts.len(),
{
    reveal_with_fuel(spec_lex_from, 2);
    reveal_with_fuel(reconstruct, 2);
    if ts.len() == 0 {
        assert(reconstruct(ts) =~= Seq::<char>::empty());
        assert(ts =~= Seq::<TokenV>::empty());
    } else {
        let t = ts[0];
        let line2: nat = if t.kind == TokenType::NewLine {
            line + 1
        } else {
            line
        };
        lemma_run_token(t, line);
        assert(reconstruct(ts) =~= (token_text(t) + seq![' ']) + reconstruct(ts.skip(1)));
        lemma_lex_concat(LexStV::Empty, token_text(t) + seq![' '], reconstruct(ts.skip(1)), line);
        assert(forall|i: int|
            0 <= i < ts.skip(1).len() ==> token_wf(#[trigger] ts.skip(1)[i]));
        lemma_retokenise_from(ts.skip(1), line2);
        assert(seq![t] + ts.skip(1) =~= ts);
    }
}

} // verus!
