//! The applier: walks a checked schema over a byte array and produces the
//! `Nugget` tree that annotates every consumed byte.  It is a pure function
//! of the schema and the bytes.  Failures at decode time carry line 0:
//! `TruncatedInput` when the bytes run out, `BadArrayLen` when an array
//! length reference cannot be read from its sibling, and — only for
//! schemas that never passed the checks — `MissingRootElement`,
//! `UnknownType`, or `RecursiveTypes` when the walk would not terminate.

use vstd::prelude::*;
use vstd::slice::slice_subrange;
use crate::builtin_types::{get_value, size_class_of, spec_builtin_size, spec_is_builtin,
    spec_value_text};
use crate::decimal::{spec_dec, u64_dec_chars};
use crate::error::{CartaError, CodeV, ErrV};
use crate::parser::{ArrayLen, ArrayLenV, Element, ElementTypeRef, ElementV, ETypeV, StructDefn,
    StructDefnV, structs_view};
use crate::text::{chars_to_string, str_eq};
use crate::type_check::{TSchema, lookup, lemma_lookup_idx, find_idx};

verus! {

broadcast use vstd::std_specs::vec::group_vec_axioms, vstd::slice::group_slice_axioms;

/// A node of the output tree: a named span of the input, its decoded text
/// when it is a primitive leaf, and its children otherwise.
#[derive(Debug, PartialEq)]
pub struct Nugget {
    pub start: usize,
    pub len: usize,
    pub name: String,
    pub value: Option<String>,
    pub children: Vec<Nugget>,
}

/// Mathematical model of a nugget.
pub struct NuggetV {
    pub start: nat,
    pub len: nat,
    pub name: Seq<char>,
    pub value: Option<Seq<char>>,
    pub children: Seq<NuggetV>,
}

/// The model of a nugget: spans and lengths as naturals, strings as
/// character sequences, children modelled recursively.
pub open spec fn nugget_view(n: Nugget) -> NuggetV
    decreases n,
{
    NuggetV {
        start: n.start as nat,
        len: n.len as nat,
        name: n.name@,
        value: match n.value {
            Some(s) => Some(s@),
            None => None,
        },
        children: Seq::new(
            n.children@.len(),
            |i: int|
                if 0 <= i < n.children@.len() {
                    nugget_view(n.children[i])
                } else {
                    NuggetV {
                        start: 0,
                        len: 0,
                        name: Seq::empty(),
                        value: None,
                        children: Seq::empty(),
                    }
                },
        ),
    }
}

impl View for Nugget {
    type V = NuggetV;

    open spec fn view(&self) -> NuggetV {
        nugget_view(*self)
    }
}

/// All characters are decimal digits.
pub open spec fn all_digits(s: Seq<char>) -> bool {
    forall|i: int| 0 <= i < s.len() ==> crate::tokeniser::digit_char_p(#[trigger] s[i])
}

/// The numeric value of a digit string.
pub open spec fn text_val(s: Seq<char>) -> nat
    decreases s.len(),
{
    if s.len() == 0 {
        0
    } else {
        text_val(s.drop_last()) * 10 + crate::tokeniser::digit_of(s.last())
    }
}

/// Reading a nonempty all-digit string as an unsigned 64-bit count.
pub open spec fn spec_parse_count(s: Seq<char>) -> Option<u64> {
    if s.len() > 0 && all_digits(s) && text_val(s) <= u64::MAX {
        Some(text_val(s) as u64)
    } else {
        None
    }
}

/// The count read from the first earlier sibling with the given name.
pub open spec fn spec_sibling_count(children: Seq<NuggetV>, id: Seq<char>) -> Option<u64>
    decreases children.len(),
{
    if children.len() == 0 {
        None
    } else if children[0].name == id {
        match children[0].value {
            Some(text) => spec_parse_count(text),
            None => None,
        }
    } else {
        spec_sibling_count(children.skip(1), id)
    }
}

/// The number of array entries an array length calls for, given the
/// siblings decoded so far.
pub open spec fn spec_resolve_count(length: ArrayLenV, children: Seq<NuggetV>) -> Option<u64> {
    match length {
        ArrayLenV::Static(n) => if n <= u64::MAX {
            Some(n as u64)
        } else {
            None
        },
        ArrayLenV::Identifier(id) => spec_sibling_count(children, id),
    }
}

pub open spec fn length_id(length: ArrayLenV) -> Seq<char> {
    match length {
        ArrayLenV::Identifier(id) => id,
        ArrayLenV::Static(_) => Seq::empty(),
    }
}

/// Decodes one value of type `t` at `pos`: a leaf for a built-in, a
/// recursive struct walk otherwise.
pub open spec fn spec_single(
    types: Seq<StructDefnV>,
    t: Seq<char>,
    name: Seq<char>,
    pos: nat,
    bytes: Seq<u8>,
    fuel: nat,
) -> Result<NuggetV, ErrV>
    decreases fuel, 0nat, 0nat,
{
    if spec_is_builtin(t) {
        let w = spec_builtin_size(t);
        if pos + w > bytes.len() {
            Err(ErrV { line_no: 0, code: CodeV::TruncatedInput })
        } else {
            Ok(
                NuggetV {
                    start: pos,
                    len: w,
                    name,
                    value: Some(spec_value_text(t, bytes.skip(pos as int))),
                    children: Seq::empty(),
                },
            )
        }
    } else {
        match lookup(types, t) {
            None => Err(ErrV { line_no: 0, code: CodeV::UnknownType(t) }),
            Some(d) => {
                if fuel == 0 {
                    Err(ErrV { line_no: 0, code: CodeV::RecursiveTypes(seq![t]) })
                } else {
                    spec_build_struct(types, d, name, pos, bytes, (fuel - 1) as nat)
                }
            },
        }
    }
}

/// Walks one struct definition at `start`.
pub open spec fn spec_build_struct(
    types: Seq<StructDefnV>,
    defn: StructDefnV,
    name: Seq<char>,
    start: nat,
    bytes: Seq<u8>,
    fuel: nat,
) -> Result<NuggetV, ErrV>
    decreases fuel, 3nat, 0nat,
{
    match spec_build_elems(types, defn.elements, 0, start, 0, bytes, fuel, Seq::empty()) {
        Ok((children, size)) => Ok(
            NuggetV { start, len: size, name, value: None, children },
        ),
        Err(e) => Err(e),
    }
}

/// Walks the elements of a struct from position `idx`, with `off` bytes
/// already consumed by the earlier siblings in `acc`.
pub open spec fn spec_build_elems(
    types: Seq<StructDefnV>,
    elems: Seq<ElementV>,
    idx: int,
    start: nat,
    off: nat,
    bytes: Seq<u8>,
    fuel: nat,
    acc: Seq<NuggetV>,
) -> Result<(Seq<NuggetV>, nat), ErrV>
    decreases fuel, 2nat, elems.len() - idx,
{
    if idx < 0 || idx >= elems.len() {
        Ok((acc, off))
    } else {
        let e = elems[idx];
        match e.kind {
            ETypeV::TypeName(t) => match spec_single(types, t, e.name, start + off, bytes, fuel) {
                Ok(n) => spec_build_elems(
                    types,
                    elems,
                    idx + 1,
                    start,
                    off + n.len,
                    bytes,
                    fuel,
                    acc.push(n),
                ),
                Err(er) => Err(er),
            },
            ETypeV::ArrayElem(a) => match spec_resolve_count(a.length, acc) {
                None => Err(ErrV { line_no: 0, code: CodeV::BadArrayLen(length_id(a.length)) }),
                Some(c) => match spec_build_array(
                    types,
                    a.kind,
                    0,
                    c,
                    start + off,
                    bytes,
                    fuel,
                    Seq::empty(),
                    0,
                ) {
                    Ok((chn, size)) => spec_build_elems(
                        types,
                        elems,
                        idx + 1,
                        start,
                        off + size,
                        bytes,
                        fuel,
                        acc.push(
                            NuggetV {
                                start: start + off,
                                len: size,
                                name: e.name,
                                value: None,
                                children: chn,
                            },
                        ),
                    ),
                    Err(er) => Err(er),
                },
            },
        }
    }
}

/// Builds array entries `i .. count` at `pos`, each named by its index.
pub open spec fn spec_build_array(
    types: Seq<StructDefnV>,
    kind: Seq<char>,
    i: u64,
    count: u64,
    pos: nat,
    bytes: Seq<u8>,
    fuel: nat,
    acc: Seq<NuggetV>,
    size: nat,
) -> Result<(Seq<NuggetV>, nat), ErrV>
    decreases fuel, 1nat, count - i,
{
    if i >= count {
        Ok((acc, size))
    } else {
        match spec_single(types, kind, spec_dec(i as nat), pos, bytes, fuel) {
            Ok(n) => spec_build_array(
                types,
                kind,
                (i + 1) as u64,
                count,
                pos + n.len,
                bytes,
                fuel,
                acc.push(n),
                size + n.len,
            ),
            Err(er) => Err(er),
        }
    }
}

/// What applying a schema to bytes yields: the tree rooted at `root`, with
/// a recursion budget of one level per struct (never exhausted for a
/// schema that passed the checks).
pub open spec fn spec_apply(types: Seq<StructDefnV>, bytes: Seq<u8>) -> Result<NuggetV, ErrV> {
    match lookup(types, "root"@) {
        None => Err(ErrV { line_no: 0, code: CodeV::MissingRootElement }),
        Some(d) => spec_build_struct(types, d, "root"@, 0, bytes, types.len()),
    }
}

/// A successful decode stays inside the bytes: the nugget starts at `pos`
/// and its span ends within the input.
pub proof fn lemma_single_bounds(
    types: Seq<StructDefnV>,
    t: Seq<char>,
    name: Seq<char>,
    pos: nat,
    bytes: Seq<u8>,
    fuel: nat,
)
    requires
        pos <= bytes.len(),
    ensures
        spec_single(types, t, name, pos, bytes, fuel) matches Ok(n) ==> n.start == pos && pos
            + n.len <= bytes.len(),
    decreases fuel, 0nat, 0nat,
{
    if !spec_is_builtin(t) {
        match lookup(types, t) {
            Some(d) => {
                if fuel > 0 {
                    lemma_build_struct_bounds(types, d, name, pos, bytes, (fuel - 1) as nat);
                }
            },
            None => {},
        }
    }
}

pub proof fn lemma_build_struct_bounds(
    types: Seq<StructDefnV>,
    defn: StructDefnV,
    name: Seq<char>,
    start: nat,
    bytes: Seq<u8>,
    fuel: nat,
)
    requires
        start <= bytes.len(),
    ensures
        spec_build_struct(types, defn, name, start, bytes, fuel) matches Ok(n) ==> n.start
            == start && start + n.len <= bytes.len(),
    decreases fuel, 3nat, 0nat,
{
    lemma_build_elems_bounds(types, defn.elements, 0, start, 0, bytes, fuel, Seq::empty());
}

pub proof fn lemma_build_elems_bounds(
    types: Seq<StructDefnV>,
    elems: Seq<ElementV>,
    idx: int,
    start: nat,
    off: nat,
    bytes: Seq<u8>,
    fuel: nat,
    acc: Seq<NuggetV>,
)
    requires
        start + off <= bytes.len(),
    ensures
        spec_build_elems(types, elems, idx, start, off, bytes, fuel, acc) matches Ok(r) ==> off
            <= r.1 && start + r.1 <= bytes.len(),
    decreases fuel, 2nat, elems.len() - idx,
{
    if 0 <= idx < elems.len() {
        let e = elems[idx];
        match e.kind {
            ETypeV::TypeName(t) => {
                lemma_single_bounds(types, t, e.name, start + off, bytes, fuel);
                match spec_single(types, t, e.name, start + off, bytes, fuel) {
                    Ok(n) => {
                        lemma_build_elems_bounds(
                            types,
                            elems,
                            idx + 1,
                            start,
                            off + n.len,
                            bytes,
                            fuel,
                            acc.push(n),
                        );
                    },
                    Err(_) => {},
                }
            },
            ETypeV::ArrayElem(a) => {
                match spec_resolve_count(a.length, acc) {
                    None => {},
                    Some(c) => {
                        lemma_build_array_bounds(
                            types,
                            a.kind,
                            0,
                            c,
                            start + off,
                            bytes,
                            fuel,
                            Seq::empty(),
                            0,
                        );
                        match spec_build_array(
                            types,
                            a.kind,
                            0,
                            c,
                            start + off,
                            bytes,
                            fuel,
                            Seq::empty(),
                            0,
                        ) {
                            Ok(r) => {
                                lemma_build_elems_bounds(
                                    types,
                                    elems,
                                    idx + 1,
                                    start,
                                    off + r.1,
                                    bytes,
                                    fuel,
                                    acc.push(
                                        NuggetV {
                                            start: start + off,
                                            len: r.1,
                                            name: e.name,
                                            value: None,
                                            children: r.0,
                                        },
                                    ),
                                );
                            },
                            Err(_) => {},
                        }
                    },
                }
            },
        }
    }
}

pub proof fn lemma_build_array_bounds(
    types: Seq<StructDefnV>,
    kind: Seq<char>,
    i: u64,
    count: u64,
    pos: nat,
    bytes: Seq<u8>,
    fuel: nat,
    acc: Seq<NuggetV>,
    size: nat,
)
    requires
        pos <= bytes.len(),
    ensures
        spec_build_array(types, kind, i, count, pos, bytes, fuel, acc, size) matches Ok(r) ==> size
            <= r.1 && pos + (r.1 - size) <= bytes.len(),
    decreases fuel, 1nat, count - i,
{
    if i < count {
        lemma_single_bounds(types, kind, spec_dec(i as nat), pos, bytes, fuel);
        match spec_single(types, kind, spec_dec(i as nat), pos, bytes, fuel) {
            Ok(n) => {
                lemma_build_array_bounds(
                    types,
                    kind,
                    (i + 1) as u64,
                    count,
                    pos + n.len,
                    bytes,
                    fuel,
                    acc.push(n),
                    size + n.len,
                );
            },
            Err(_) => {},
        }
    }
}

/// Reads a nonempty decimal string as a count.
fn parse_count(s: &str) -> (r: Option<u64>)
    ensures
        r == spec_parse_count(s@),
{
    let n = s.unicode_len();
    if n == 0 {
        return None;
    }
    let mut acc: u64 = 0;
    let mut i: usize = 0;
    #[verifier::loop_isolation(false)]
    while i < n
        invariant
            i <= n,
            n == s@.len(),
            all_digits(s@.take(i as int)),
            acc as nat == text_val(s@.take(i as int)),
        decreases n - i,
    {
        let c = s.get_char(i);
        if !('0' <= c && c <= '9') {
            return None;
        }
        let d: u64 = (c as u32) as u64 - 48;
        proof {
            assert(s@.take(i as int + 1).drop_last() =~= s@.take(i as int));
            assert(s@.take(i as int + 1).last() == s@[i as int]);
        }
        if acc > (u64::MAX - d) / 10 {
            proof {
                assert(text_val(s@.take(i as int + 1)) > u64::MAX) by (nonlinear_arith)
                    requires
                        text_val(s@.take(i as int + 1)) == text_val(s@.take(i as int)) * 10
                            + crate::tokeniser::digit_of(s@[i as int]),
                        text_val(s@.take(i as int)) == acc as nat,
                        crate::tokeniser::digit_of(s@[i as int]) == d,
                        acc > (u64::MAX - d) / 10,
                        d <= 9,
                ;
                lemma_text_val_prefix(s@, i as int + 1);
            }
            return None;
        }
        acc = acc * 10 + d;
        i += 1;
    }
    proof {
        assert(s@.take(n as int) =~= s@);
    }
    Some(acc)
}

/// A digit string is worth at least any of its prefixes.
proof fn lemma_text_val_prefix(s: Seq<char>, k: int)
    requires
        0 <= k <= s.len(),
    ensures
        text_val(s.take(k)) <= text_val(s),
    decreases s.len() - k,
{
    if k < s.len() {
        assert(s.take(k + 1).drop_last() =~= s.take(k));
        assert(text_val(s.take(k + 1)) == text_val(s.take(k)) * 10 + crate::tokeniser::digit_of(
            s.take(k + 1).last(),
        ));
        assert(text_val(s.take(k)) * 10 >= text_val(s.take(k))) by (nonlinear_arith);
        lemma_text_val_prefix(s, k + 1);
    } else {
        assert(s.take(k) =~= s);
    }
}

/// Finds the count among the earlier siblings.
fn sibling_count(children: &Vec<Nugget>, id: &str) -> (r: Option<u64>)
    ensures
        r == spec_sibling_count(
            Seq::new(children@.len(), |i: int| children@[i]@),
            id@,
        ),
{
    let ghost cv = Seq::new(children@.len(), |i: int| children@[i]@);
    let n = children.len();
    let mut i: usize = 0;
    proof {
        assert(cv.skip(0) =~= cv);
    }
    #[verifier::loop_isolation(false)]
    while i < n
        invariant
            i <= n,
            n == children@.len(),
            spec_sibling_count(cv, id@) == spec_sibling_count(cv.skip(i as int), id@),
        decreases n - i,
    {
        proof {
            assert(cv.skip(i as int)[0] == cv[i as int]);
            assert(cv.skip(i as int).skip(1) =~= cv.skip(i as int + 1));
        }
        if str_eq(children[i].name.as_str(), id) {
            match &children[i].value {
                Some(text) => {
                    return parse_count(text.as_str());
                },
                None => {
                    return None;
                },
            }
        }
        i += 1;
    }
    None
}

/// Decodes one value of type `t` at `pos`.
fn exec_single(
    types: &Vec<StructDefn>,
    t: &str,
    name: String,
    pos: usize,
    data: &[u8],
    fuel: usize,
) -> (r: Result<Nugget, CartaError>)
    requires
        pos <= data@.len(),
    ensures
        match spec_single(structs_view(types@), t@, name@, pos as nat, data@, fuel as nat) {
            Ok(nv) => r is Ok && r->Ok_0@ == nv,
            Err(e) => r is Err && r->Err_0@ == e,
        },
    decreases fuel, 0nat,
{
    let ghost tv = structs_view(types@);
    match size_class_of(t) {
        Some((w, _)) => {
            if w > data.len() - pos {
                return Err(CartaError::new_truncated_input(0));
            }
            let tail = slice_subrange(data, pos, data.len());
            proof {
                assert(tail@ =~= data@.skip(pos as int));
            }
            match get_value(tail, t) {
                Some((w2, text)) => {
                    let nug = Nugget {
                        start: pos,
                        len: w2,
                        name,
                        value: Some(text),
                        children: Vec::new(),
                    };
                    proof {
                        assert(nug@.children =~= Seq::<NuggetV>::empty());
                    }
                    Ok(nug)
                },
                None => {
                    proof {
                        assert(false);
                    }
                    Err(CartaError::new_truncated_input(0))
                },
            }
        },
        None => {
            match find_idx(types, t) {
                None => {
                    proof {
                        lemma_lookup_idx(tv, t@);
                    }
                    Err(CartaError::new_unknown_type(0, t.to_owned()))
                },
                Some(m) => {
                    proof {
                        lemma_lookup_idx(tv, t@);
                    }
                    if fuel == 0 {
                        let mut kinds: Vec<String> = Vec::new();
                        kinds.push(t.to_owned());
                        proof {
                            assert(Seq::new(kinds@.len(), |i: int| kinds@[i]@) =~= seq![t@]);
                        }
                        Err(CartaError::new_recursive_types(0, kinds))
                    } else {
                        let defn = &types[m];
                        proof {
                            assert(tv[m as int] == defn@);
                        }
                        exec_build_struct(types, defn, name, pos, data, fuel - 1)
                    }
                },
            }
        },
    }
}

/// Walks one struct definition at `start`.
fn exec_build_struct(
    types: &Vec<StructDefn>,
    defn: &StructDefn,
    name: String,
    start: usize,
    data: &[u8],
    fuel: usize,
) -> (r: Result<Nugget, CartaError>)
    requires
        start <= data@.len(),
    ensures
        match spec_build_struct(
            structs_view(types@),
            defn@,
            name@,
            start as nat,
            data@,
            fuel as nat,
        ) {
            Ok(nv) => r is Ok && r->Ok_0@ == nv,
            Err(e) => r is Err && r->Err_0@ == e,
        },
    decreases fuel, 1nat,
{
    let ghost tv = structs_view(types@);
    let ghost ev = defn@.elements;
    let dlen = data.len();
    proof {
        assert(dlen as nat == data@.len());
    }
    let elems = &defn.elements;
    let en = elems.len();
    proof {
        assert(ev =~= elems@.map_values(|e: Element| e@));
    }
    let mut children: Vec<Nugget> = Vec::new();
    let mut offset: usize = 0;
    let mut idx: usize = 0;
    proof {
        assert(Seq::new(children@.len(), |i: int| children@[i]@) =~= Seq::<NuggetV>::empty());
    }
    #[verifier::loop_isolation(false)]
    while idx < en
        invariant
            en == elems@.len(),
            idx <= en,
            start + offset <= data@.len(),
            spec_build_elems(tv, ev, 0, start as nat, 0, data@, fuel as nat, Seq::empty())
                == spec_build_elems(
                tv,
                ev,
                idx as int,
                start as nat,
                offset as nat,
                data@,
                fuel as nat,
                Seq::new(children@.len(), |i: int| children@[i]@),
            ),
        decreases en - idx,
    {
        let ghost acc = Seq::new(children@.len(), |i: int| children@[i]@);
        proof {
            assert(ev[idx as int] == elems@[idx as int]@);
        }
        match &elems[idx].kind {
            ElementTypeRef::TypeName(t) => {
                proof {
                    lemma_single_bounds(
                        tv,
                        t@,
                        elems@[idx as int].name@,
                        (start + offset) as nat,
                        data@,
                        fuel as nat,
                    );
                }
                match exec_single(
                    types,
                    t.as_str(),
                    elems[idx].name.clone(),
                    start + offset,
                    data,
                    fuel,
                ) {
                    Ok(n) => {
                        let nlen = n.len;
                        let ghost nv = n@;
                        proof {
                            assert(nv.len == nlen as nat);
                            assert(start + offset + nlen <= data@.len());
                        }
                        children.push(n);
                        proof {
                            assert(Seq::new(children@.len(), |i: int| children@[i]@) =~= acc.push(
                                nv,
                            ));
                        }
                        offset = offset + nlen;
                    },
                    Err(e) => {
                        return Err(e);
                    },
                }
            },
            ElementTypeRef::ArrayElem(arr) => {
                let count: u64 = match &arr.length {
                    ArrayLen::Static(sn) => *sn as u64,
                    ArrayLen::Identifier(id) => {
                        match sibling_count(&children, id.as_str()) {
                            Some(c) => c,
                            None => {
                                return Err(CartaError::new_bad_array_len(0, id.as_str()));
                            },
                        }
                    },
                };
                let arr_start = start + offset;
                let mut arr_children: Vec<Nugget> = Vec::new();
                let mut arr_size: usize = 0;
                let mut i: u64 = 0;
                proof {
                    assert(Seq::new(arr_children@.len(), |q: int| arr_children@[q]@) =~= Seq::<
                        NuggetV,
                    >::empty());
                }
                #[verifier::loop_isolation(false)]
                while i < count
                    invariant
                        arr_start == start + offset,
                        start + offset <= data@.len(),
                        arr_start + arr_size <= data@.len(),
                        spec_build_array(
                            tv,
                            arr@.kind,
                            0,
                            count,
                            arr_start as nat,
                            data@,
                            fuel as nat,
                            Seq::empty(),
                            0,
                        ) == spec_build_array(
                            tv,
                            arr@.kind,
                            i,
                            count,
                            (arr_start + arr_size) as nat,
                            data@,
                            fuel as nat,
                            Seq::new(arr_children@.len(), |q: int| arr_children@[q]@),
                            arr_size as nat,
                        ),
                    decreases count - i,
                {
                    let ghost aacc = Seq::new(arr_children@.len(), |q: int| arr_children@[q]@);
                    let idx_chars = u64_dec_chars(i);
                    let idx_name = chars_to_string(&idx_chars);
                    proof {
                        lemma_single_bounds(
                            tv,
                            arr@.kind,
                            spec_dec(i as nat),
                            (arr_start + arr_size) as nat,
                            data@,
                            fuel as nat,
                        );
                    }
                    match exec_single(
                        types,
                        arr.kind.as_str(),
                        idx_name,
                        arr_start + arr_size,
                        data,
                        fuel,
                    ) {
                        Ok(n) => {
                            let nlen = n.len;
                            let ghost nv = n@;
                            proof {
                                assert(nv.len == nlen as nat);
                                assert(arr_start + arr_size + nlen <= data@.len());
                            }
                            arr_children.push(n);
                            proof {
                                assert(Seq::new(
                                    arr_children@.len(),
                                    |q: int| arr_children@[q]@,
                                ) =~= aacc.push(nv));
                            }
                            arr_size = arr_size + nlen;
                        },
                        Err(e) => {
                            return Err(e);
                        },
                    }
                    i = i + 1;
                }
                let arr_nugget = Nugget {
                    start: arr_start,
                    len: arr_size,
                    name: elems[idx].name.clone(),
                    value: None,
                    children: arr_children,
                };
                let ghost anv = arr_nugget@;
                proof {
                    assert(anv.children =~= Seq::new(
                        arr_nugget.children@.len(),
                        |q: int| arr_nugget.children@[q]@,
                    ));
                    lemma_build_array_bounds(
                        tv,
                        arr@.kind,
                        0,
                        count,
                        arr_start as nat,
                        data@,
                        fuel as nat,
                        Seq::empty(),
                        0,
                    );
                }
                proof {
                    assert(start + offset + arr_size <= data@.len());
                }
                children.push(arr_nugget);
                proof {
                    assert(Seq::new(children@.len(), |q: int| children@[q]@) =~= acc.push(anv));
                }
                offset = offset + arr_size;
            },
        }
        idx += 1;
    }
    let nug = Nugget { start, len: offset, name, value: None, children };
    proof {
        assert(nug@.children =~= Seq::new(nug.children@.len(), |i: int| nug.children@[i]@));
    }
    Ok(nug)
}

/// Applies a checked schema to a byte array, producing the annotated tree.
pub fn apply_schema(schema: &TSchema, file_data: &[u8]) -> (r: Result<Nugget, CartaError>)
    ensures
        match spec_apply(schema@, file_data@) {
            Ok(nv) => r is Ok && r->Ok_0@ == nv,
            Err(e) => r is Err && r->Err_0@ == e,
        },
{
    let ghost tv = schema@;
    match find_idx(&schema.types, "root") {
        None => {
            proof {
                lemma_lookup_idx(tv, "root"@);
            }
            Err(CartaError::new_missing_root_element(0))
        },
        Some(m) => {
            proof {
                lemma_lookup_idx(tv, "root"@);
            }
            let defn = &schema.types[m];
            proof {
                assert(tv[m as int] == defn@);
            }
            let mut root_name = String::new();
            crate::text::push_char(&mut root_name, 'r');
            crate::text::push_char(&mut root_name, 'o');
            crate::text::push_char(&mut root_name, 'o');
            crate::text::push_char(&mut root_name, 't');
            proof {
                reveal_strlit("root");
                assert(root_name@ =~= "root"@);
            }
            exec_build_struct(&schema.types, defn, root_name, 0, file_data, schema.types.len())
        },
    }
}

} // verus!
