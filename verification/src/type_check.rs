//! The typechecker: keys the parsed structs by name, checks that every
//! referenced type is defined, and runs a fixpoint resolution to reject
//! recursive struct embeddings.  A schema passes exactly when struct names
//! are unique, every reference names a built-in or a defined struct, and
//! every struct bottoms out in built-ins within as many steps as there are
//! structs.

use vstd::prelude::*;
use crate::builtin_types::{is_builtin_type, spec_is_builtin};
use crate::error::{CartaError, CodeV, ErrV};
use crate::parser::{Element, ElementTypeRef, ElementV, ETypeV, Schema, StructDefn, StructDefnV,
    structs_view};
use crate::text::str_eq;

verus! {

/// The type-checked schema: the struct definitions in source order, with
/// unique names.  This list is the name-to-definition map that the applier
/// walks.
#[derive(Debug, PartialEq)]
pub struct TSchema {
    pub types: Vec<StructDefn>,
}

impl View for TSchema {
    type V = Seq<StructDefnV>;

    open spec fn view(&self) -> Seq<StructDefnV> {
        structs_view(self.types@)
    }
}

/// The type name an element refers to: the array element type for arrays.
pub open spec fn elem_type_name(e: ElementV) -> Seq<char> {
    match e.kind {
        ETypeV::TypeName(t) => t,
        ETypeV::ArrayElem(a) => a.kind,
    }
}

/// The index of the first struct named `name`, or -1.
pub open spec fn lookup_idx(types: Seq<StructDefnV>, name: Seq<char>) -> int
    decreases types.len(),
{
    if types.len() == 0 {
        -1
    } else if types[0].name == name {
        0
    } else {
        let r = lookup_idx(types.skip(1), name);
        if r == -1 {
            -1
        } else {
            r + 1
        }
    }
}

/// The definition of the struct named `name`, if any.
pub open spec fn lookup(types: Seq<StructDefnV>, name: Seq<char>) -> Option<StructDefnV> {
    let m = lookup_idx(types, name);
    if m == -1 {
        None
    } else {
        Some(types[m])
    }
}

pub proof fn lemma_lookup_idx(types: Seq<StructDefnV>, name: Seq<char>)
    ensures
        -1 <= lookup_idx(types, name) < types.len(),
        lookup_idx(types, name) >= 0 ==> types[lookup_idx(types, name)].name == name
            && (forall|i: int| 0 <= i < lookup_idx(types, name) ==> types[i].name != name),
        lookup_idx(types, name) == -1 ==> (forall|i: int|
            0 <= i < types.len() ==> types[i].name != name),
    decreases types.len(),
{
    if types.len() > 0 && types[0].name != name {
        lemma_lookup_idx(types.skip(1), name);
        let r = lookup_idx(types.skip(1), name);
        assert(forall|i: int| 0 <= i < types.skip(1).len() ==> types.skip(1)[i] == types[i + 1]);
        if r == -1 {
            assert forall|i: int| 0 <= i < types.len() implies types[i].name != name by {
                if i > 0 {
                    assert(types.skip(1)[i - 1] == types[i]);
                }
            }
        } else {
            assert(types[r + 1] == types.skip(1)[r]);
            assert forall|i: int| 0 <= i < r + 1 implies types[i].name != name by {
                if i > 0 {
                    assert(types.skip(1)[i - 1] == types[i]);
                }
            }
        }
    }
}

/// A struct resolves within `k` steps: every element refers to a built-in,
/// or to a defined struct that resolves within `k - 1` steps.
pub open spec fn struct_ok(types: Seq<StructDefnV>, defn: StructDefnV, k: nat) -> bool
    decreases k,
{
    forall|j: int|
        0 <= j < defn.elements.len() ==> {
            let t = elem_type_name(#[trigger] defn.elements[j]);
            spec_is_builtin(t) || (k > 0 && lookup(types, t) is Some && struct_ok(
                types,
                lookup(types, t)->Some_0,
                (k - 1) as nat,
            ))
        }
}

/// Resolving within `k` steps also resolves within any larger bound.
pub proof fn lemma_struct_ok_mono(types: Seq<StructDefnV>, defn: StructDefnV, k: nat, k2: nat)
    requires
        k <= k2,
        struct_ok(types, defn, k),
    ensures
        struct_ok(types, defn, k2),
    decreases k2,
{
    assert forall|j: int| 0 <= j < defn.elements.len() implies {
        let t = elem_type_name(#[trigger] defn.elements[j]);
        spec_is_builtin(t) || (k2 > 0 && lookup(types, t) is Some && struct_ok(
            types,
            lookup(types, t)->Some_0,
            (k2 - 1) as nat,
        ))
    } by {
        let t = elem_type_name(defn.elements[j]);
        if !spec_is_builtin(t) {
            lemma_struct_ok_mono(types, lookup(types, t)->Some_0, (k - 1) as nat, (k2 - 1) as nat);
        }
    }
}

/// Every struct resolves within as many steps as there are structs.
pub open spec fn all_sound(types: Seq<StructDefnV>) -> bool {
    forall|i: int|
        0 <= i < types.len() ==> struct_ok(types, #[trigger] types[i], types.len())
}

/// Whether an earlier struct already has the name of struct `j`.
pub open spec fn dup_at(types: Seq<StructDefnV>, j: int) -> bool {
    exists|i: int| 0 <= i < j && (#[trigger] types[i]).name == types[j].name
}

/// The first duplicated struct name at or after position `j`.
pub open spec fn spec_first_dup(types: Seq<StructDefnV>, j: int) -> Option<int>
    decreases types.len() - j,
{
    if j < 0 || j >= types.len() {
        None
    } else if dup_at(types, j) {
        Some(j)
    } else {
        spec_first_dup(types, j + 1)
    }
}

/// Whether a type reference resolves to a built-in or a defined struct.
pub open spec fn ref_defined(types: Seq<StructDefnV>, t: Seq<char>) -> bool {
    spec_is_builtin(t) || lookup_idx(types, t) >= 0
}

/// The first element at or after `j` whose reference is undefined.
pub open spec fn spec_first_undef_elem(
    types: Seq<StructDefnV>,
    elems: Seq<ElementV>,
    j: int,
) -> Option<int>
    decreases elems.len() - j,
{
    if j < 0 || j >= elems.len() {
        None
    } else if !ref_defined(types, elem_type_name(elems[j])) {
        Some(j)
    } else {
        spec_first_undef_elem(types, elems, j + 1)
    }
}

/// The first struct at or after `i` with an undefined reference, with the
/// offending element position.
pub open spec fn spec_first_undef(types: Seq<StructDefnV>, i: int) -> Option<(int, int)>
    decreases types.len() - i,
{
    if i < 0 || i >= types.len() {
        None
    } else {
        match spec_first_undef_elem(types, types[i].elements, 0) {
            Some(j) => Some((i, j)),
            None => spec_first_undef(types, i + 1),
        }
    }
}

/// The names of the structs among the first `k` that do not resolve, in
/// source order.
pub open spec fn unresolved_names(types: Seq<StructDefnV>, k: int) -> Seq<Seq<char>>
    decreases k,
{
    if k <= 0 {
        Seq::empty()
    } else {
        unresolved_names(types, k - 1) + if !struct_ok(types, types[k - 1], types.len()) {
            seq![types[k - 1].name]
        } else {
            Seq::empty()
        }
    }
}

/// The smallest line number of an unresolved struct among the first `k`,
/// starting from the largest `usize`.
pub open spec fn unresolved_min_line(types: Seq<StructDefnV>, k: int) -> nat
    decreases k,
{
    if k <= 0 {
        usize::MAX as nat
    } else {
        let m = unresolved_min_line(types, k - 1);
        if !struct_ok(types, types[k - 1], types.len()) && types[k - 1].line_no < m {
            types[k - 1].line_no
        } else {
            m
        }
    }
}

/// What type checking yields on a parsed struct list: the list itself, or
/// the first error in checking order (duplicates, then undefined
/// references, then recursive embeddings).
pub open spec fn spec_type_check(types: Seq<StructDefnV>) -> Result<Seq<StructDefnV>, ErrV> {
    match spec_first_dup(types, 0) {
        Some(j) => Err(
            ErrV { line_no: types[j].line_no, code: CodeV::DuplicateType(types[j].name) },
        ),
        None => match spec_first_undef(types, 0) {
            Some((i, j)) => Err(
                ErrV {
                    line_no: types[i].elements[j].line_no,
                    code: CodeV::UnknownType(elem_type_name(types[i].elements[j])),
                },
            ),
            None => {
                if all_sound(types) {
                    Ok(types)
                } else {
                    Err(
                        ErrV {
                            line_no: unresolved_min_line(types, types.len() as int),
                            code: CodeV::RecursiveTypes(unresolved_names(types, types.len() as int)),
                        },
                    )
                }
            },
        },
    }
}

/// The reference a struct element makes, as text.
fn elem_ref_name(e: &Element) -> (r: &str)
    ensures
        r@ == elem_type_name(e@),
{
    match &e.kind {
        ElementTypeRef::TypeName(t) => t.as_str(),
        ElementTypeRef::ArrayElem(a) => a.kind.as_str(),
    }
}

/// The position of the first struct with the given name.
pub(crate) fn find_idx(types: &Vec<StructDefn>, name: &str) -> (r: Option<usize>)
    ensures
        match r {
            Some(k) => lookup_idx(structs_view(types@), name@) == k as int,
            None => lookup_idx(structs_view(types@), name@) == -1,
        },
{
    proof {
        lemma_lookup_idx(structs_view(types@), name@);
    }
    let n = types.len();
    let mut i: usize = 0;
    #[verifier::loop_isolation(false)]
    while i < n
        invariant
            i <= n,
            forall|k: int| 0 <= k < i ==> (#[trigger] structs_view(types@)[k]).name != name@,
        decreases n - i,
    {
        if str_eq(types[i].name.as_str(), name) {
            proof {
                let tv = structs_view(types@);
                assert(tv[i as int].name == name@);
                let m = lookup_idx(tv, name@);
                if m == -1 {
                    assert(tv[i as int].name != name@);
                } else if m < i {
                    assert(tv[m].name != name@);
                } else if m > i {
                    assert(tv[i as int].name != name@);
                }
            }
            return Some(i);
        }
        i += 1;
    }
    proof {
        let tv = structs_view(types@);
        let m = lookup_idx(tv, name@);
        if m >= 0 {
            assert(tv[m].name != name@);
        }
    }
    None
}

/// Whether one of the first `j` structs has the same name as struct `j`.
fn name_in_prefix(types: &Vec<StructDefn>, j: usize) -> (r: bool)
    requires
        j < types@.len(),
    ensures
        r == dup_at(structs_view(types@), j as int),
{
    let mut i: usize = 0;
    #[verifier::loop_isolation(false)]
    while i < j
        invariant
            i <= j,
            forall|k: int| 0 <= k < i ==> (#[trigger] structs_view(types@)[k]).name != structs_view(
                types@,
            )[j as int].name,
        decreases j - i,
    {
        if str_eq(types[i].name.as_str(), types[j].name.as_str()) {
            proof {
                assert(structs_view(types@)[i as int].name == structs_view(types@)[j as int].name);
            }
            return true;
        }
        i += 1;
    }
    false
}

/// Whether every reference of struct `i` is a built-in or already resolved.
fn refs_all_resolved(types: &Vec<StructDefn>, resolved: &Vec<bool>, i: usize) -> (r: bool)
    requires
        i < types@.len(),
        resolved@.len() == types@.len(),
    ensures
        r == can_resolve(structs_view(types@), resolved@, i as int),
{
    let elems = &types[i].elements;
    let n = elems.len();
    let ghost tv = structs_view(types@);
    proof {
        assert(tv[i as int].elements =~= elems@.map_values(|e: Element| e@));
    }
    let mut j: usize = 0;
    #[verifier::loop_isolation(false)]
    while j < n
        invariant
            j <= n,
            forall|k: int| 0 <= k < j ==> ref_resolved(tv, resolved@, elem_type_name(
                #[trigger] tv[i as int].elements[k],
            )),
        decreases n - j,
    {
        let t = elem_ref_name(&elems[j]);
        proof {
            assert(tv[i as int].elements[j as int] == elems@[j as int]@);
        }
        if !is_builtin_type(t) {
            match find_idx(types, t) {
                Some(m) => {
                    proof {
                        lemma_lookup_idx(tv, t@);
                    }
                    if !resolved[m] {
                        proof {
                            assert(!ref_resolved(tv, resolved@, elem_type_name(
                                tv[i as int].elements[j as int],
                            )));
                        }
                        return false;
                    }
                },
                None => {
                    proof {
                        lemma_lookup_idx(tv, t@);
                        assert(!ref_resolved(tv, resolved@, elem_type_name(
                            tv[i as int].elements[j as int],
                        )));
                    }
                    return false;
                },
            }
        }
        proof {
            lemma_lookup_idx(tv, t@);
            assert(ref_resolved(tv, resolved@, elem_type_name(
                tv[i as int].elements[j as int],
            )));
        }
        j += 1;
    }
    true
}

/// A reference is satisfied: built-in, or a defined struct already marked
/// resolved.
pub open spec fn ref_resolved(
    types: Seq<StructDefnV>,
    resolved: Seq<bool>,
    t: Seq<char>,
) -> bool {
    spec_is_builtin(t) || (0 <= lookup_idx(types, t) < resolved.len() && resolved[lookup_idx(
        types,
        t,
    )])
}

/// Every reference of struct `i` is satisfied under the current marks.
pub open spec fn can_resolve(types: Seq<StructDefnV>, resolved: Seq<bool>, i: int) -> bool {
    forall|j: int|
        0 <= j < types[i].elements.len() ==> ref_resolved(types, resolved, elem_type_name(
            #[trigger] types[i].elements[j],
        ))
}

/// The number of set marks.
pub open spec fn count_true(s: Seq<bool>) -> nat
    decreases s.len(),
{
    if s.len() == 0 {
        0
    } else {
        count_true(s.drop_last()) + if s.last() {
            1nat
        } else {
            0nat
        }
    }
}

proof fn lemma_count_true_le(s: Seq<bool>)
    ensures
        count_true(s) <= s.len(),
    decreases s.len(),
{
    if s.len() > 0 {
        lemma_count_true_le(s.drop_last());
    }
}

proof fn lemma_count_true_update(s: Seq<bool>, i: int)
    requires
        0 <= i < s.len(),
        !s[i],
    ensures
        count_true(s.update(i, true)) == count_true(s) + 1,
    decreases s.len(),
{
    let s2 = s.update(i, true);
    if i == s.len() - 1 {
        assert(s2.drop_last() =~= s.drop_last());
    } else {
        assert(s2.drop_last() =~= s.drop_last().update(i, true));
        assert(s2.last() == s.last());
        lemma_count_true_update(s.drop_last(), i);
    }
}

/// Marked structs resolve within `count_true` steps.
pub open spec fn marks_sound(types: Seq<StructDefnV>, resolved: Seq<bool>) -> bool {
    &&& resolved.len() == types.len()
    &&& forall|i: int|
        0 <= i < types.len() && resolved[i] ==> struct_ok(
            types,
            #[trigger] types[i],
            count_true(resolved),
        )
}

/// At a fixpoint, an unmarked struct does not resolve within any bound.
proof fn lemma_fixpoint_complete(types: Seq<StructDefnV>, resolved: Seq<bool>, k: nat)
    requires
        resolved.len() == types.len(),
        forall|i: int|
            0 <= i < types.len() && !resolved[i] ==> !can_resolve(types, resolved, i),
    ensures
        forall|i: int|
            0 <= i < types.len() && !resolved[i] ==> !struct_ok(types, #[trigger] types[i], k),
    decreases k,
{
    if k > 0 {
        lemma_fixpoint_complete(types, resolved, (k - 1) as nat);
    }
    assert forall|i: int|
        0 <= i < types.len() && !resolved[i] implies !struct_ok(types, #[trigger] types[i], k) by {
        if struct_ok(types, types[i], k) {
            // Some reference of struct i is neither built-in nor marked, yet
            // struct_ok says it resolves in fewer steps; the induction
            // hypothesis rules that out.
            assert(!can_resolve(types, resolved, i));
            let j = choose|j: int|
                0 <= j < types[i].elements.len() && !ref_resolved(types, resolved, elem_type_name(
                    #[trigger] types[i].elements[j],
                ));
            let t = elem_type_name(types[i].elements[j]);
            assert(!spec_is_builtin(t));
            assert(k > 0 && lookup(types, t) is Some);
            let m = lookup_idx(types, t);
            lemma_lookup_idx(types, t);
            assert(0 <= m < types.len());
            assert(!resolved[m]);
            assert(struct_ok(types, types[m], (k - 1) as nat));
            assert(false);
        }
    }
}

/// Runs type checking on a parsed schema.
pub fn type_check_schema(schema: Schema) -> (r: Result<TSchema, CartaError>)
    ensures
        r is Ok ==> spec_type_check(schema@) is Ok && r->Ok_0@ == spec_type_check(schema@)->Ok_0,
        r is Err ==> spec_type_check(schema@) is Err && r->Err_0@ == spec_type_check(
            schema@,
        )->Err_0,
{
    let ghost sv = schema@;
    let types = schema.structs;
    proof {
        assert(structs_view(types@) == sv);
    }
    let n = types.len();

    // Unique names: report the first duplicated definition.
    let mut j: usize = 0;
    #[verifier::loop_isolation(false)]
    while j < n
        invariant
            n == types@.len(),
            j <= n,
            structs_view(types@) == sv,
            spec_first_dup(sv, 0) == spec_first_dup(sv, j as int),
        decreases n - j,
    {
        if name_in_prefix(&types, j) {
            let e = CartaError::new_duplicate_type(types[j].line_no, types[j].name.clone());
            proof {
                assert(spec_first_dup(sv, j as int) == Some(j as int));
            }
            return Err(e);
        }
        j += 1;
    }
    proof {
        assert(spec_first_dup(sv, 0) is None);
    }

    // Defined references: report the first unknown type name.
    let mut i: usize = 0;
    #[verifier::loop_isolation(false)]
    while i < n
        invariant
            n == types@.len(),
            i <= n,
            structs_view(types@) == sv,
            spec_first_dup(sv, 0) is None,
            spec_first_undef(sv, 0) == spec_first_undef(sv, i as int),
        decreases n - i,
    {
        let elems = &types[i].elements;
        let en = elems.len();
        proof {
            assert(sv[i as int].elements =~= elems@.map_values(|e: Element| e@));
        }
        let mut j2: usize = 0;
        #[verifier::loop_isolation(false)]
        while j2 < en
            invariant
                i < n,
                en == elems@.len(),
                j2 <= en,
                elems@ == types@[i as int].elements@,
                sv[i as int].elements == elems@.map_values(|e: Element| e@),
                spec_first_undef_elem(sv, sv[i as int].elements, 0) == spec_first_undef_elem(
                    sv,
                    sv[i as int].elements,
                    j2 as int,
                ),
            decreases en - j2,
        {
            let t = elem_ref_name(&elems[j2]);
            proof {
                assert(sv[i as int].elements[j2 as int] == elems@[j2 as int]@);
            }
            if !is_builtin_type(t) {
                if find_idx(&types, t).is_none() {
                    let e = CartaError::new_unknown_type(elems[j2].line_no, t.to_owned());
                    proof {
                        assert(!ref_defined(sv, elem_type_name(sv[i as int].elements[j2 as int])));
                        assert(spec_first_undef_elem(sv, sv[i as int].elements, j2 as int) == Some(
                            j2 as int,
                        ));
                        assert(spec_first_undef(sv, i as int) == Some((i as int, j2 as int)));
                    }
                    return Err(e);
                }
            }
            proof {
                assert(ref_defined(sv, elem_type_name(sv[i as int].elements[j2 as int])));
            }
            j2 += 1;
        }
        i += 1;
    }
    proof {
        assert(spec_first_undef(sv, 0) is None);
    }

    // Fixpoint resolution: mark structs whose references are all built-ins
    // or already marked, until nothing changes.
    let mut resolved: Vec<bool> = Vec::new();
    let mut z: usize = 0;
    #[verifier::loop_isolation(false)]
    while z < n
        invariant
            z <= n,
            resolved@.len() == z,
            forall|q: int| 0 <= q < z ==> !resolved@[q],
        decreases n - z,
    {
        resolved.push(false);
        z += 1;
    }
    proof {
        lemma_count_all_false(resolved@);
        assert(marks_sound(sv, resolved@));
    }

    let mut fixed = false;
    let ghost mut pass: nat = 0;
    #[verifier::loop_isolation(false)]
    while !fixed
        invariant
            n == types@.len(),
            structs_view(types@) == sv,
            resolved@.len() == n,
            marks_sound(sv, resolved@),
            !fixed ==> pass <= count_true(resolved@) && count_true(resolved@) <= n,
            fixed ==> forall|q: int|
                0 <= q < n && !resolved@[q] ==> !can_resolve(sv, resolved@, q),
        decreases n + 1 - pass,
    {
        proof {
            lemma_count_true_le(resolved@);
        }
        let mut changed = false;
        let mut w: usize = 0;
        #[verifier::loop_isolation(false)]
        while w < n
            invariant
                n == types@.len(),
                structs_view(types@) == sv,
                resolved@.len() == n,
                w <= n,
                marks_sound(sv, resolved@),
                changed ==> count_true(resolved@) >= pass + 1,
                !changed ==> count_true(resolved@) >= pass,
                !changed ==> forall|q: int|
                    0 <= q < w && !resolved@[q] ==> !can_resolve(sv, resolved@, q),
            decreases n - w,
        {
            if !resolved[w] && refs_all_resolved(&types, &resolved, w) {
                let ghost old_marks = resolved@;
                resolved.set(w, true);
                changed = true;
                proof {
                    lemma_count_true_update(old_marks, w as int);
                    lemma_count_true_le(resolved@);
                    let c = count_true(resolved@);
                    assert forall|q: int|
                        0 <= q < n && resolved@[q] implies struct_ok(
                        sv,
                        #[trigger] sv[q],
                        c,
                    ) by {
                        if q == w {
                            // Every reference is a built-in or an already
                            // marked struct, and marked structs resolve
                            // within c - 1 steps.
                            assert forall|jj: int|
                                0 <= jj < sv[q].elements.len() implies {
                                let t = elem_type_name(#[trigger] sv[q].elements[jj]);
                                spec_is_builtin(t) || (c > 0 && lookup(sv, t) is Some && struct_ok(
                                    sv,
                                    lookup(sv, t)->Some_0,
                                    (c - 1) as nat,
                                ))
                            } by {
                                let t = elem_type_name(sv[q].elements[jj]);
                                if !spec_is_builtin(t) {
                                    assert(ref_resolved(sv, old_marks, t));
                                    let m = lookup_idx(sv, t);
                                    lemma_lookup_idx(sv, t);
                                    assert(struct_ok(sv, sv[m], (c - 1) as nat)) by {
                                        lemma_struct_ok_mono(
                                            sv,
                                            sv[m],
                                            count_true(old_marks),
                                            (c - 1) as nat,
                                        );
                                    }
                                }
                            }
                        } else {
                            assert(old_marks[q]);
                            lemma_struct_ok_mono(sv, sv[q], count_true(old_marks), c);
                        }
                    }
                }
            }
            w += 1;
        }
        if !changed {
            fixed = true;
        }
        proof {
            pass = pass + 1;
            lemma_count_true_le(resolved@);
        }
    }
    proof {
        if !fixed {
            lemma_count_true_le(resolved@);
            assert(false);
        }
        lemma_fixpoint_complete(sv, resolved@, n as nat);
        assert forall|q: int| 0 <= q < n implies resolved@[q] == struct_ok(
            sv,
            #[trigger] sv[q],
            n as nat,
        ) by {
            if resolved@[q] {
                lemma_count_true_le(resolved@);
                lemma_struct_ok_mono(sv, sv[q], count_true(resolved@), n as nat);
            }
        }
    }

    // Collect the unresolved structs, if any.
    let mut any_bad = false;
    let mut bad_names: Vec<String> = Vec::new();
    let mut min_line: usize = usize::MAX;
    let mut q: usize = 0;
    #[verifier::loop_isolation(false)]
    while q < n
        invariant
            n == types@.len(),
            structs_view(types@) == sv,
            resolved@.len() == n,
            q <= n,
            forall|p: int| 0 <= p < n ==> resolved@[p] == struct_ok(sv, #[trigger] sv[p], n as nat),
            any_bad == (unresolved_names(sv, q as int).len() > 0),
            bad_names@.map_values(|s: String| s@) == unresolved_names(sv, q as int),
            min_line as nat == unresolved_min_line(sv, q as int),
        decreases n - q,
    {
        if !resolved[q] {
            any_bad = true;
            bad_names.push(types[q].name.clone());
            if types[q].line_no < min_line {
                min_line = types[q].line_no;
            }
            proof {
                assert(bad_names@.map_values(|s: String| s@) =~= unresolved_names(
                    sv,
                    q as int + 1,
                ));
            }
        } else {
            proof {
                assert(unresolved_names(sv, q as int + 1) =~= unresolved_names(sv, q as int));
            }
        }
        q += 1;
    }
    if any_bad {
        proof {
            assert(!all_sound(sv)) by {
                assert(unresolved_names(sv, n as int).len() > 0);
                lemma_unresolved_names_all_sound(sv, n as int);
            }
        }
        proof {
            assert(Seq::new(bad_names@.len(), |i: int| bad_names@[i]@) =~= bad_names@.map_values(
                |s: String| s@,
            ));
        }
        return Err(CartaError::new_recursive_types(min_line, bad_names));
    }
    proof {
        assert(all_sound(sv)) by {
            lemma_unresolved_names_all_sound(sv, n as int);
        }
        assert(structs_view(types@) == sv);
    }
    Ok(TSchema { types })
}

proof fn lemma_count_all_false(s: Seq<bool>)
    requires
        forall|q: int| 0 <= q < s.len() ==> !s[q],
    ensures
        count_true(s) == 0,
    decreases s.len(),
{
    if s.len() > 0 {
        lemma_count_all_false(s.drop_last());
    }
}

/// The unresolved-name list over the whole schema is empty exactly when
/// every struct resolves.
proof fn lemma_unresolved_names_all_sound(types: Seq<StructDefnV>, k: int)
    requires
        0 <= k <= types.len(),
    ensures
        unresolved_names(types, k).len() == 0 <==> (forall|i: int|
            0 <= i < k ==> struct_ok(types, #[trigger] types[i], types.len())),
    decreases k,
{
    if k > 0 {
        lemma_unresolved_names_all_sound(types, k - 1);
    }
}

} // verus!
