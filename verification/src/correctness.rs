//! Final checks on a type-checked schema: the `root` struct must exist, and
//! every array length given as an identifier must name an earlier sibling
//! of a built-in integer type.

use vstd::prelude::*;
use crate::builtin_types::{BuiltinTypeClass, is_type_class, spec_builtin_class, spec_is_builtin};
use crate::error::{CartaError, CodeV, ErrV};
use crate::parser::{ArrayLenV, Element, ElementTypeRef, ElementV, ETypeV, ArrayLen, StructDefnV};
use crate::text::str_eq;
use crate::type_check::{TSchema, lookup_idx};

verus! {

/// The index of the first of the elements before position `i` that carries
/// the given name, scanning from `j`; -1 when there is none.
pub open spec fn sibling_idx(elems: Seq<ElementV>, id: Seq<char>, i: int, j: int) -> int
    decreases i - j,
{
    if j < 0 || j >= i || i > elems.len() {
        -1
    } else if elems[j].name == id {
        j
    } else {
        sibling_idx(elems, id, i, j + 1)
    }
}

/// Whether a reference names a built-in of integer class.
pub open spec fn is_integer_builtin(t: Seq<char>) -> bool {
    spec_is_builtin(t) && spec_builtin_class(t) == BuiltinTypeClass::Integer
}

/// What checking element `i` of a struct yields: nothing for plain
/// elements and literal lengths; for an identifier length, the sibling must
/// exist and be a built-in integer.
pub open spec fn spec_check_elem(elems: Seq<ElementV>, i: int) -> Result<(), ErrV> {
    match elems[i].kind {
        ETypeV::TypeName(_) => Ok(()),
        ETypeV::ArrayElem(a) => match a.length {
            ArrayLenV::Static(_) => Ok(()),
            ArrayLenV::Identifier(id) => {
                let j = sibling_idx(elems, id, i, 0);
                if j == -1 {
                    Err(ErrV { line_no: 0, code: CodeV::BadArrayLen(id) })
                } else {
                    match elems[j].kind {
                        ETypeV::TypeName(t) => {
                            if is_integer_builtin(t) {
                                Ok(())
                            } else {
                                Err(ErrV { line_no: 0, code: CodeV::BadArrayLenType(id) })
                            }
                        },
                        ETypeV::ArrayElem(_) => Err(
                            ErrV { line_no: 0, code: CodeV::BadArrayLenType(id) },
                        ),
                    }
                }
            },
        },
    }
}

/// The first element at or after `j` that fails the array-length check.
pub open spec fn spec_first_elem_err(elems: Seq<ElementV>, j: int) -> Option<ErrV>
    decreases elems.len() - j,
{
    if j < 0 || j >= elems.len() {
        None
    } else {
        match spec_check_elem(elems, j) {
            Err(e) => Some(e),
            Ok(()) => spec_first_elem_err(elems, j + 1),
        }
    }
}

/// The first struct at or after `i` that fails the array-length check.
pub open spec fn spec_first_struct_err(types: Seq<StructDefnV>, i: int) -> Option<ErrV>
    decreases types.len() - i,
{
    if i < 0 || i >= types.len() {
        None
    } else {
        match spec_first_elem_err(types[i].elements, 0) {
            Some(e) => Some(e),
            None => spec_first_struct_err(types, i + 1),
        }
    }
}

/// What the correctness check yields: the missing root, the first failing
/// array length, or nothing.
pub open spec fn spec_check_schema(types: Seq<StructDefnV>) -> Result<(), ErrV> {
    if lookup_idx(types, "root"@) == -1 {
        Err(ErrV { line_no: 0, code: CodeV::MissingRootElement })
    } else {
        match spec_first_struct_err(types, 0) {
            Some(e) => Err(e),
            None => Ok(()),
        }
    }
}

/// Every array length of the schema resolves to an earlier built-in
/// integer sibling.
pub open spec fn array_lengths_ok(types: Seq<StructDefnV>) -> bool {
    spec_first_struct_err(types, 0) is None
}

/// Checks element `i` of a struct.
fn check_array_elem(elems: &Vec<Element>, i: usize) -> (r: Result<(), CartaError>)
    requires
        i < elems@.len(),
    ensures
        match spec_check_elem(elems@.map_values(|e: Element| e@), i as int) {
            Ok(()) => r is Ok,
            Err(e) => r is Err && r->Err_0@ == e,
        },
{
    let ghost ev = elems@.map_values(|e: Element| e@);
    let arr = match &elems[i].kind {
        ElementTypeRef::TypeName(_) => {
            return Ok(());
        },
        ElementTypeRef::ArrayElem(a) => a,
    };
    let id = match &arr.length {
        ArrayLen::Static(_) => {
            return Ok(());
        },
        ArrayLen::Identifier(id) => id,
    };
    let mut j: usize = 0;
    #[verifier::loop_isolation(false)]
    while j < i
        invariant
            j <= i,
            sibling_idx(ev, id@, i as int, 0) == sibling_idx(ev, id@, i as int, j as int),
        decreases i - j,
    {
        proof {
            assert(ev[j as int] == elems@[j as int]@);
        }
        if str_eq(elems[j].name.as_str(), id.as_str()) {
            proof {
                assert(sibling_idx(ev, id@, i as int, j as int) == j as int);
            }
            match &elems[j].kind {
                ElementTypeRef::TypeName(t) => {
                    if is_type_class(t.as_str(), BuiltinTypeClass::Integer) {
                        return Ok(());
                    } else {
                        return Err(CartaError::new_bad_array_len_type(0, id.as_str()));
                    }
                },
                ElementTypeRef::ArrayElem(_) => {
                    return Err(CartaError::new_bad_array_len_type(0, id.as_str()));
                },
            }
        }
        j += 1;
    }
    proof {
        assert(sibling_idx(ev, id@, i as int, i as int) == -1);
    }
    Err(CartaError::new_bad_array_len(0, id.as_str()))
}

/// Runs the correctness checks on a type-checked schema.
pub fn check_schema(schema: &TSchema) -> (r: Result<(), CartaError>)
    ensures
        match spec_check_schema(schema@) {
            Ok(()) => r is Ok,
            Err(e) => r is Err && r->Err_0@ == e,
        },
{
    let ghost sv = schema@;
    if crate::type_check::find_idx(&schema.types, "root").is_none() {
        return Err(CartaError::new_missing_root_element(0));
    }
    let n = schema.types.len();
    let mut i: usize = 0;
    #[verifier::loop_isolation(false)]
    while i < n
        invariant
            i <= n,
            n == schema.types@.len(),
            spec_first_struct_err(sv, 0) == spec_first_struct_err(sv, i as int),
        decreases n - i,
    {
        let elems = &schema.types[i].elements;
        let en = elems.len();
        proof {
            assert(sv[i as int].elements =~= elems@.map_values(|e: Element| e@));
        }
        let mut j: usize = 0;
        #[verifier::loop_isolation(false)]
        while j < en
            invariant
                i < n,
                j <= en,
                en == elems@.len(),
                elems@ == schema.types@[i as int].elements@,
                sv[i as int].elements == elems@.map_values(|e: Element| e@),
                spec_first_elem_err(sv[i as int].elements, 0) == spec_first_elem_err(
                    sv[i as int].elements,
                    j as int,
                ),
            decreases en - j,
        {
            match check_array_elem(elems, j) {
                Ok(()) => {},
                Err(e) => {
                    return Err(e);
                },
            }
            j += 1;
        }
        i += 1;
    }
    Ok(())
}

} // verus!
