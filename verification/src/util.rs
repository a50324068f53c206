use vstd::prelude::*;
use crate::Value;
use crate::model::secluded_of;

verus! {

/// Normalizes a comparison endpoint to a single exclusive integer boundary,
/// so that the narrowing logic only ever compares one canonical form.
/// `gt` picks the side the boundary is used on: with `gt` the adjacent value
/// below an `Included` point is taken, otherwise the one above.
/// `Infinite` has no finite boundary, so it yields `None`.
pub fn convert_to_secluded(value: Value<i32>, gt: bool) -> (res: Option<i32>)
    requires
        value matches Value::Included(i) ==> (if gt {
            i > i32::MIN
        } else {
            i < i32::MAX
        }),
    ensures
        match secluded_of(value@, gt) {
            Option::Some(s) => res matches Option::Some(r) && r as int == s,
            Option::None => res is None,
        },
{
    match value {
        Value::Included(i) => Some(
            if gt {
                i - 1
            } else {
                i + 1
            },
        ),
        Value::Secluded(i) => Some(i),
        Value::Infinite => None,
    }
}

} // verus!
