use vstd::prelude::*;

use crate::conv::TemplateValue;
use crate::{Environment, ExpandedMatrix};

verus! {

/// Where a template is read from, the template of the path it is written
/// to, and whether the whole matrix is rendered into one file.
#[derive(Debug)]
pub struct Template {
    pub source: String,
    pub outpath: String,
    pub squash: bool,
}

/// `s` is the single scope of a squashed render of `matrix`: the key
/// `squash` bound to the list of its environments, in order.
pub open spec fn squash_rel(matrix: ExpandedMatrix<TemplateValue>, s: Environment<TemplateValue>) -> bool {
    &&& s.len() == 1
    &&& s[0].0@ == "squash"@
    &&& s[0].1 is Array
    &&& s[0].1->Array_0.len() == matrix.len()
    &&& forall|k: int|
        0 <= k < matrix.len() ==> #[trigger] s[0].1->Array_0[k] == TemplateValue::Object(matrix[k])
}

/// The one scope that a squashed template is rendered with.
pub fn squash_scope(matrix: ExpandedMatrix<TemplateValue>) -> (r: Environment<TemplateValue>)
    ensures
        squash_rel(matrix, r),
{
    let ghost orig = matrix;
    let n = matrix.len();
    let mut rest = matrix;
    let mut reversed: Vec<TemplateValue> = Vec::new();
    while rest.len() > 0
        invariant
            rest.len() + reversed.len() == n,
            n == orig.len(),
            forall|k: int| 0 <= k < rest.len() ==> #[trigger] rest[k] == orig[k],
            forall|k: int|
                0 <= k < reversed.len() ==> #[trigger] reversed[k] == TemplateValue::Object(
                    orig[n - 1 - k],
                ),
        decreases rest.len(),
    {
        match rest.pop() {
            Some(env) => reversed.push(TemplateValue::Object(env)),
            None => {},
        }
    }
    let mut items: Vec<TemplateValue> = Vec::new();
    while reversed.len() > 0
        invariant
            reversed.len() + items.len() == n,
            n == orig.len(),
            forall|k: int|
                0 <= k < reversed.len() ==> #[trigger] reversed[k] == TemplateValue::Object(
                    orig[n - 1 - k],
                ),
            forall|k: int| 0 <= k < items.len() ==> #[trigger] items[k] == TemplateValue::Object(orig[k]),
        decreases reversed.len(),
    {
        match reversed.pop() {
            Some(item) => items.push(item),
            None => {},
        }
    }
    let key = "squash".to_string();
    proof {
        reveal_strlit("squash");
    }
    let mut scope: Environment<TemplateValue> = Vec::new();
    scope.push((key, TemplateValue::Array(items)));
    scope
}

/// The scopes that a template is rendered with, one output file each: one
/// per environment, or the single squashed scope.
pub fn render_scopes(matrix: ExpandedMatrix<TemplateValue>, template: &Template) -> (r: Vec<
    Environment<TemplateValue>,
>)
    ensures
        template.squash ==> r.len() == 1 && squash_rel(matrix, r[0]),
        !template.squash ==> r == matrix,
{
    if template.squash {
        let mut r: Vec<Environment<TemplateValue>> = Vec::new();
        r.push(squash_scope(matrix));
        r
    } else {
        matrix
    }
}

} // verus!
