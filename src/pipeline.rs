use vstd::prelude::*;

use crate::conv::{
    convertible, first_error, json_rel, template_rel, to_json_model, to_liquid_model, ConvError,
    JsonValue, Target, TemplateValue,
};
use crate::value::SourceValue;
use crate::{env_model, matrix_model, EnvModel, Environment, ExpandedMatrix};

verus! {

/// What the filter expression said of one environment.
#[derive(Debug)]
pub enum FilterVerdict {
    /// The expression evaluated to the boolean `true`.
    Pass,
    /// The expression evaluated to anything else.
    Reject,
    /// The expression engine failed, with its message.
    Failed(String),
}

/// Why the pipeline stopped.
#[derive(Debug)]
pub enum MatrixError {
    Conversion(ConvError),
    Filter(String),
}

/// Every value of `e` converts to target `t`.
pub open spec fn env_convertible(t: Target, e: EnvModel) -> bool {
    forall|i: int| 0 <= i < e.len() ==> convertible(t, #[trigger] e[i].1)
}

/// Value `i` of `e` is the first that does not convert to target `t`.
pub open spec fn first_bad_value(t: Target, e: EnvModel, i: int) -> bool {
    &&& 0 <= i < e.len()
    &&& !convertible(t, e[i].1)
    &&& forall|j: int| 0 <= j < i ==> convertible(t, #[trigger] e[j].1)
}

/// The error that converting the values of `e` stops at: that of its first
/// value that does not convert.
pub open spec fn env_first_error(t: Target, e: EnvModel) -> Option<ConvError> {
    if exists|i: int| first_bad_value(t, e, i) {
        first_error(t, e[choose|i: int| first_bad_value(t, e, i)].1)
    } else {
        None
    }
}

proof fn lemma_first_bad_value_unique(t: Target, e: EnvModel, i: int, k: int)
    requires
        first_bad_value(t, e, i),
        first_bad_value(t, e, k),
    ensures
        i == k,
{
    if k < i {
        assert(convertible(t, e[k].1));
    }
    if i < k {
        assert(convertible(t, e[i].1));
    }
}

/// `j` is the JSON object with the names and converted values of `e`.
pub open spec fn json_scope_rel(e: EnvModel, j: JsonValue) -> bool {
    &&& j is Object
    &&& j->Object_0.len() == e.len()
    &&& forall|i: int|
        0 <= i < e.len() ==> j->Object_0[i].0@ == (#[trigger] e[i]).0 && json_rel(
            e[i].1,
            j->Object_0[i].1,
        )
}

/// `r` holds the names of `e` with their values converted for templates.
pub open spec fn template_env_rel(e: EnvModel, r: Environment<TemplateValue>) -> bool {
    &&& r.len() == e.len()
    &&& forall|i: int|
        0 <= i < e.len() ==> r[i].0@ == (#[trigger] e[i]).0 && template_rel(e[i].1, r[i].1)
}

/// The JSON object that a filter expression is evaluated against.
pub fn json_scope(env: &Environment<SourceValue>) -> (r: Result<JsonValue, ConvError>)
    ensures
        r is Ok <==> env_convertible(Target::Json, env_model(*env)),
        r matches Ok(j) ==> json_scope_rel(env_model(*env), j),
        r matches Err(c) ==> env_first_error(Target::Json, env_model(*env)) == Some(c),
{
    let ghost e = env_model(*env);
    let mut out: Vec<(String, JsonValue)> = Vec::new();
    let mut i: usize = 0;
    while i < env.len()
        invariant
            i <= env.len(),
            e == env_model(*env),
            out.len() == i,
            forall|j: int|
                0 <= j < i ==> out[j].0@ == (#[trigger] e[j]).0 && convertible(Target::Json, e[j].1)
                    && json_rel(e[j].1, out[j].1),
        decreases env.len() - i,
    {
        match to_json_model(&env[i].1) {
            Ok(j) => out.push((env[i].0.clone(), j)),
            Err(c) => {
                proof {
                    assert(first_bad_value(Target::Json, e, i as int));
                    let k = choose|k: int| first_bad_value(Target::Json, e, k);
                    lemma_first_bad_value_unique(Target::Json, e, i as int, k);
                }
                return Err(c);
            },
        }
        i = i + 1;
    }
    Ok(JsonValue::Object(out))
}

/// Converts every value of an environment for the template engine.
pub fn convert_map(env: &Environment<SourceValue>) -> (r: Result<
    Environment<TemplateValue>,
    ConvError,
>)
    ensures
        r is Ok <==> env_convertible(Target::Template, env_model(*env)),
        r matches Ok(t) ==> template_env_rel(env_model(*env), t),
        r matches Err(c) ==> env_first_error(Target::Template, env_model(*env)) == Some(c),
{
    let ghost e = env_model(*env);
    let mut out: Environment<TemplateValue> = Vec::new();
    let mut i: usize = 0;
    while i < env.len()
        invariant
            i <= env.len(),
            e == env_model(*env),
            out.len() == i,
            forall|j: int|
                0 <= j < i ==> out[j].0@ == (#[trigger] e[j]).0 && convertible(
                    Target::Template,
                    e[j].1,
                ) && template_rel(e[j].1, out[j].1),
        decreases env.len() - i,
    {
        match to_liquid_model(&env[i].1) {
            Ok(t) => out.push((env[i].0.clone(), t)),
            Err(c) => {
                proof {
                    assert(first_bad_value(Target::Template, e, i as int));
                    let k = choose|k: int| first_bad_value(Target::Template, e, k);
                    lemma_first_bad_value_unique(Target::Template, e, i as int, k);
                }
                return Err(c);
            },
        }
        i = i + 1;
    }
    Ok(out)
}

/// Environment `i` survives the filter: there is none, or it said `Pass`.
pub open spec fn passes(verdicts: Option<Seq<FilterVerdict>>, i: int) -> bool {
    match verdicts {
        None => true,
        Some(vs) => vs[i] is Pass,
    }
}

/// The indices below `n` of the surviving environments, in order.
pub open spec fn selected(verdicts: Option<Seq<FilterVerdict>>, n: int) -> Seq<int>
    decreases n,
{
    if n <= 0 {
        seq![]
    } else if passes(verdicts, n - 1) {
        selected(verdicts, n - 1).push(n - 1)
    } else {
        selected(verdicts, n - 1)
    }
}

/// The verdict of environment `i` is a failure of the engine.
pub open spec fn failed_at(verdicts: Option<Seq<FilterVerdict>>, i: int) -> bool {
    match verdicts {
        None => false,
        Some(vs) => vs[i] is Failed,
    }
}

/// No verdict failed, and every survivor converts for templates.
pub open spec fn pipeline_ok(mm: Seq<EnvModel>, verdicts: Option<Seq<FilterVerdict>>) -> bool {
    &&& forall|i: int| 0 <= i < mm.len() ==> !#[trigger] failed_at(verdicts, i)
    &&& forall|i: int|
        0 <= i < mm.len() ==> passes(verdicts, i) ==> env_convertible(
            Target::Template,
            #[trigger] mm[i],
        )
}

/// Environment `i` stops the pipeline: its verdict failed, or it survives
/// and does not convert.
pub open spec fn stops(mm: Seq<EnvModel>, verdicts: Option<Seq<FilterVerdict>>, i: int) -> bool {
    failed_at(verdicts, i) || (passes(verdicts, i) && !env_convertible(Target::Template, mm[i]))
}

/// Environment `i` is the first that stops the pipeline.
pub open spec fn first_stop(mm: Seq<EnvModel>, verdicts: Option<Seq<FilterVerdict>>, i: int) -> bool {
    &&& 0 <= i < mm.len()
    &&& stops(mm, verdicts, i)
    &&& forall|j: int| 0 <= j < i ==> !#[trigger] stops(mm, verdicts, j)
}

/// The error the pipeline stops with: that of the first environment that
/// stops it.
pub open spec fn pipeline_error(mm: Seq<EnvModel>, verdicts: Option<Seq<FilterVerdict>>) -> Option<
    MatrixError,
> {
    if exists|i: int| first_stop(mm, verdicts, i) {
        let i = choose|i: int| first_stop(mm, verdicts, i);
        if failed_at(verdicts, i) {
            Some(MatrixError::Filter(verdicts->Some_0[i]->Failed_0))
        } else {
            Some(MatrixError::Conversion(env_first_error(Target::Template, mm[i])->Some_0))
        }
    } else {
        None
    }
}

proof fn lemma_first_stop_unique(
    mm: Seq<EnvModel>,
    verdicts: Option<Seq<FilterVerdict>>,
    i: int,
    k: int,
)
    requires
        first_stop(mm, verdicts, i),
        first_stop(mm, verdicts, k),
    ensures
        i == k,
{
    if k < i {
        assert(!stops(mm, verdicts, k));
    }
    if i < k {
        assert(!stops(mm, verdicts, i));
    }
}

proof fn lemma_is_first_stop(mm: Seq<EnvModel>, verdicts: Option<Seq<FilterVerdict>>, i: int)
    requires
        0 <= i < mm.len(),
        stops(mm, verdicts, i),
        pipeline_ok(mm.take(i), verdicts),
    ensures
        pipeline_error(mm, verdicts) == if failed_at(verdicts, i) {
            Some(MatrixError::Filter(verdicts->Some_0[i]->Failed_0))
        } else {
            Some(MatrixError::Conversion(env_first_error(Target::Template, mm[i])->Some_0))
        },
{
    assert forall|j: int| 0 <= j < i implies !#[trigger] stops(mm, verdicts, j) by {
        assert(mm.take(i)[j] == mm[j]);
        assert(!failed_at(verdicts, j));
    }
    assert(first_stop(mm, verdicts, i));
    let k = choose|k: int| first_stop(mm, verdicts, k);
    lemma_first_stop_unique(mm, verdicts, i, k);
}

pub open spec fn verdicts_model(verdicts: Option<Vec<FilterVerdict>>) -> Option<
    Seq<FilterVerdict>,
> {
    match verdicts {
        None => None,
        Some(v) => Some(v@),
    }
}

/// Keeps the environments that the filter let through, in order, and
/// converts each for the template engine. With no filter (`None`) every
/// environment is kept; otherwise `verdicts` holds one verdict per
/// environment. The first failure, in environment order, stops the work.
pub fn convert_matrix(
    matrix: &ExpandedMatrix<SourceValue>,
    verdicts: &Option<Vec<FilterVerdict>>,
) -> (r: Result<ExpandedMatrix<TemplateValue>, MatrixError>)
    requires
        verdicts matches Some(vs) ==> vs.len() == matrix.len(),
    ensures
        r is Ok <==> pipeline_ok(matrix_model(*matrix), verdicts_model(*verdicts)),
        r matches Ok(out) ==> {
            let sel = selected(verdicts_model(*verdicts), matrix.len() as int);
            &&& out.len() == sel.len()
            &&& forall|k: int|
                0 <= k < sel.len() ==> template_env_rel(
                    matrix_model(*matrix)[#[trigger] sel[k]],
                    out[k],
                )
        },
        r matches Err(e) ==> pipeline_error(matrix_model(*matrix), verdicts_model(*verdicts))
            == Some(e),
{
    let ghost mm = matrix_model(*matrix);
    let ghost vm = verdicts_model(*verdicts);
    let mut out: ExpandedMatrix<TemplateValue> = Vec::new();
    let mut i: usize = 0;
    while i < matrix.len()
        invariant
            i <= matrix.len(),
            mm == matrix_model(*matrix),
            vm == verdicts_model(*verdicts),
            verdicts matches Some(vs) ==> vs.len() == matrix.len(),
            pipeline_ok(mm.take(i as int), vm),
            out.len() == selected(vm, i as int).len(),
            forall|k: int|
                0 <= k < selected(vm, i as int).len() ==> template_env_rel(
                    mm[#[trigger] selected(vm, i as int)[k]],
                    out[k],
                ),
            forall|k: int| 0 <= k < selected(vm, i as int).len() ==> 0 <= #[trigger] selected(vm, i as int)[k] < i,
        decreases matrix.len() - i,
    {
        let keep = match verdicts {
            None => true,
            Some(vs) => match &vs[i] {
                FilterVerdict::Pass => true,
                FilterVerdict::Reject => false,
                FilterVerdict::Failed(msg) => {
                    let m = msg.clone();
                    assert(vm->Some_0[i as int] == FilterVerdict::Failed(m));
                    assert(failed_at(vm, i as int));
                    proof {
                        lemma_is_first_stop(mm, vm, i as int);
                    }
                    return Err(MatrixError::Filter(m));
                },
            },
        };
        assert(keep == passes(vm, i as int));
        if keep {
            assert(env_model(matrix[i as int]) == mm[i as int]);
            match convert_map(&matrix[i]) {
                Ok(t) => {
                    out.push(t);
                },
                Err(c) => {
                    assert(!env_convertible(Target::Template, mm[i as int]));
                    proof {
                        lemma_is_first_stop(mm, vm, i as int);
                    }
                    return Err(MatrixError::Conversion(c));
                },
            }
        }
        assert(passes(vm, i as int) ==> env_convertible(Target::Template, mm[i as int]));
        assert(!failed_at(vm, i as int));
        assert forall|j: int| 0 <= j < mm.take(i + 1).len() implies !#[trigger] failed_at(vm, j) by {
            if j < i {
                assert(mm.take(i as int).len() == i);
                assert(!failed_at(vm, j));
            }
        }
        assert forall|j: int| 0 <= j < mm.take(i + 1).len() && passes(vm, j) implies env_convertible(
            Target::Template,
            #[trigger] mm.take(i + 1)[j],
        ) by {
            if j < i {
                assert(mm.take(i + 1)[j] == mm.take(i as int)[j]);
            } else {
                assert(mm.take(i + 1)[j] == mm[i as int]);
            }
        }
        assert(pipeline_ok(mm.take(i + 1), vm));
        i = i + 1;
    }
    assert(mm.take(matrix.len() as int) =~= mm);
    Ok(out)
}

/// When the filter let every environment through, all are kept, in order.
pub proof fn law_all_pass_kept(vs: Seq<FilterVerdict>, n: int)
    requires
        0 <= n <= vs.len(),
        forall|i: int| 0 <= i < vs.len() ==> (#[trigger] vs[i]) is Pass,
    ensures
        selected(Some(vs), n) == Seq::new(n as nat, |i: int| i),
    decreases n,
{
    if n > 0 {
        law_all_pass_kept(vs, n - 1);
        assert(Seq::new((n - 1) as nat, |i: int| i).push(n - 1) =~= Seq::new(n as nat, |i: int| i));
    } else {
        assert(Seq::<int>::empty() =~= Seq::new(0, |i: int| i));
    }
}

/// A failure of the expression engine on any environment fails the whole
/// pipeline; it never counts as a rejection.
pub proof fn law_filter_failure_propagates(mm: Seq<EnvModel>, vs: Seq<FilterVerdict>, i: int)
    requires
        0 <= i < mm.len(),
        i < vs.len(),
        vs[i] is Failed,
    ensures
        !pipeline_ok(mm, Some(vs)),
{
    assert(failed_at(Some(vs), i));
}

} // verus!
