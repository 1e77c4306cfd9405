use vstd::prelude::*;

pub mod conv;
pub mod pipeline;
pub mod render;
pub mod value;

pub use crate::render::Template;
use crate::value::{SourceValue, Val};

verus! {

/// One assignment of each matrix variable to a value, in variable order.
pub type Environment<T> = Vec<(String, T)>;

/// The environments of a matrix, in order.
pub type ExpandedMatrix<T> = Vec<Environment<T>>;

/// Each variable's name with its list of values, in the order written.
pub type MatrixDefinition = Vec<(String, Vec<SourceValue>)>;

/// A named unit of work: its matrix, an optional filter expression, an
/// optional command template and the templates it renders.
#[derive(Debug)]
pub struct Job {
    pub matrix: MatrixDefinition,
    pub command: Option<String>,
    pub templates: Vec<Template>,
    pub filter: Option<String>,
}

/// The mathematical shape of an environment.
pub type EnvModel = Seq<(Seq<char>, Val)>;

pub open spec fn env_model(e: Environment<SourceValue>) -> EnvModel {
    Seq::new(e.len() as nat, |i: int| (e[i].0@, e[i].1.model()))
}

pub open spec fn matrix_model(m: ExpandedMatrix<SourceValue>) -> Seq<EnvModel> {
    Seq::new(m.len() as nat, |i: int| env_model(m[i]))
}

pub open spec fn values_model(v: Vec<SourceValue>) -> Seq<Val> {
    Seq::new(v.len() as nat, |i: int| v[i].model())
}

pub open spec fn def_model(d: MatrixDefinition) -> Seq<(Seq<char>, Seq<Val>)> {
    Seq::new(d.len() as nat, |i: int| (d[i].0@, values_model(d[i].1)))
}

/// `e` extended by `name` bound to each of `vals` in turn.
pub open spec fn row(e: EnvModel, name: Seq<char>, vals: Seq<Val>) -> Seq<EnvModel> {
    vals.map_values(|v: Val| e.push((name, v)))
}

/// The cross product of `base` with the values of one more variable: for each
/// environment in order, one extension per value in order.
pub open spec fn extend_spec(base: Seq<EnvModel>, name: Seq<char>, vals: Seq<Val>) -> Seq<EnvModel>
    decreases base.len(),
{
    if base.len() == 0 {
        seq![]
    } else {
        extend_spec(base.drop_last(), name, vals) + row(base.last(), name, vals)
    }
}

/// The expansion of a definition: one empty environment, extended by each
/// variable in order.
pub open spec fn expand_spec(d: Seq<(Seq<char>, Seq<Val>)>) -> Seq<EnvModel>
    decreases d.len(),
{
    if d.len() == 0 {
        seq![seq![]]
    } else {
        extend_spec(expand_spec(d.drop_last()), d.last().0, d.last().1)
    }
}

/// A copy of an environment.
pub fn copy_env(e: &Environment<SourceValue>) -> (r: Environment<SourceValue>)
    ensures
        env_model(r) == env_model(*e),
{
    let mut out: Environment<SourceValue> = Vec::new();
    let mut i: usize = 0;
    while i < e.len()
        invariant
            i <= e.len(),
            out.len() == i,
            forall|j: int|
                0 <= j < i ==> (#[trigger] out[j]).0@ == e[j].0@ && out[j].1.model()
                    == e[j].1.model(),
        decreases e.len() - i,
    {
        out.push((e[i].0.clone(), e[i].1.deep_copy()));
        i = i + 1;
    }
    assert(env_model(out) =~= env_model(*e));
    out
}

/// Every environment of `base` extended by `var_name` bound to each of `vars`.
pub fn extend(
    base: &ExpandedMatrix<SourceValue>,
    var_name: &String,
    vars: &Vec<SourceValue>,
) -> (r: ExpandedMatrix<SourceValue>)
    ensures
        matrix_model(r) == extend_spec(matrix_model(*base), var_name@, values_model(*vars)),
{
    let ghost mm = matrix_model(*base);
    let ghost vals = values_model(*vars);
    let mut out: ExpandedMatrix<SourceValue> = Vec::new();
    let mut b: usize = 0;
    assert(mm.take(0) =~= seq![]);
    while b < base.len()
        invariant
            b <= base.len(),
            mm == matrix_model(*base),
            vals == values_model(*vars),
            matrix_model(out) == extend_spec(mm.take(b as int), var_name@, vals),
        decreases base.len() - b,
    {
        let ghost prefix = matrix_model(out);
        let ghost e = mm[b as int];
        let mut j: usize = 0;
        assert(row(e, var_name@, vals.take(0)) =~= seq![]);
        assert(matrix_model(out) =~= prefix + row(e, var_name@, vals.take(0)));
        while j < vars.len()
            invariant
                b < base.len(),
                j <= vars.len(),
                mm == matrix_model(*base),
                vals == values_model(*vars),
                e == mm[b as int],
                prefix == extend_spec(mm.take(b as int), var_name@, vals),
                matrix_model(out) == prefix + row(e, var_name@, vals.take(j as int)),
            decreases vars.len() - j,
        {
            let mut env = copy_env(&base[b]);
            let v = vars[j].deep_copy();
            env.push((var_name.clone(), v));
            assert(env_model(env) =~= e.push((var_name@, vals[j as int])));
            let ghost before = matrix_model(out);
            out.push(env);
            assert(row(e, var_name@, vals.take(j + 1)) =~= row(e, var_name@, vals.take(j as int)).push(
                e.push((var_name@, vals[j as int])),
            ));
            assert(matrix_model(out) =~= before.push(env_model(env)));
            assert(matrix_model(out) =~= prefix + row(e, var_name@, vals.take(j + 1)));
            j = j + 1;
        }
        assert(vals.take(vars.len() as int) =~= vals);
        assert(mm.take(b + 1).drop_last() =~= mm.take(b as int));
        b = b + 1;
    }
    assert(mm.take(base.len() as int) =~= mm);
    out
}

/// Expands a matrix definition into the cross product of its variables'
/// values, the first variable varying slowest.
pub fn matrix(def: &MatrixDefinition) -> (r: ExpandedMatrix<SourceValue>)
    ensures
        matrix_model(r) == expand_spec(def_model(*def)),
{
    let ghost dm = def_model(*def);
    let mut elements: ExpandedMatrix<SourceValue> = Vec::new();
    let empty: Environment<SourceValue> = Vec::new();
    assert(env_model(empty) =~= seq![]);
    elements.push(empty);
    assert(dm.take(0) =~= seq![]);
    assert(matrix_model(elements) =~= seq![seq![]]);
    let mut i: usize = 0;
    while i < def.len()
        invariant
            i <= def.len(),
            dm == def_model(*def),
            matrix_model(elements) == expand_spec(dm.take(i as int)),
        decreases def.len() - i,
    {
        elements = extend(&elements, &def[i].0, &def[i].1);
        assert(dm.take(i + 1).drop_last() =~= dm.take(i as int));
        i = i + 1;
    }
    assert(dm.take(def.len() as int) =~= dm);
    elements
}

/// The product of the lengths of the value lists of `d`.
pub open spec fn product(d: Seq<(Seq<char>, Seq<Val>)>) -> nat
    decreases d.len(),
{
    if d.len() == 0 {
        1
    } else {
        product(d.drop_last()) * d.last().1.len()
    }
}

/// The variable names of an environment, in order.
pub open spec fn names(e: EnvModel) -> Seq<Seq<char>> {
    e.map_values(|p: (Seq<char>, Val)| p.0)
}

/// The variable names of a definition, in order.
pub open spec fn var_names(d: Seq<(Seq<char>, Seq<Val>)>) -> Seq<Seq<char>> {
    d.map_values(|p: (Seq<char>, Seq<Val>)| p.0)
}

proof fn lemma_extend_len(base: Seq<EnvModel>, name: Seq<char>, vals: Seq<Val>)
    ensures
        extend_spec(base, name, vals).len() == base.len() * vals.len(),
    decreases base.len(),
{
    if base.len() > 0 {
        lemma_extend_len(base.drop_last(), name, vals);
        let n = base.len() as int;
        let m = vals.len() as int;
        assert((n - 1) * m + m == n * m) by (nonlinear_arith);
    }
}

proof fn lemma_extend_names(
    base: Seq<EnvModel>,
    name: Seq<char>,
    vals: Seq<Val>,
    ns: Seq<Seq<char>>,
)
    requires
        forall|k: int| 0 <= k < base.len() ==> names(#[trigger] base[k]) == ns,
    ensures
        forall|k: int|
            0 <= k < extend_spec(base, name, vals).len() ==> names(
                #[trigger] extend_spec(base, name, vals)[k],
            ) == ns.push(name),
    decreases base.len(),
{
    if base.len() > 0 {
        let rest = base.drop_last();
        assert forall|k: int| 0 <= k < rest.len() implies names(#[trigger] rest[k]) == ns by {
            assert(rest[k] == base[k]);
        }
        lemma_extend_names(rest, name, vals, ns);
        let a = extend_spec(rest, name, vals);
        let r = row(base.last(), name, vals);
        assert(names(base[base.len() - 1]) == ns);
        assert forall|k: int|
            0 <= k < extend_spec(base, name, vals).len() implies names(
                #[trigger] extend_spec(base, name, vals)[k],
            ) == ns.push(name) by {
            if k >= a.len() {
                assert(extend_spec(base, name, vals)[k] == r[k - a.len()]);
                assert(names(r[k - a.len()]) =~= ns.push(name));
            } else {
                assert(extend_spec(base, name, vals)[k] == a[k]);
            }
        }
    }
}

proof fn lemma_product_zero(d: Seq<(Seq<char>, Seq<Val>)>, i: int)
    requires
        0 <= i < d.len(),
        d[i].1.len() == 0,
    ensures
        product(d) == 0,
    decreases d.len(),
{
    let p = product(d.drop_last()) as int;
    let m = d.last().1.len() as int;
    if i < d.len() - 1 {
        lemma_product_zero(d.drop_last(), i);
        assert(p * m == 0) by (nonlinear_arith)
            requires
                p == 0,
        ;
    } else {
        assert(p * m == 0) by (nonlinear_arith)
            requires
                m == 0,
        ;
    }
}

/// The expansion has as many environments as the product of the lengths of
/// the value lists: one for an empty definition, none where a list is empty.
pub proof fn law_expansion_size(d: Seq<(Seq<char>, Seq<Val>)>)
    ensures
        expand_spec(d).len() == product(d),
        d.len() == 0 ==> expand_spec(d).len() == 1,
        (exists|i: int| 0 <= i < d.len() && (#[trigger] d[i]).1.len() == 0) ==> expand_spec(d).len()
            == 0,
    decreases d.len(),
{
    if d.len() > 0 {
        law_expansion_size(d.drop_last());
        lemma_extend_len(expand_spec(d.drop_last()), d.last().0, d.last().1);
    }
    if exists|i: int| 0 <= i < d.len() && (#[trigger] d[i]).1.len() == 0 {
        let i = choose|i: int| 0 <= i < d.len() && (#[trigger] d[i]).1.len() == 0;
        lemma_product_zero(d, i);
    }
}

/// Every environment of the expansion binds exactly the definition's
/// variables, in the definition's order.
pub proof fn law_expansion_names(d: Seq<(Seq<char>, Seq<Val>)>)
    ensures
        forall|k: int|
            0 <= k < expand_spec(d).len() ==> names(#[trigger] expand_spec(d)[k]) == var_names(d),
    decreases d.len(),
{
    if d.len() == 0 {
        assert(names(seq![]) =~= var_names(d));
    } else {
        let rest = d.drop_last();
        law_expansion_names(rest);
        lemma_extend_names(expand_spec(rest), d.last().0, d.last().1, var_names(rest));
        assert(var_names(rest).push(d.last().0) =~= var_names(d));
    }
}

} // verus!
