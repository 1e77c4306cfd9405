use vstd::prelude::*;

verus! {

/// A number as a YAML document holds it: a non-negative integer, a negative
/// integer, or a floating-point value kept as its IEEE-754 bit pattern.
#[derive(Clone, Copy, PartialEq, Eq, Debug, Structural)]
pub enum Number {
    PosInt(u64),
    NegInt(i64),
    Float(u64),
}

/// A node of the dynamically typed source tree.
#[derive(Debug)]
pub enum SourceValue {
    Null,
    Bool(bool),
    Number(Number),
    String(String),
    Sequence(Vec<SourceValue>),
    Mapping(Vec<(SourceValue, SourceValue)>),
    /// A node carrying an explicit tag; its content is never read.
    Tagged,
}

/// The mathematical shape of a `SourceValue`.
pub enum Val {
    Null,
    Bool(bool),
    Num(Number),
    Str(Seq<char>),
    List(Seq<Val>),
    Dict(Seq<(Val, Val)>),
    Tagged,
}

impl SourceValue {
    pub open spec fn model(&self) -> Val
        decreases self,
    {
        match self {
            SourceValue::Null => Val::Null,
            SourceValue::Bool(b) => Val::Bool(*b),
            SourceValue::Number(n) => Val::Num(*n),
            SourceValue::String(s) => Val::Str(s@),
            SourceValue::Sequence(v) => Val::List(
                Seq::new(
                    v.len() as nat,
                    |i: int|
                        if 0 <= i < v.len() {
                            v[i].model()
                        } else {
                            Val::Null
                        },
                ),
            ),
            SourceValue::Mapping(m) => Val::Dict(
                Seq::new(
                    m.len() as nat,
                    |i: int|
                        if 0 <= i < m.len() {
                            (m[i].0.model(), m[i].1.model())
                        } else {
                            (Val::Null, Val::Null)
                        },
                ),
            ),
            SourceValue::Tagged => Val::Tagged,
        }
    }

    /// A copy of the whole tree.
    #[verifier::loop_isolation(false)]
    pub fn deep_copy(&self) -> (r: SourceValue)
        ensures
            r.model() == self.model(),
        decreases self,
    {
        match self {
            SourceValue::Null => SourceValue::Null,
            SourceValue::Bool(b) => SourceValue::Bool(*b),
            SourceValue::Number(n) => SourceValue::Number(*n),
            SourceValue::String(s) => SourceValue::String(s.clone()),
            SourceValue::Sequence(v) => {
                let mut out: Vec<SourceValue> = Vec::new();
                let mut i: usize = 0;
                while i < v.len()
                    invariant
                        i <= v.len(),
                        out.len() == i,
                        forall|j: int| 0 <= j < i ==> (#[trigger] out[j]).model() == v[j].model(),
                    decreases v.len() - i,
                {
                    let c = v[i].deep_copy();
                    out.push(c);
                    i = i + 1;
                }
                let r = SourceValue::Sequence(out);
                assert(r.model()->List_0 =~= self.model()->List_0);
                r
            },
            SourceValue::Mapping(m) => {
                let mut out: Vec<(SourceValue, SourceValue)> = Vec::new();
                let mut i: usize = 0;
                while i < m.len()
                    invariant
                        i <= m.len(),
                        out.len() == i,
                        forall|j: int|
                            0 <= j < i ==> (#[trigger] out[j]).0.model() == m[j].0.model()
                                && out[j].1.model() == m[j].1.model(),
                    decreases m.len() - i,
                {
                    let k = m[i].0.deep_copy();
                    let v = m[i].1.deep_copy();
                    out.push((k, v));
                    i = i + 1;
                }
                let r = SourceValue::Mapping(out);
                assert(r.model()->Dict_0 =~= self.model()->Dict_0);
                r
            },
            SourceValue::Tagged => SourceValue::Tagged,
        }
    }
}

} // verus!
