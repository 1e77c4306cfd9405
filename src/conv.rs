use vstd::prelude::*;

use crate::value::{Number, SourceValue, Val};

verus! {

/// Why a source tree could not be converted.
#[derive(Clone, Copy, PartialEq, Eq, Debug, Structural)]
pub enum ConvError {
    /// A number that the target cannot represent.
    InvalidNumber,
    /// A mapping key that is not a string.
    NonStringKey,
    /// A tagged node.
    UnsupportedTag,
}

/// The two target representations.
#[derive(Clone, Copy, PartialEq, Eq, Debug, Structural)]
pub enum Target {
    Json,
    Template,
}

/// A JSON tree; `Number` is the JSON number with the same three kinds.
#[derive(Debug)]
pub enum JsonValue {
    Null,
    Bool(bool),
    Number(Number),
    String(String),
    Array(Vec<JsonValue>),
    Object(Vec<(String, JsonValue)>),
}

/// A value tree of the template engine: its scalars are booleans, 64-bit
/// signed integers, floats (kept as their bit pattern) and strings.
#[derive(Debug)]
pub enum TemplateValue {
    Nil,
    Bool(bool),
    Integer(i64),
    Float(u64),
    Str(String),
    Array(Vec<TemplateValue>),
    Object(Vec<(String, TemplateValue)>),
}

/// The float with these bits is neither infinite nor NaN.
pub open spec fn float_bits_finite(bits: u64) -> bool {
    (bits >> 52u64) & 0x7ffu64 != 0x7ffu64
}

/// Whether target `t` can represent the number `n`. A JSON number must be
/// finite; a template integer must fit in 64 signed bits.
pub open spec fn number_ok(t: Target, n: Number) -> bool {
    match t {
        Target::Json => match n {
            Number::Float(b) => float_bits_finite(b),
            _ => true,
        },
        Target::Template => match n {
            Number::PosInt(u) => u <= i64::MAX,
            _ => true,
        },
    }
}

/// The JSON number that a representable source number becomes: unsigned
/// first, then signed, then float.
pub open spec fn json_number(n: Number) -> Number {
    match n {
        Number::PosInt(u) => Number::PosInt(u),
        Number::NegInt(i) => if i < 0 {
            Number::NegInt(i)
        } else {
            Number::PosInt(i as u64)
        },
        Number::Float(b) => Number::Float(b),
    }
}

/// The template scalar that a representable source number becomes.
pub open spec fn template_number(n: Number) -> TemplateValue {
    match n {
        Number::PosInt(u) => TemplateValue::Integer(u as i64),
        Number::NegInt(i) => TemplateValue::Integer(i),
        Number::Float(b) => TemplateValue::Float(b),
    }
}

/// Whether `v` converts to target `t`: every number representable, every
/// mapping key a string, no tag anywhere.
pub open spec fn convertible(t: Target, v: Val) -> bool
    decreases v,
{
    match v {
        Val::Num(n) => number_ok(t, n),
        Val::List(s) => forall|i: int| 0 <= i < s.len() ==> convertible(t, #[trigger] s[i]),
        Val::Dict(m) => forall|i: int|
            0 <= i < m.len() ==> (#[trigger] m[i]).0 is Str && convertible(t, m[i].1),
        Val::Tagged => false,
        _ => true,
    }
}

/// Entry `p` of a mapping converts: its key is a string and its value
/// converts.
pub open spec fn entry_ok(t: Target, p: (Val, Val)) -> bool {
    p.0 is Str && convertible(t, p.1)
}

/// Element `i` of `s` is the first that does not convert.
pub open spec fn first_bad_item(t: Target, s: Seq<Val>, i: int) -> bool {
    &&& 0 <= i < s.len()
    &&& !convertible(t, s[i])
    &&& forall|j: int| 0 <= j < i ==> convertible(t, #[trigger] s[j])
}

/// Entry `i` of `m` is the first that does not convert.
pub open spec fn first_bad_entry(t: Target, m: Seq<(Val, Val)>, i: int) -> bool {
    &&& 0 <= i < m.len()
    &&& !entry_ok(t, m[i])
    &&& forall|j: int| 0 <= j < i ==> entry_ok(t, #[trigger] m[j])
}

/// The error that converting `v` to target `t` stops at: the first failing
/// node in document order. For JSON an entry's value is converted before its
/// key is checked; for templates the key is checked first.
pub open spec fn first_error(t: Target, v: Val) -> Option<ConvError>
    decreases v,
{
    match v {
        Val::Num(n) => if number_ok(t, n) {
            None
        } else {
            Some(ConvError::InvalidNumber)
        },
        Val::List(s) => if exists|i: int| first_bad_item(t, s, i) {
            let i = choose|i: int| first_bad_item(t, s, i);
            first_error(t, s[i])
        } else {
            None
        },
        Val::Dict(m) => if exists|i: int| first_bad_entry(t, m, i) {
            let i = choose|i: int| first_bad_entry(t, m, i);
            if t == Target::Json {
                if !convertible(t, m[i].1) {
                    first_error(t, m[i].1)
                } else {
                    Some(ConvError::NonStringKey)
                }
            } else {
                if m[i].0 !is Str {
                    Some(ConvError::NonStringKey)
                } else {
                    first_error(t, m[i].1)
                }
            }
        } else {
            None
        },
        Val::Tagged => Some(ConvError::UnsupportedTag),
        _ => None,
    }
}

proof fn lemma_first_bad_item_unique(t: Target, s: Seq<Val>, i: int, k: int)
    requires
        first_bad_item(t, s, i),
        first_bad_item(t, s, k),
    ensures
        i == k,
{
    if k < i {
        assert(convertible(t, s[k]));
    }
    if i < k {
        assert(convertible(t, s[i]));
    }
}

proof fn lemma_first_bad_entry_unique(t: Target, m: Seq<(Val, Val)>, i: int, k: int)
    requires
        first_bad_entry(t, m, i),
        first_bad_entry(t, m, k),
    ensures
        i == k,
{
    if k < i {
        assert(entry_ok(t, m[k]));
    }
    if i < k {
        assert(entry_ok(t, m[i]));
    }
}

/// `j` is the JSON tree that `v` converts to.
pub open spec fn json_rel(v: Val, j: JsonValue) -> bool
    decreases v,
{
    match v {
        Val::Null => j is Null,
        Val::Bool(b) => j == JsonValue::Bool(b),
        Val::Num(n) => j == JsonValue::Number(json_number(n)),
        Val::Str(s) => j is String && j->String_0@ == s,
        Val::List(s) => j is Array && j->Array_0.len() == s.len() && forall|i: int|
            0 <= i < s.len() ==> json_rel(#[trigger] s[i], j->Array_0[i]),
        Val::Dict(m) => j is Object && j->Object_0.len() == m.len() && forall|i: int|
            0 <= i < m.len() ==> (#[trigger] m[i]).0 is Str && j->Object_0[i].0@ == m[i].0->Str_0
                && json_rel(m[i].1, j->Object_0[i].1),
        Val::Tagged => false,
    }
}

/// `r` is the template tree that `v` converts to.
pub open spec fn template_rel(v: Val, r: TemplateValue) -> bool
    decreases v,
{
    match v {
        Val::Null => r is Nil,
        Val::Bool(b) => r == TemplateValue::Bool(b),
        Val::Num(n) => r == template_number(n),
        Val::Str(s) => r is Str && r->Str_0@ == s,
        Val::List(s) => r is Array && r->Array_0.len() == s.len() && forall|i: int|
            0 <= i < s.len() ==> template_rel(#[trigger] s[i], r->Array_0[i]),
        Val::Dict(m) => r is Object && r->Object_0.len() == m.len() && forall|i: int|
            0 <= i < m.len() ==> (#[trigger] m[i]).0 is Str && r->Object_0[i].0@ == m[i].0->Str_0
                && template_rel(m[i].1, r->Object_0[i].1),
        Val::Tagged => false,
    }
}

/// Relies on liquid::model::to_scalar: an unsigned integer becomes an
/// integer scalar when it fits in `i64` and is refused otherwise.
#[verifier::external_body]
fn scalar_of_u64(n: u64) -> (r: Option<i64>)
    ensures
        r == (if n <= i64::MAX as u64 {
            Some(n as i64)
        } else {
            None
        }),
{
    liquid::model::to_scalar(&n).ok().and_then(|s| s.to_integer())
}

fn is_finite_bits(bits: u64) -> (r: bool)
    ensures
        r == float_bits_finite(bits),
{
    (bits >> 52u64) & 0x7ffu64 != 0x7ffu64
}

/// Converts a source tree into a JSON tree.
#[verifier::loop_isolation(false)]
pub fn to_json_model(value: &SourceValue) -> (r: Result<JsonValue, ConvError>)
    ensures
        r is Ok <==> convertible(Target::Json, value.model()),
        r matches Ok(j) ==> json_rel(value.model(), j),
        r matches Err(e) ==> first_error(Target::Json, value.model()) == Some(e),
    decreases value,
{
    match value {
        SourceValue::Null => Ok(JsonValue::Null),
        SourceValue::Bool(b) => Ok(JsonValue::Bool(*b)),
        SourceValue::Number(n) => match n {
            Number::PosInt(u) => Ok(JsonValue::Number(Number::PosInt(*u))),
            Number::NegInt(i) => if *i < 0 {
                Ok(JsonValue::Number(Number::NegInt(*i)))
            } else {
                Ok(JsonValue::Number(Number::PosInt(*i as u64)))
            },
            Number::Float(b) => if is_finite_bits(*b) {
                Ok(JsonValue::Number(Number::Float(*b)))
            } else {
                Err(ConvError::InvalidNumber)
            },
        },
        SourceValue::String(s) => Ok(JsonValue::String(s.clone())),
        SourceValue::Sequence(v) => {
            let ghost s = value.model()->List_0;
            let mut out: Vec<JsonValue> = Vec::new();
            let mut i: usize = 0;
            while i < v.len()
                invariant
                    i <= v.len(),
                    out.len() == i,
                    s.len() == v.len(),
                    forall|j: int| 0 <= j < v.len() ==> #[trigger] s[j] == v[j].model(),
                    forall|j: int|
                        0 <= j < i ==> convertible(Target::Json, #[trigger] s[j]) && json_rel(
                            s[j],
                            out[j],
                        ),
                decreases v.len() - i,
            {
                match to_json_model(&v[i]) {
                    Ok(j) => out.push(j),
                    Err(e) => {
                        proof {
                            assert(first_bad_item(Target::Json, s, i as int));
                            let k = choose|k: int| first_bad_item(Target::Json, s, k);
                            lemma_first_bad_item_unique(Target::Json, s, i as int, k);
                        }
                        return Err(e);
                    },
                }
                i = i + 1;
            }
            Ok(JsonValue::Array(out))
        },
        SourceValue::Mapping(m) => {
            let ghost d = value.model()->Dict_0;
            let mut out: Vec<(String, JsonValue)> = Vec::new();
            let mut i: usize = 0;
            while i < m.len()
                invariant
                    i <= m.len(),
                    out.len() == i,
                    d.len() == m.len(),
                    forall|j: int|
                        0 <= j < m.len() ==> #[trigger] d[j] == (m[j].0.model(), m[j].1.model()),
                    forall|j: int|
                        0 <= j < i ==> (#[trigger] d[j]).0 is Str && out[j].0@ == d[j].0->Str_0
                            && convertible(Target::Json, d[j].1) && json_rel(d[j].1, out[j].1),
                decreases m.len() - i,
            {
                let conv = to_json_model(&m[i].1);
                match conv {
                    Ok(j) => match &m[i].0 {
                        SourceValue::String(k) => out.push((k.clone(), j)),
                        _ => {
                            proof {
                                assert(first_bad_entry(Target::Json, d, i as int));
                                let k = choose|k: int| first_bad_entry(Target::Json, d, k);
                                lemma_first_bad_entry_unique(Target::Json, d, i as int, k);
                            }
                            return Err(ConvError::NonStringKey);
                        },
                    },
                    Err(e) => {
                        proof {
                            assert(first_bad_entry(Target::Json, d, i as int));
                            let k = choose|k: int| first_bad_entry(Target::Json, d, k);
                            lemma_first_bad_entry_unique(Target::Json, d, i as int, k);
                        }
                        return Err(e);
                    },
                }
                i = i + 1;
            }
            Ok(JsonValue::Object(out))
        },
        SourceValue::Tagged => Err(ConvError::UnsupportedTag),
    }
}

/// Converts a source tree into a template-engine value tree.
#[verifier::loop_isolation(false)]
pub fn to_liquid_model(value: &SourceValue) -> (r: Result<TemplateValue, ConvError>)
    ensures
        r is Ok <==> convertible(Target::Template, value.model()),
        r matches Ok(t) ==> template_rel(value.model(), t),
        r matches Err(e) ==> first_error(Target::Template, value.model()) == Some(e),
    decreases value,
{
    match value {
        SourceValue::Null => Ok(TemplateValue::Nil),
        SourceValue::Bool(b) => Ok(TemplateValue::Bool(*b)),
        SourceValue::Number(n) => match n {
            Number::PosInt(u) => match scalar_of_u64(*u) {
                Some(i) => Ok(TemplateValue::Integer(i)),
                None => Err(ConvError::InvalidNumber),
            },
            Number::NegInt(i) => Ok(TemplateValue::Integer(*i)),
            Number::Float(b) => Ok(TemplateValue::Float(*b)),
        },
        SourceValue::String(s) => Ok(TemplateValue::Str(s.clone())),
        SourceValue::Sequence(v) => {
            let ghost s = value.model()->List_0;
            let mut out: Vec<TemplateValue> = Vec::new();
            let mut i: usize = 0;
            while i < v.len()
                invariant
                    i <= v.len(),
                    out.len() == i,
                    s.len() == v.len(),
                    forall|j: int| 0 <= j < v.len() ==> #[trigger] s[j] == v[j].model(),
                    forall|j: int|
                        0 <= j < i ==> convertible(Target::Template, #[trigger] s[j])
                            && template_rel(s[j], out[j]),
                decreases v.len() - i,
            {
                match to_liquid_model(&v[i]) {
                    Ok(t) => out.push(t),
                    Err(e) => {
                        proof {
                            assert(first_bad_item(Target::Template, s, i as int));
                            let k = choose|k: int| first_bad_item(Target::Template, s, k);
                            lemma_first_bad_item_unique(Target::Template, s, i as int, k);
                        }
                        return Err(e);
                    },
                }
                i = i + 1;
            }
            Ok(TemplateValue::Array(out))
        },
        SourceValue::Mapping(m) => {
            let ghost d = value.model()->Dict_0;
            let mut out: Vec<(String, TemplateValue)> = Vec::new();
            let mut i: usize = 0;
            while i < m.len()
                invariant
                    i <= m.len(),
                    out.len() == i,
                    d.len() == m.len(),
                    forall|j: int|
                        0 <= j < m.len() ==> #[trigger] d[j] == (m[j].0.model(), m[j].1.model()),
                    forall|j: int|
                        0 <= j < i ==> (#[trigger] d[j]).0 is Str && out[j].0@ == d[j].0->Str_0
                            && convertible(Target::Template, d[j].1) && template_rel(
                            d[j].1,
                            out[j].1,
                        ),
                decreases m.len() - i,
            {
                match &m[i].0 {
                    SourceValue::String(k) => match to_liquid_model(&m[i].1) {
                        Ok(t) => out.push((k.clone(), t)),
                        Err(e) => {
                            proof {
                                assert(first_bad_entry(Target::Template, d, i as int));
                                let k = choose|k: int| first_bad_entry(Target::Template, d, k);
                                lemma_first_bad_entry_unique(Target::Template, d, i as int, k);
                            }
                            return Err(e);
                        },
                    },
                    _ => {
                        proof {
                            assert(first_bad_entry(Target::Template, d, i as int));
                            let k = choose|k: int| first_bad_entry(Target::Template, d, k);
                            lemma_first_bad_entry_unique(Target::Template, d, i as int, k);
                        }
                        return Err(ConvError::NonStringKey);
                    },
                }
                i = i + 1;
            }
            Ok(TemplateValue::Object(out))
        },
        SourceValue::Tagged => Err(ConvError::UnsupportedTag),
    }
}

/// `v` is built only from null, booleans, strings, lists, string-keyed
/// mappings and numbers that both targets can represent.
pub open spec fn plain(v: Val) -> bool
    decreases v,
{
    match v {
        Val::Num(n) => number_ok(Target::Json, n) && number_ok(Target::Template, n),
        Val::List(s) => forall|i: int| 0 <= i < s.len() ==> plain(#[trigger] s[i]),
        Val::Dict(m) => forall|i: int|
            0 <= i < m.len() ==> (#[trigger] m[i]).0 is Str && plain(m[i].1),
        Val::Tagged => false,
        _ => true,
    }
}

/// `v` holds a tagged node or a mapping with a key that is not a string.
pub open spec fn structural_fault(v: Val) -> bool
    decreases v,
{
    match v {
        Val::List(s) => exists|i: int| 0 <= i < s.len() && structural_fault(#[trigger] s[i]),
        Val::Dict(m) => exists|i: int|
            0 <= i < m.len() && ((#[trigger] m[i]).0 !is Str || structural_fault(m[i].1)),
        Val::Tagged => true,
        _ => false,
    }
}

/// Conversion succeeds, for either target, on every tree built only from
/// null, booleans, representable numbers, strings, lists and string-keyed
/// mappings.
pub proof fn law_convert_total(t: Target, v: Val)
    requires
        plain(v),
    ensures
        convertible(t, v),
    decreases v,
{
    match v {
        Val::List(s) => {
            assert forall|i: int| 0 <= i < s.len() implies convertible(t, #[trigger] s[i]) by {
                law_convert_total(t, s[i]);
            }
        },
        Val::Dict(m) => {
            assert forall|i: int| 0 <= i < m.len() implies (#[trigger] m[i]).0 is Str && convertible(
                t,
                m[i].1,
            ) by {
                law_convert_total(t, m[i].1);
            }
        },
        _ => {},
    }
}

/// Conversion fails, for either target, on every tree that holds a tagged
/// node or a mapping with a non-string key.
pub proof fn law_convert_rejects(t: Target, v: Val)
    requires
        structural_fault(v),
    ensures
        !convertible(t, v),
    decreases v,
{
    match v {
        Val::List(s) => {
            let i = choose|i: int| 0 <= i < s.len() && structural_fault(#[trigger] s[i]);
            law_convert_rejects(t, s[i]);
        },
        Val::Dict(m) => {
            let i = choose|i: int|
                0 <= i < m.len() && ((#[trigger] m[i]).0 !is Str || structural_fault(m[i].1));
            if m[i].0 is Str {
                law_convert_rejects(t, m[i].1);
            }
        },
        _ => {},
    }
}

/// The integer that a number denotes, if it is an integer.
pub open spec fn integer_of(n: Number) -> Option<int> {
    match n {
        Number::PosInt(u) => Some(u as int),
        Number::NegInt(i) => Some(i as int),
        Number::Float(_) => None,
    }
}

/// The JSON tree of a scalar keeps it exactly: null, a boolean, a string,
/// an integer's value, a float's bits.
pub proof fn law_json_keeps_scalars(v: Val, j: JsonValue)
    requires
        json_rel(v, j),
    ensures
        v is Null ==> j is Null,
        v matches Val::Bool(b) ==> j == JsonValue::Bool(b),
        v matches Val::Str(s) ==> j is String && j->String_0@ == s,
        v matches Val::Num(n) ==> j is Number && integer_of(j->Number_0) == integer_of(n),
        v matches Val::Num(Number::Float(b)) ==> j == JsonValue::Number(Number::Float(b)),
{
}

/// The template tree of a scalar keeps it exactly: null, a boolean, a
/// string, an integer's value, a float's bits.
pub proof fn law_template_keeps_scalars(v: Val, r: TemplateValue)
    requires
        template_rel(v, r),
        convertible(Target::Template, v),
    ensures
        v is Null ==> r is Nil,
        v matches Val::Bool(b) ==> r == TemplateValue::Bool(b),
        v matches Val::Str(s) ==> r is Str && r->Str_0@ == s,
        v matches Val::Num(n) ==> (integer_of(n) matches Some(x) ==> r is Integer && r->Integer_0
            == x),
        v matches Val::Num(Number::Float(b)) ==> r == TemplateValue::Float(b),
{
}

} // verus!
