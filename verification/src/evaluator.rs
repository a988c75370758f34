//! The binder.
//!
//! A binding target describes a record: an optional section name and an
//! ordered list of fields, each with a name and an expected shape. Binding
//! walks the fields, looks each name up in the store (case-insensitively),
//! and coerces the stored value into the field's shape. Unmatched fields are
//! left to their defaults; unknown store keys are ignored.
use vstd::prelude::*;

use crate::number::{
    decimal_fits, decimal_num, decimal_shape, parse_decimal_range, spec_render, Num, NumV,
};
use crate::unicode::{lowercase_of, to_lowercase};
use crate::value::{Store, Value, ValueV};

verus! {

/// The shape a record field expects.
#[derive(Debug, PartialEq)]
pub enum FieldType {
    Number,
    Text,
    List(Box<FieldType>),
}

/// One field of a binding target: its name and expected shape.
#[derive(Debug, PartialEq)]
pub struct FieldDesc {
    pub name: String,
    pub ty: FieldType,
}

/// A binding target: `None` for the top-level record, or the section name
/// whose object the fields are matched against.
#[derive(Debug, PartialEq)]
pub struct Target {
    pub section: Option<String>,
    pub fields: Vec<FieldDesc>,
}

/// A value coerced into a field's shape.
#[derive(Debug, PartialEq)]
pub enum BoundValue {
    Number(Num),
    Text(String),
    List(Vec<BoundValue>),
}

/// The mathematical content of a bound value.
pub enum BoundV {
    Number(NumV),
    Text(Seq<char>),
    List(Seq<BoundV>),
}

pub open spec fn bound_model(b: BoundValue) -> BoundV
    decreases b,
{
    match b {
        BoundValue::Number(n) => BoundV::Number(n@),
        BoundValue::Text(s) => BoundV::Text(s@),
        BoundValue::List(items) => BoundV::List(bound_list_model(items@)),
    }
}

pub open spec fn bound_list_model(s: Seq<BoundValue>) -> Seq<BoundV>
    decreases s,
{
    if s.len() == 0 {
        Seq::empty()
    } else {
        bound_list_model(s.drop_last()).push(bound_model(s.last()))
    }
}

impl View for BoundValue {
    type V = BoundV;

    open spec fn view(&self) -> BoundV {
        bound_model(*self)
    }
}

/// The fields bound, in field order: `None` where the store offers nothing.
pub open spec fn bound_opts_model(v: Seq<Option<BoundValue>>) -> Seq<Option<BoundV>> {
    Seq::new(
        v.len(),
        |i: int|
            match v[i] {
                Some(b) => Some(bound_model(b)),
                None => None,
            },
    )
}

/// Why one value refused one field's shape.
#[derive(Debug, PartialEq, Eq, Structural, Clone, Copy)]
pub enum CoerceIssue {
    /// A text that does not read as a decimal number.
    BadNumber,
    /// A value of the wrong kind for the field.
    Mismatch,
}

/// Why binding failed.
#[derive(Debug, PartialEq)]
pub enum EvalError {
    /// The named section is present in the store but is not an object.
    BindingShape { name: String },
    /// A text could not be read as a number for the named field.
    NumberFormat { field: String },
    /// The stored value's kind cannot fit the named field's shape.
    FieldTypeMismatch { field: String },
}

/// The mathematical content of a binding error.
pub enum EvalErrV {
    BindingShape { name: Seq<char> },
    NumberFormat { field: Seq<char> },
    FieldTypeMismatch { field: Seq<char> },
}

impl View for EvalError {
    type V = EvalErrV;

    open spec fn view(&self) -> EvalErrV {
        match self {
            EvalError::BindingShape { name } => EvalErrV::BindingShape { name: name@ },
            EvalError::NumberFormat { field } => EvalErrV::NumberFormat { field: field@ },
            EvalError::FieldTypeMismatch { field } => EvalErrV::FieldTypeMismatch {
                field: field@,
            },
        }
    }
}

/// How a stored value fits a field's shape: numbers and texts convert into
/// one another, lists convert element by element in source order.
pub open spec fn spec_coerce(v: ValueV, ty: FieldType) -> Result<BoundV, CoerceIssue>
    decreases ty, 0int,
{
    match ty {
        FieldType::Number => match v {
            ValueV::Number(n) => Ok(BoundV::Number(n)),
            ValueV::Text(s) => if decimal_shape(s) && decimal_fits(s) {
                Ok(BoundV::Number(decimal_num(s)))
            } else {
                Err(CoerceIssue::BadNumber)
            },
            _ => Err(CoerceIssue::Mismatch),
        },
        FieldType::Text => match v {
            ValueV::Text(s) => Ok(BoundV::Text(s)),
            ValueV::Number(n) => Ok(BoundV::Text(spec_render(n))),
            _ => Err(CoerceIssue::Mismatch),
        },
        FieldType::List(t) => match v {
            ValueV::List(items) => match spec_coerce_list(items, *t) {
                Ok(bs) => Ok(BoundV::List(bs)),
                Err(e) => Err(e),
            },
            _ => Err(CoerceIssue::Mismatch),
        },
    }
}

pub open spec fn spec_coerce_list(items: Seq<ValueV>, t: FieldType) -> Result<
    Seq<BoundV>,
    CoerceIssue,
>
    decreases t, items.len(),
{
    if items.len() == 0 {
        Ok(Seq::empty())
    } else {
        match spec_coerce_list(items.drop_last(), t) {
            Ok(bs) => match spec_coerce(items.last(), t) {
                Ok(b) => Ok(bs.push(b)),
                Err(e) => Err(e),
            },
            Err(e) => Err(e),
        }
    }
}

/// What binding the fields against a mapping yields: for each field in
/// order, the coerced value under its normalized name, or `None` where the
/// mapping has no such key; the first coercion failure names its field.
pub open spec fn spec_bind_fields(m: Map<Seq<char>, ValueV>, fs: Seq<FieldDesc>) -> Result<
    Seq<Option<BoundV>>,
    EvalErrV,
>
    decreases fs.len(),
{
    if fs.len() == 0 {
        Ok(Seq::empty())
    } else {
        match spec_bind_fields(m, fs.drop_last()) {
            Ok(bs) => {
                let f = fs.last();
                let key = lowercase_of(f.name@);
                if m.contains_key(key) {
                    match spec_coerce(m[key], f.ty) {
                        Ok(b) => Ok(bs.push(Some(b))),
                        Err(CoerceIssue::BadNumber) => Err(
                            EvalErrV::NumberFormat { field: f.name@ },
                        ),
                        Err(CoerceIssue::Mismatch) => Err(
                            EvalErrV::FieldTypeMismatch { field: f.name@ },
                        ),
                    }
                } else {
                    Ok(bs.push(None))
                }
            },
            Err(e) => Err(e),
        }
    }
}

/// What binding a target against a store yields. A top-level target reads
/// the store itself; a named target reads the object under its section
/// name, every field defaulting when the section is absent.
pub open spec fn spec_bind(m: Map<Seq<char>, ValueV>, target: Target) -> Result<
    Seq<Option<BoundV>>,
    EvalErrV,
> {
    match target.section {
        None => spec_bind_fields(m, target.fields@),
        Some(sec) => {
            let key = lowercase_of(sec@);
            if !m.contains_key(key) {
                Ok(Seq::new(target.fields@.len(), |i: int| None))
            } else if m[key] is Object {
                spec_bind_fields(m[key]->Object_0, target.fields@)
            } else {
                Err(EvalErrV::BindingShape { name: sec@ })
            }
        },
    }
}

/// A coercion error of an early element decides the whole list.
proof fn lemma_coerce_list_err(items: Seq<ValueV>, t: FieldType, i: int)
    requires
        0 <= i <= items.len(),
        spec_coerce_list(items.subrange(0, i), t) is Err,
    ensures
        spec_coerce_list(items, t) == spec_coerce_list(items.subrange(0, i), t),
    decreases items.len() - i,
{
    if i < items.len() {
        let pre1 = items.subrange(0, i + 1);
        assert(pre1.drop_last() =~= items.subrange(0, i));
        lemma_coerce_list_err(items, t, i + 1);
    } else {
        assert(items.subrange(0, i) =~= items);
    }
}

/// A binding error of an early field decides the whole target.
proof fn lemma_bind_fields_err(m: Map<Seq<char>, ValueV>, fs: Seq<FieldDesc>, i: int)
    requires
        0 <= i <= fs.len(),
        spec_bind_fields(m, fs.subrange(0, i)) is Err,
    ensures
        spec_bind_fields(m, fs) == spec_bind_fields(m, fs.subrange(0, i)),
    decreases fs.len() - i,
{
    if i < fs.len() {
        let pre1 = fs.subrange(0, i + 1);
        assert(pre1.drop_last() =~= fs.subrange(0, i));
        lemma_bind_fields_err(m, fs, i + 1);
    } else {
        assert(fs.subrange(0, i) =~= fs);
    }
}

/// Coerces one value into one field shape.
#[verifier::loop_isolation(false)]
fn coerce_value(v: &Value, ty: &FieldType) -> (r: Result<BoundValue, CoerceIssue>)
    ensures
        r is Ok <==> spec_coerce(v@, *ty) is Ok,
        r matches Ok(b) ==> spec_coerce(v@, *ty) == Ok::<BoundV, CoerceIssue>(b@),
        r matches Err(e) ==> spec_coerce(v@, *ty) == Err::<BoundV, CoerceIssue>(e),
    decreases *ty,
{
    match ty {
        FieldType::Number => match v {
            Value::Number(n) => Ok(BoundValue::Number(*n)),
            Value::Text(s) => {
                let len = s.as_str().unicode_len();
                proof {
                    assert(s@.subrange(0, s@.len() as int) =~= s@);
                }
                match parse_decimal_range(s.as_str(), 0, len) {
                    Ok(num) => Ok(BoundValue::Number(num)),
                    Err(_) => Err(CoerceIssue::BadNumber),
                }
            },
            _ => Err(CoerceIssue::Mismatch),
        },
        FieldType::Text => match v {
            Value::Text(s) => Ok(BoundValue::Text(s.clone())),
            Value::Number(n) => Ok(BoundValue::Text(n.to_text())),
            _ => Err(CoerceIssue::Mismatch),
        },
        FieldType::List(t) => match v {
            Value::List(items) => {
                let ghost iv = crate::value::list_model(items@);
                proof {
                    crate::value::lemma_list_model(items@);
                }
                let mut out: Vec<BoundValue> = Vec::new();
                let mut i: usize = 0;
                while i < items.len()
                    invariant
                        i <= items@.len(),
                        out@.len() == i,
                        spec_coerce_list(iv.subrange(0, i as int), **t) == Ok::<
                            Seq<BoundV>,
                            CoerceIssue,
                        >(bound_list_model(out@)),
                    decreases items@.len() - i,
                {
                    let ghost pre = iv.subrange(0, i as int);
                    let ghost pre1 = iv.subrange(0, i + 1);
                    proof {
                        assert(pre1.drop_last() =~= pre);
                        assert(pre1.last() == crate::value::value_model(items@[i as int]));
                    }
                    match coerce_value(&items[i], t) {
                        Ok(b) => {
                            proof {
                                assert(out@.push(b).drop_last() =~= out@);
                                assert(out@.push(b).last() == b);
                            }
                            out.push(b);
                        },
                        Err(e) => {
                            proof {
                                lemma_coerce_list_err(iv, **t, i + 1);
                            }
                            return Err(e);
                        },
                    }
                    i = i + 1;
                }
                proof {
                    assert(iv.subrange(0, iv.len() as int) =~= iv);
                }
                Ok(BoundValue::List(out))
            },
            _ => Err(CoerceIssue::Mismatch),
        },
    }
}

/// Binds the fields, in order, against one mapping.
#[verifier::loop_isolation(false)]
fn bind_fields(st: &Store, fields: &Vec<FieldDesc>) -> (r: Result<
    Vec<Option<BoundValue>>,
    EvalError,
>)
    requires
        st.wf(),
    ensures
        r is Ok <==> spec_bind_fields(st@, fields@) is Ok,
        r matches Ok(v) ==> (spec_bind_fields(st@, fields@) matches Ok(bs) && bound_opts_model(v@)
            == bs),
        r matches Err(e) ==> (spec_bind_fields(st@, fields@) matches Err(se) && e@ == se),
{
    let mut out: Vec<Option<BoundValue>> = Vec::new();
    let mut i: usize = 0;
    proof {
        assert(fields@.subrange(0, 0) =~= Seq::<FieldDesc>::empty());
        assert(bound_opts_model(out@) =~= Seq::<Option<BoundV>>::empty());
    }
    while i < fields.len()
        invariant
            i <= fields@.len(),
            out@.len() == i,
            spec_bind_fields(st@, fields@.subrange(0, i as int)) == Ok::<
                Seq<Option<BoundV>>,
                EvalErrV,
            >(bound_opts_model(out@)),
        decreases fields@.len() - i,
    {
        let ghost pre = fields@.subrange(0, i as int);
        let ghost pre1 = fields@.subrange(0, i + 1);
        proof {
            assert(pre1.drop_last() =~= pre);
            assert(pre1.last() == fields@[i as int]);
        }
        let f = &fields[i];
        let key = to_lowercase(f.name.as_str());
        let step: Option<Option<BoundValue>> = match st.get(&key) {
            None => Some(None),
            Some(v) => match coerce_value(v, &f.ty) {
                Ok(b) => Some(Some(b)),
                Err(CoerceIssue::BadNumber) => {
                    proof {
                        lemma_bind_fields_err(st@, fields@, i + 1);
                    }
                    return Err(EvalError::NumberFormat { field: f.name.clone() });
                },
                Err(CoerceIssue::Mismatch) => {
                    proof {
                        lemma_bind_fields_err(st@, fields@, i + 1);
                    }
                    return Err(EvalError::FieldTypeMismatch { field: f.name.clone() });
                },
            },
        };
        match step {
            Some(b) => {
                proof {
                    assert(bound_opts_model(out@.push(b)) =~= bound_opts_model(out@).push(
                        match b {
                            Some(x) => Some(bound_model(x)),
                            None => None,
                        },
                    ));
                }
                out.push(b);
            },
            None => {},
        }
        i = i + 1;
    }
    proof {
        assert(fields@.subrange(0, fields@.len() as int) =~= fields@);
    }
    Ok(out)
}

/// Binds a target against a store: each field in order gets the coerced
/// value under its name, or stays unbound; a named target reads its
/// section's object, and an absent section leaves every field unbound.
pub fn bind(store: &Store, target: &Target) -> (r: Result<Vec<Option<BoundValue>>, EvalError>)
    requires
        store.wf(),
    ensures
        r is Ok <==> spec_bind(store@, *target) is Ok,
        r matches Ok(v) ==> (spec_bind(store@, *target) matches Ok(bs) && bound_opts_model(v@)
            == bs),
        r matches Err(e) ==> (spec_bind(store@, *target) matches Err(se) && e@ == se),
{
    match &target.section {
        None => bind_fields(store, &target.fields),
        Some(sec) => {
            let key = to_lowercase(sec.as_str());
            match store.get(&key) {
                None => {
                    let mut out: Vec<Option<BoundValue>> = Vec::new();
                    let mut i: usize = 0;
                    while i < target.fields.len()
                        invariant
                            i <= target.fields@.len(),
                            out@.len() == i,
                            forall|k: int| 0 <= k < i ==> out@[k] is None,
                        decreases target.fields@.len() - i,
                    {
                        out.push(None);
                        i = i + 1;
                    }
                    proof {
                        assert(bound_opts_model(out@) =~= Seq::new(
                            target.fields@.len(),
                            |i: int| None,
                        ));
                    }
                    Ok(out)
                },
                Some(Value::Object(inner)) => bind_fields(inner, &target.fields),
                Some(_) => Err(EvalError::BindingShape { name: sec.clone() }),
            }
        },
    }
}

} // verus!
