//! Field values, field types, and the expressions that compute values from
//! other fields.

use vstd::prelude::*;
use vstd::utf8::*;
use crate::codec::{ElemType, all_of_kind};
use crate::plain::{Prim, Scalar, pow256, lemma_pow256_values};

verus! {

/// The value of one field.
#[derive(Debug, PartialEq, Eq)]
pub enum Value {
    /// No data.
    Unit,
    /// A number.
    Scalar(Scalar),
    /// A sequence of numbers.
    Sequence(Vec<Scalar>),
    /// A text.
    Text(String),
    /// A sequence of pairs of numbers.
    Pairs(Vec<(Scalar, Scalar)>),
}

/// The mathematical content of a [`Value`].
pub enum ValueModel {
    Unit,
    Scalar(Scalar),
    Sequence(Seq<Scalar>),
    Text(Seq<char>),
    Pairs(Seq<(Scalar, Scalar)>),
}

impl View for Value {
    type V = ValueModel;

    open spec fn view(&self) -> ValueModel {
        match self {
            Value::Unit => ValueModel::Unit,
            Value::Scalar(s) => ValueModel::Scalar(*s),
            Value::Sequence(v) => ValueModel::Sequence(v@),
            Value::Text(t) => ValueModel::Text(t@),
            Value::Pairs(v) => ValueModel::Pairs(v@),
        }
    }
}

pub fn copy_scalars(v: &Vec<Scalar>) -> (r: Vec<Scalar>)
    ensures
        r@ == v@,
{
    vstd::slice::slice_to_vec(v.as_slice())
}

impl Value {
    /// A copy of the value.
    pub fn duplicate(&self) -> (r: Value)
        ensures
            r@ == self@,
    {
        match self {
            Value::Unit => Value::Unit,
            Value::Scalar(s) => Value::Scalar(*s),
            Value::Sequence(v) => Value::Sequence(copy_scalars(v)),
            Value::Text(t) => Value::Text(t.as_str().to_owned()),
            Value::Pairs(v) => Value::Pairs(vstd::slice::slice_to_vec(v.as_slice())),
        }
    }
}

/// The type of a field.
#[derive(Debug, Clone, Copy, PartialEq, Eq, Structural)]
pub enum FieldType {
    /// No data: nothing is read or written.
    Unit,
    /// A number whose byte order comes from the field's endian setting.
    Plain(Prim),
    /// A number that is always little-endian.
    Le(Prim),
    /// A number that is always big-endian.
    Be(Prim),
    /// A growable sequence of numbers; its length comes from its arguments.
    Sequence(ElemType),
    /// UTF-8 text; its length in bytes comes from its arguments.
    Text,
    /// A sequence of pairs. It has no wire form: a field of this type is
    /// computed from other fields.
    Pairs(Prim, Prim),
}

impl FieldType {
    /// Whether a byte order must be given to code the field.
    pub open spec fn needs_endian(self) -> bool {
        match self {
            FieldType::Plain(_) => true,
            FieldType::Sequence(ElemType::Plain(_)) => true,
            _ => false,
        }
    }

    /// Whether a byte order must be given to code the field.
    pub fn requires_endian(self) -> (r: bool)
        ensures
            r == self.needs_endian(),
    {
        match self {
            FieldType::Plain(_) => true,
            FieldType::Sequence(ElemType::Plain(_)) => true,
            _ => false,
        }
    }

    /// Whether the type has a wire form.
    pub open spec fn has_codec(self) -> bool {
        !(self is Pairs)
    }

    /// Whether a value is of this type.
    pub open spec fn conforms(self, v: ValueModel) -> bool {
        match (self, v) {
            (FieldType::Unit, ValueModel::Unit) => true,
            (FieldType::Plain(p), ValueModel::Scalar(s)) => s.kind() == p,
            (FieldType::Le(p), ValueModel::Scalar(s)) => s.kind() == p,
            (FieldType::Be(p), ValueModel::Scalar(s)) => s.kind() == p,
            (FieldType::Sequence(e), ValueModel::Sequence(s)) => all_of_kind(s, e.prim()),
            (FieldType::Text, ValueModel::Text(_)) => true,
            (FieldType::Pairs(p, q), ValueModel::Pairs(s)) => forall|i: int|
                0 <= i < s.len() ==> (#[trigger] s[i]).0.kind() == p && s[i].1.kind() == q,
            _ => false,
        }
    }

    /// Whether a value is of this type.
    pub fn check(self, v: &Value) -> (r: bool)
        ensures
            r == self.conforms(v@),
    {
        match (self, v) {
            (FieldType::Unit, Value::Unit) => true,
            (FieldType::Plain(p), Value::Scalar(s)) => s.prim() == p,
            (FieldType::Le(p), Value::Scalar(s)) => s.prim() == p,
            (FieldType::Be(p), Value::Scalar(s)) => s.prim() == p,
            (FieldType::Sequence(e), Value::Sequence(s)) => {
                let p = e.kind();
                let mut i: usize = 0;
                while i < s.len()
                    invariant
                        i <= s@.len(),
                        p == e.prim(),
                        self == FieldType::Sequence(e),
                        v@ == ValueModel::Sequence(s@),
                        forall|k: int| 0 <= k < i ==> (#[trigger] s@[k]).kind() == p,
                    decreases s@.len() - i,
                {
                    if s[i].prim() != p {
                        assert(s@[i as int].kind() != p);
                        return false;
                    }
                    i = i + 1;
                }
                true
            },
            (FieldType::Text, Value::Text(_)) => true,
            (FieldType::Pairs(p, q), Value::Pairs(s)) => {
                let mut i: usize = 0;
                while i < s.len()
                    invariant
                        i <= s@.len(),
                        self == FieldType::Pairs(p, q),
                        v@ == ValueModel::Pairs(s@),
                        forall|k: int| 0 <= k < i ==> (#[trigger] s@[k]).0.kind() == p && s@[k].1.kind() == q,
                    decreases s@.len() - i,
                {
                    if s[i].0.prim() != p || s[i].1.prim() != q {
                        assert(!(s@[i as int].0.kind() == p && s@[i as int].1.kind() == q));
                        return false;
                    }
                    i = i + 1;
                }
                true
            },
            _ => false,
        }
    }
}

/// A value computed from fields bound earlier. Fields are named by their
/// position in the schema's entry list.
#[derive(Debug, Clone, Copy, PartialEq, Eq, Structural)]
pub enum Expr {
    /// The value of the field.
    Get(usize),
    /// The number of elements of a sequence, or of bytes of a text, as a
    /// number of the given kind.
    Len(usize, Prim),
    /// The first components of a sequence of pairs.
    Firsts(usize),
    /// The second components of a sequence of pairs.
    Seconds(usize),
    /// The pairs of the elements of two sequences, as many as the shorter has.
    Zip(usize, usize),
}

/// The values bound so far, by entry position; `None` where nothing is bound.
pub type Env = Seq<Option<ValueModel>>;

/// Whether `n` is a value of the kind.
pub open spec fn fits_kind(n: nat, p: Prim) -> bool {
    match p {
        Prim::F32 | Prim::F64 => false,
        _ => if p.is_signed() {
            2 * n < pow256(p.size())
        } else {
            n < pow256(p.size())
        },
    }
}

/// The number of elements or bytes of a value that has a length.
pub open spec fn length_of(v: ValueModel) -> Option<nat> {
    match v {
        ValueModel::Sequence(s) => Some(s.len()),
        ValueModel::Pairs(s) => Some(s.len()),
        ValueModel::Text(t) => Some(encode_utf8(t).len()),
        _ => None,
    }
}

/// The value of a field in the environment, where one is bound.
pub open spec fn lookup(env: Env, i: int) -> Option<ValueModel> {
    if 0 <= i < env.len() {
        env[i]
    } else {
        None
    }
}

/// What an expression evaluates to, or `None` where it cannot be evaluated.
pub open spec fn eval(e: Expr, env: Env) -> Option<ValueModel> {
    match e {
        Expr::Get(i) => lookup(env, i as int),
        Expr::Len(i, p) => match lookup(env, i as int) {
            Some(v) => match length_of(v) {
                Some(n) => if fits_kind(n, p) {
                    Some(ValueModel::Scalar(Scalar::of_bits(p, n)))
                } else {
                    None
                },
                None => None,
            },
            None => None,
        },
        Expr::Firsts(i) => match lookup(env, i as int) {
            Some(ValueModel::Pairs(s)) => Some(ValueModel::Sequence(s.map_values(|x: (Scalar, Scalar)| x.0))),
            _ => None,
        },
        Expr::Seconds(i) => match lookup(env, i as int) {
            Some(ValueModel::Pairs(s)) => Some(ValueModel::Sequence(s.map_values(|x: (Scalar, Scalar)| x.1))),
            _ => None,
        },
        Expr::Zip(i, j) => match (lookup(env, i as int), lookup(env, j as int)) {
            (Some(ValueModel::Sequence(a)), Some(ValueModel::Sequence(b))) => {
                let n = if a.len() < b.len() { a.len() } else { b.len() };
                Some(ValueModel::Pairs(Seq::new(n, |k: int| (a[k], b[k]))))
            },
            _ => None,
        },
    }
}

/// The bound values, as executable values.
pub struct Bindings {
    pub slots: Vec<Option<Value>>,
}

/// The model of an optional value.
pub open spec fn opt_model(o: Option<Value>) -> Option<ValueModel> {
    match o {
        Some(v) => Some(v@),
        None => None,
    }
}

impl Bindings {
    pub open spec fn model(&self) -> Env {
        self.slots@.map_values(|o: Option<Value>| opt_model(o))
    }

    /// No value bound yet.
    pub fn new() -> (r: Bindings)
        ensures
            r.model() == Seq::<Option<ValueModel>>::empty(),
    {
        let r = Bindings { slots: Vec::new() };
        assert(r.model() =~= Seq::<Option<ValueModel>>::empty());
        r
    }

    /// Binds the next position.
    pub fn push(&mut self, v: Option<Value>)
        ensures
            final(self).model() == old(self).model().push(opt_model(v)),
    {
        self.slots.push(v);
        assert(self.model() =~= old(self).model().push(opt_model(v)));
    }

    /// Binds position `i` anew.
    pub fn set(&mut self, i: usize, v: Option<Value>)
        requires
            i < old(self).model().len(),
        ensures
            final(self).model() == old(self).model().update(i as int, opt_model(v)),
    {
        self.slots.set(i, v);
        assert(self.model() =~= old(self).model().update(i as int, opt_model(v)));
    }

    /// The value bound at `i`, if any.
    pub fn get(&self, i: usize) -> (r: Option<&Value>)
        ensures
            r matches Some(v) ==> lookup(self.model(), i as int) == Some(v@),
            r is None ==> lookup(self.model(), i as int) is None,
    {
        if i < self.slots.len() {
            match &self.slots[i] {
                Some(v) => Some(v),
                None => None,
            }
        } else {
            None
        }
    }
}

/// The number `n` as a value of the kind, where it fits.
pub fn length_value(n: usize, p: Prim) -> (r: Option<Scalar>)
    ensures
        fits_kind(n as nat, p) ==> r == Some(Scalar::of_bits(p, n as nat)),
        !fits_kind(n as nat, p) ==> r is None,
{
    proof {
        lemma_pow256_values();
    }
    let limit: u128 = match p {
        Prim::U8 => 0x100,
        Prim::U16 => 0x1_0000,
        Prim::U32 => 0x1_0000_0000,
        Prim::U64 => 0x1_0000_0000_0000_0000,
        Prim::U128 => 0xffff_ffff_ffff_ffff_ffff_ffff_ffff_ffff,
        Prim::I8 => 0x80,
        Prim::I16 => 0x8000,
        Prim::I32 => 0x8000_0000,
        Prim::I64 => 0x8000_0000_0000_0000,
        Prim::I128 => 0x8000_0000_0000_0000_0000_0000_0000_0000,
        Prim::F32 | Prim::F64 => 0,
    };
    proof {
        assert(usize::MAX < 0x1_0000_0000_0000_0000);
    }
    if (n as u128) < limit {
        Some(Scalar::from_bits(p, n as u128))
    } else {
        None
    }
}

/// Evaluates an expression over the bound values.
pub fn evaluate(e: Expr, b: &Bindings) -> (r: Option<Value>)
    ensures
        r matches Some(v) ==> eval(e, b.model()) == Some(v@),
        r is None ==> eval(e, b.model()) is None,
{
    match e {
        Expr::Get(i) => match b.get(i) {
            Some(v) => Some(v.duplicate()),
            None => None,
        },
        Expr::Len(i, p) => {
            let v = match b.get(i) {
                Some(v) => v,
                None => {
                    return None;
                },
            };
            let n: usize = match v {
                Value::Sequence(s) => s.len(),
                Value::Pairs(s) => s.len(),
                Value::Text(t) => {
                    let ts = t.as_str();
                    let bytes = ts.as_bytes();
                    assert(bytes@ == encode_utf8(t@));
                    bytes.len()
                },
                _ => {
                    return None;
                },
            };
            assert(length_of(v@) == Some(n as nat));
            match length_value(n, p) {
                Some(s) => Some(Value::Scalar(s)),
                None => None,
            }
        },
        Expr::Firsts(i) | Expr::Seconds(i) => match b.get(i) {
            Some(Value::Pairs(s)) => {
                let first = matches!(e, Expr::Firsts(_));
                let mut r: Vec<Scalar> = Vec::new();
                let mut k: usize = 0;
                while k < s.len()
                    invariant
                        k <= s@.len(),
                        first == (e is Firsts),
                        r@.len() == k,
                        forall|j: int| 0 <= j < k ==> #[trigger] r@[j] == if first { s@[j].0 } else { s@[j].1 },
                    decreases s@.len() - k,
                {
                    if first {
                        r.push(s[k].0);
                    } else {
                        r.push(s[k].1);
                    }
                    k = k + 1;
                }
                proof {
                    if first {
                        assert(r@ =~= s@.map_values(|x: (Scalar, Scalar)| x.0));
                    } else {
                        assert(r@ =~= s@.map_values(|x: (Scalar, Scalar)| x.1));
                    }
                }
                Some(Value::Sequence(r))
            },
            _ => None,
        },
        Expr::Zip(i, j) => match (b.get(i), b.get(j)) {
            (Some(Value::Sequence(x)), Some(Value::Sequence(y))) => {
                let n = if x.len() < y.len() { x.len() } else { y.len() };
                let mut r: Vec<(Scalar, Scalar)> = Vec::new();
                let mut k: usize = 0;
                while k < n
                    invariant
                        k <= n,
                        n <= x@.len(),
                        n <= y@.len(),
                        r@ =~= Seq::new(k as nat, |m: int| (x@[m], y@[m])),
                    decreases n - k,
                {
                    r.push((x[k], y[k]));
                    k = k + 1;
                }
                Some(Value::Pairs(r))
            },
            _ => None,
        },
    }
}

} // verus!
