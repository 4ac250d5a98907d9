//! Compiled record layouts, and the decode and encode procedures they drive.

use vstd::prelude::*;
use vstd::utf8::*;
use crate::args::{ArgsBuilderFinished, ElementArgs, StrArgsBuilder, VecArgsBuilder};
use crate::codec::{ElemType, all_of_kind, utf8_invalid_span, utf8_valid_up_to, decode_scalar, decode_seq, decode_text, elem_orders, encode_scalar, encode_seq, encode_text, lemma_seq_bytes_injective, lemma_seq_bytes_len, seq_bytes};
use crate::endian::{Endian, EndianContext, NoEndian};
use crate::plain::{Prim, Scalar};
use crate::stream::{DecodeError, DecodeErrorModel, EncodeError, Reader, Writer};
use crate::value::{Bindings, Env, Expr, FieldType, Value, ValueModel, eval, evaluate, lookup, opt_model};

verus! {

/// A stream side effect with no field: a magic sequence or padding.
#[derive(Debug, PartialEq, Eq)]
pub enum Directive {
    /// Bytes that must appear verbatim.
    Magic(Vec<u8>),
    /// Bytes that are skipped on decode and written as zeros on encode.
    Pad(usize),
}

/// Where a length comes from.
#[derive(Debug, Clone, Copy, PartialEq, Eq, Structural)]
pub enum CountExpr {
    /// A fixed number.
    Literal(usize),
    /// The integer value of the field at the given entry position.
    Field(usize),
}

/// The finished argument settings of a sequence field.
#[derive(Debug, PartialEq, Eq)]
pub enum SeqArgsPlan {
    /// A number of elements, each with the same argument.
    Counted(CountExpr, Option<Endian>),
    /// One argument per element.
    Listed(Vec<Option<Endian>>),
    /// The same argument for any number of elements.
    Repeat(Option<Endian>),
}

/// The finished argument settings of a field in one direction.
#[derive(Debug, PartialEq, Eq)]
pub enum ArgsPlan {
    NoArgs,
    Sequence(SeqArgsPlan),
    Text(CountExpr),
}

/// The resolved byte order of a field.
#[derive(Debug, Clone, Copy, PartialEq, Eq, Structural)]
pub enum FieldEndian {
    /// Always this byte order.
    Fixed(Endian),
    /// The byte order handed to the record by its caller.
    Scope,
    /// No byte order applies.
    NotApplicable,
}

/// How a field is obtained on decode.
#[derive(Debug, PartialEq, Eq)]
pub enum DecodeRule {
    /// Decoded with its type's codec and these arguments.
    Codec(ArgsPlan),
    /// Computed from fields bound earlier; nothing is read.
    Override(Expr),
}

/// How a field is written on encode.
#[derive(Debug, PartialEq, Eq)]
pub enum EncodeRule {
    /// Encoded with its type's codec and these arguments.
    Codec(ArgsPlan),
    /// Not written: the field is recomputed on decode.
    Skip,
}

/// Whether a field belongs to the record or only exists while coding.
#[derive(Debug, Clone, Copy, PartialEq, Eq, Structural)]
pub enum FieldKind {
    Persistent,
    Temporary,
}

/// One field of a compiled layout.
#[derive(Debug, PartialEq, Eq)]
pub struct FieldPlan {
    pub kind: FieldKind,
    pub ty: FieldType,
    pub endian: FieldEndian,
    pub decode: DecodeRule,
    pub encode: EncodeRule,
    /// For a temporary: how its value is computed before encoding.
    pub compute: Option<Expr>,
}

/// One entry of a compiled layout.
#[derive(Debug, PartialEq, Eq)]
pub enum Step {
    Directive(Directive),
    Field(FieldPlan),
}

/// A compiled record layout: its entries in order, and whether the record
/// takes its byte order from its caller.
#[derive(Debug, PartialEq, Eq)]
pub struct Plan {
    pub steps: Vec<Step>,
    pub scoped: bool,
}

/// The byte order of a field in the record's context.
pub open spec fn field_ctx(e: FieldEndian, ctx: EndianContext) -> EndianContext {
    match e {
        FieldEndian::Fixed(x) => EndianContext::Explicit(x),
        FieldEndian::Scope => ctx,
        FieldEndian::NotApplicable => EndianContext::NotApplicable(NoEndian),
    }
}

/// The byte order of a number in the context.
pub open spec fn ctx_order(c: EndianContext) -> Endian {
    match c {
        EndianContext::Explicit(e) => e,
        EndianContext::NotApplicable(_) => Endian::Little,
    }
}

pub open spec fn is_integer(p: Prim) -> bool {
    !(p is F32 || p is F64)
}

/// The length that a count stands for, where it can be evaluated.
pub open spec fn count_value(c: CountExpr, env: Env) -> Option<nat> {
    match c {
        CountExpr::Literal(n) => Some(n as nat),
        CountExpr::Field(i) => match lookup(env, i as int) {
            Some(ValueModel::Scalar(s)) => if is_integer(s.kind()) && 0 <= s.int_value() <= usize::MAX {
                Some(s.int_value() as nat)
            } else {
                None
            },
            _ => None,
        },
    }
}

impl SeqArgsPlan {
    /// Whether the `i`-th element has an argument.
    pub open spec fn has(&self, i: int) -> bool {
        match self {
            SeqArgsPlan::Listed(l) => 0 <= i < l@.len(),
            _ => 0 <= i,
        }
    }

    /// The argument of the `i`-th element.
    pub open spec fn at(&self, i: int) -> Option<Endian> {
        match self {
            SeqArgsPlan::Counted(_, x) => *x,
            SeqArgsPlan::Repeat(x) => *x,
            SeqArgsPlan::Listed(l) => l@[i],
        }
    }
}

/// The byte orders of the first `n` elements.
pub open spec fn plan_orders(elem: ElemType, ctx: EndianContext, a: SeqArgsPlan, n: nat) -> Seq<Endian> {
    Seq::new(n, |i: int| elem.order(ctx, a.at(i)))
}

/// The number of elements that decoding reads.
pub open spec fn decode_len(a: SeqArgsPlan, env: Env) -> Option<nat> {
    match a {
        SeqArgsPlan::Counted(c, _) => count_value(c, env),
        SeqArgsPlan::Listed(l) => Some(l@.len()),
        SeqArgsPlan::Repeat(_) => None,
    }
}

/// Decoding one number.
pub open spec fn decode_number(p: Prim, e: Endian, input: Seq<u8>) -> Result<(ValueModel, Seq<u8>), DecodeErrorModel> {
    if p.size() > input.len() {
        Err(DecodeErrorModel::IncompleteData { context: p.spec_name(), needed: p.size() as usize, available: input.len() as usize })
    } else {
        Ok((
            ValueModel::Scalar(Scalar::spec_from_bytes(p, input.subrange(0, p.size() as int), e)),
            input.subrange(p.size() as int, input.len() as int),
        ))
    }
}

/// The numbers of the kind whose bytes in the orders are `b`.
pub open spec fn numbers_of(p: Prim, orders: Seq<Endian>, b: Seq<u8>) -> Seq<Scalar> {
    choose|v: Seq<Scalar>| v.len() == orders.len() && all_of_kind(v, p) && seq_bytes(v, orders) == b
}

/// Decoding a field with its type's codec: the value and what is left.
pub open spec fn decode_codec(ty: FieldType, args: ArgsPlan, fctx: EndianContext, env: Env, input: Seq<u8>) -> Result<(ValueModel, Seq<u8>), DecodeErrorModel> {
    match ty {
        FieldType::Unit => Ok((ValueModel::Unit, input)),
        FieldType::Plain(p) => decode_number(p, ctx_order(fctx), input),
        FieldType::Le(p) => decode_number(p, Endian::Little, input),
        FieldType::Be(p) => decode_number(p, Endian::Big, input),
        FieldType::Sequence(elem) => match args {
            ArgsPlan::Sequence(a) => match decode_len(a, env) {
                Some(n) => {
                    let m = (n as int) * (elem.prim().size() as int);
                    if m > input.len() {
                        Err(
                            DecodeErrorModel::IncompleteData {
                                context: elem.prim().spec_name(),
                                needed: elem.prim().size() as usize,
                                available: ((input.len() as int) % (elem.prim().size() as int)) as usize,
                            },
                        )
                    } else {
                        let orders = plan_orders(elem, fctx, a, n);
                        Ok((
                            ValueModel::Sequence(numbers_of(elem.prim(), orders, input.subrange(0, m))),
                            input.subrange(m, input.len() as int),
                        ))
                    }
                },
                None => Err(DecodeErrorModel::InvalidData("count")),
            },
            _ => Err(DecodeErrorModel::InvalidData("Vec")),
        },
        FieldType::Text => match args {
            ArgsPlan::Text(c) => match count_value(c, env) {
                Some(n) => if n > input.len() {
                    Err(DecodeErrorModel::IncompleteData { context: "String", needed: n as usize, available: input.len() as usize })
                } else if valid_utf8(input.subrange(0, n as int)) {
                    Ok((
                        ValueModel::Text(decode_utf8(input.subrange(0, n as int))),
                        input.subrange(n as int, input.len() as int),
                    ))
                } else {
                    let b = input.subrange(0, n as int);
                    let k = utf8_valid_up_to(b);
                    Err(DecodeErrorModel::DecodeUtf8Error { valid_prefix: decode_utf8(b.subrange(0, k)), invalid_bytes: utf8_invalid_span(b) })
                },
                None => Err(DecodeErrorModel::InvalidData("count")),
            },
            _ => Err(DecodeErrorModel::InvalidData("String")),
        },
        FieldType::Pairs(_, _) => Err(DecodeErrorModel::InvalidData("pairs")),
    }
}

/// Decoding a field: by its override, else by its codec.
pub open spec fn decode_field(f: FieldPlan, env: Env, ctx: EndianContext, input: Seq<u8>) -> Result<(ValueModel, Seq<u8>), DecodeErrorModel> {
    match f.decode {
        DecodeRule::Override(e) => match eval(e, env) {
            Some(v) => if f.ty.conforms(v) {
                Ok((v, input))
            } else {
                Err(DecodeErrorModel::InvalidData("override"))
            },
            None => Err(DecodeErrorModel::InvalidData("override")),
        },
        DecodeRule::Codec(a) => decode_codec(f.ty, a, field_ctx(f.endian, ctx), env, input),
    }
}

/// Decoding one entry: what it binds, and what is left.
pub open spec fn decode_step(step: Step, env: Env, ctx: EndianContext, input: Seq<u8>) -> Result<(Option<ValueModel>, Seq<u8>), DecodeErrorModel> {
    match step {
        Step::Directive(Directive::Magic(m)) => if m@.len() > input.len() {
            Err(DecodeErrorModel::IncompleteData { context: "magic", needed: m@.len() as usize, available: input.len() as usize })
        } else if input.subrange(0, m@.len() as int) != m@ {
            Err(DecodeErrorModel::MagicMismatch { real_bytes: input.subrange(0, m@.len() as int), expected_magic: m@ })
        } else {
            Ok((None, input.subrange(m@.len() as int, input.len() as int)))
        },
        Step::Directive(Directive::Pad(n)) => if n > input.len() {
            Err(DecodeErrorModel::IncompleteData { context: "padding", needed: n, available: input.len() as usize })
        } else {
            Ok((None, input.subrange(n as int, input.len() as int)))
        },
        Step::Field(f) => match decode_field(f, env, ctx, input) {
            Ok((v, rest)) => Ok((Some(v), rest)),
            Err(e) => Err(e),
        },
    }
}

/// Decoding the entries in order; the first failure ends decoding.
pub open spec fn decode_steps(steps: Seq<Step>, env: Env, ctx: EndianContext, input: Seq<u8>) -> Result<(Env, Seq<u8>), DecodeErrorModel>
    decreases steps.len(),
{
    if steps.len() == 0 {
        Ok((env, input))
    } else {
        match decode_step(steps[0], env, ctx, input) {
            Ok((slot, rest)) => decode_steps(steps.drop_first(), env.push(slot), ctx, rest),
            Err(e) => Err(e),
        }
    }
}

pub open spec fn is_persistent(step: Step) -> bool {
    step matches Step::Field(f) && f.kind is Persistent
}

/// The values of the persistent fields, in order.
pub open spec fn record_of(steps: Seq<Step>, env: Env) -> Seq<ValueModel>
    decreases steps.len(),
{
    if steps.len() == 0 {
        Seq::empty()
    } else {
        let prev = record_of(steps.drop_last(), env);
        if is_persistent(steps.last()) {
            prev.push(env[steps.len() - 1]->Some_0)
        } else {
            prev
        }
    }
}

/// Decoding a record: its persistent values and what is left.
pub open spec fn decode_spec(steps: Seq<Step>, ctx: EndianContext, input: Seq<u8>) -> Result<(Seq<ValueModel>, Seq<u8>), DecodeErrorModel> {
    match decode_steps(steps, Seq::empty(), ctx, input) {
        Ok((env, rest)) => Ok((record_of(steps, env), rest)),
        Err(e) => Err(e),
    }
}

/// Whether a field is consistent: it has a way to be decoded and encoded, and
/// a byte order wherever its type needs one.
pub open spec fn field_wf(f: FieldPlan, scoped: bool) -> bool {
    &&& f.ty.needs_endian() ==> (f.endian is Fixed || (f.endian is Scope && scoped))
    &&& f.endian is Scope ==> scoped
    &&& f.decode matches DecodeRule::Codec(a) ==> match (f.ty, a) {
        (FieldType::Sequence(_), ArgsPlan::Sequence(s)) => !(s is Repeat),
        (FieldType::Text, ArgsPlan::Text(_)) => true,
        (FieldType::Pairs(_, _), _) => false,
        (FieldType::Sequence(_), _) | (FieldType::Text, _) => false,
        (_, ArgsPlan::NoArgs) => true,
        _ => false,
    }
    &&& f.encode matches EncodeRule::Codec(a) ==> match (f.ty, a) {
        (FieldType::Sequence(_), ArgsPlan::Sequence(s)) => !(s is Counted),
        (FieldType::Pairs(_, _), _) => false,
        (FieldType::Sequence(_), _) => false,
        (_, ArgsPlan::NoArgs) => true,
        _ => false,
    }
    &&& f.kind is Temporary <==> f.compute is Some
    &&& f.decode is Override <==> f.encode is Skip
}

impl Plan {
    /// Whether every field of the layout is consistent.
    pub open spec fn wf(&self) -> bool {
        forall|i: int| 0 <= i < self.steps@.len() ==> (#[trigger] self.steps@[i] matches Step::Field(f)
            ==> field_wf(f, self.scoped))
    }

    /// Whether `ctx` can be handed to the record.
    pub open spec fn accepts(&self, ctx: EndianContext) -> bool {
        self.scoped ==> ctx is Explicit
    }
}

pub proof fn lemma_field_ctx_fits(f: FieldPlan, scoped: bool, ctx: EndianContext)
    requires
        field_wf(f, scoped),
        scoped ==> ctx is Explicit,
        f.ty.needs_endian(),
    ensures
        field_ctx(f.endian, ctx) is Explicit,
{
}

fn usize_of(n: u128) -> (r: Option<usize>)
    ensures
        n <= usize::MAX ==> r == Some(n as usize),
        n > usize::MAX ==> r is None,
{
    if n <= usize::MAX as u128 {
        Some(n as usize)
    } else {
        None
    }
}

/// The length a count stands for, where it can be evaluated.
fn count_of(c: CountExpr, b: &Bindings) -> (r: Option<usize>)
    ensures
        r matches Some(n) ==> count_value(c, b.model()) == Some(n as nat),
        r is None ==> count_value(c, b.model()) is None,
{
    match c {
        CountExpr::Literal(n) => Some(n),
        CountExpr::Field(i) => match b.get(i) {
            Some(Value::Scalar(s)) => {
                let s = *s;
                match s {
                    Scalar::U8(v) => usize_of(v as u128),
                    Scalar::U16(v) => usize_of(v as u128),
                    Scalar::U32(v) => usize_of(v as u128),
                    Scalar::U64(v) => usize_of(v as u128),
                    Scalar::U128(v) => usize_of(v),
                    Scalar::I8(v) => if v >= 0 { usize_of(v as u128) } else { None },
                    Scalar::I16(v) => if v >= 0 { usize_of(v as u128) } else { None },
                    Scalar::I32(v) => if v >= 0 { usize_of(v as u128) } else { None },
                    Scalar::I64(v) => if v >= 0 { usize_of(v as u128) } else { None },
                    Scalar::I128(v) => if v >= 0 { usize_of(v as u128) } else { None },
                    Scalar::F32(_) | Scalar::F64(_) => None,
                }
            },
            _ => None,
        },
    }
}

/// The models of the values.
pub open spec fn models(v: Seq<Value>) -> Seq<ValueModel> {
    v.map_values(|x: Value| x@)
}

/// The element arguments that decoding hands to a sequence of `n` elements.
fn decode_element_args(a: &SeqArgsPlan, n: usize) -> (r: crate::args::VecArgs<Option<Endian>>)
    requires
        !(a is Repeat),
        a is Listed ==> a->Listed_0@.len() == n,
    ensures
        r.element_args is List,
        r.element_args->List_0@.len() == n,
        forall|i: int| 0 <= i < n ==> r.element_args.at(i) == a.at(i),
{
    match a {
        SeqArgsPlan::Counted(_, x) => VecArgsBuilder::new().count(n).arg(*x).finish(),
        SeqArgsPlan::Listed(l) => {
            let copy = vstd::slice::slice_to_vec(l.as_slice());
            let builder = VecArgsBuilder::new();
            builder.args(copy).finish()
        },
        SeqArgsPlan::Repeat(_) => {
            proof {
                assert(false);
            }
            VecArgsBuilder::new().count(0).arg(None).finish()
        },
    }
}

/// Decodes one field, from its override or with its codec.
#[verifier::rlimit(40)]
fn decode_field_exec(f: &FieldPlan, b: &Bindings, ctx: EndianContext, reader: &mut Reader, scoped: bool) -> (r: Result<Value, DecodeError>)
    requires
        field_wf(*f, scoped),
        scoped ==> ctx is Explicit,
    ensures
        match decode_field(*f, b.model(), ctx, old(reader)@) {
            Ok((v, rest)) => r matches Ok(x) && x@ == v && final(reader)@ == rest,
            Err(e) => r matches Err(x) && x.agrees(e),
        },
{
    let fctx = match f.endian {
        FieldEndian::Fixed(x) => EndianContext::Explicit(x),
        FieldEndian::Scope => ctx,
        FieldEndian::NotApplicable => EndianContext::NotApplicable(NoEndian),
    };
    let order = match fctx {
        EndianContext::Explicit(e) => e,
        EndianContext::NotApplicable(_) => Endian::Little,
    };
    let ghost input = reader@;
    match &f.decode {
        DecodeRule::Override(e) => match evaluate(*e, b) {
            Some(v) => if f.ty.check(&v) {
                Ok(v)
            } else {
                Err(DecodeError::InvalidData("override"))
            },
            None => Err(DecodeError::InvalidData("override")),
        },
        DecodeRule::Codec(a) => match f.ty {
            FieldType::Unit => Ok(Value::Unit),
            FieldType::Plain(p) => {
                let s = decode_scalar(reader, p, order)?;
                Ok(Value::Scalar(s))
            },
            FieldType::Le(p) => {
                let s = decode_scalar(reader, p, Endian::Little)?;
                Ok(Value::Scalar(s))
            },
            FieldType::Be(p) => {
                let s = decode_scalar(reader, p, Endian::Big)?;
                Ok(Value::Scalar(s))
            },
            FieldType::Sequence(elem) => {
                let sa = match a {
                    ArgsPlan::Sequence(sa) => sa,
                    _ => {
                        proof {
                            assert(false);
                        }
                        return Err(DecodeError::InvalidData("Vec"));
                    },
                };
                let n = match sa {
                    SeqArgsPlan::Counted(c, _) => match count_of(*c, b) {
                        Some(n) => n,
                        None => {
                            return Err(DecodeError::InvalidData("count"));
                        },
                    },
                    SeqArgsPlan::Listed(l) => l.len(),
                    SeqArgsPlan::Repeat(_) => {
                        proof {
                            assert(false);
                        }
                        return Err(DecodeError::InvalidData("Vec"));
                    },
                };
                let args = decode_element_args(sa, n);
                proof {
                    if elem is Plain {
                        lemma_field_ctx_fits(*f, scoped, ctx);
                    }
                }
                let v = decode_seq(reader, elem, fctx, &args)?;
                proof {
                    let p = elem.prim();
                    let orders = plan_orders(elem, fctx, *sa, n as nat);
                    assert(elem_orders(elem, fctx, args.element_args, n as nat) =~= orders);
                    lemma_seq_bytes_len(v@, orders, p);
                    let m = (n as int) * (p.size() as int);
                    let bytes = seq_bytes(v@, orders);
                    assert(input.subrange(0, m) =~= bytes);
                    assert(input.subrange(m, input.len() as int) =~= reader@);
                    let w = numbers_of(p, orders, bytes);
                    assert(w.len() == orders.len() && all_of_kind(w, p) && seq_bytes(w, orders) == bytes);
                    lemma_seq_bytes_injective(w, v@, orders, p);
                }
                Ok(Value::Sequence(v))
            },
            FieldType::Text => {
                let c = match a {
                    ArgsPlan::Text(c) => *c,
                    _ => {
                        proof {
                            assert(false);
                        }
                        return Err(DecodeError::InvalidData("String"));
                    },
                };
                let n = match count_of(c, b) {
                    Some(n) => n,
                    None => {
                        return Err(DecodeError::InvalidData("count"));
                    },
                };
                let args = StrArgsBuilder::new().count(n).finish();
                match decode_text(reader, args) {
                    Ok(t) => Ok(Value::Text(t)),
                    Err(e) => {
                        proof {
                            if n <= input.len() {
                                let bs = input.subrange(0, n as int);
                                if e is DecodeUtf8Error {
                                    let k = encode_utf8(e->valid_prefix@).len() as int;
                                    assert(bs.subrange(0, k) =~= input.subrange(0, k));
                                }
                            }
                        }
                        Err(e)
                    },
                }
            },
            FieldType::Pairs(_, _) => {
                proof {
                    assert(false);
                }
                Err(DecodeError::InvalidData("pairs"))
            },
        },
    }
}

/// Decodes one entry: a directive binds nothing, a field binds its value.
fn decode_step_exec(step: &Step, b: &Bindings, ctx: EndianContext, reader: &mut Reader, scoped: bool) -> (r: Result<Option<Value>, DecodeError>)
    requires
        *step matches Step::Field(f) ==> field_wf(f, scoped),
        scoped ==> ctx is Explicit,
    ensures
        match decode_step(*step, b.model(), ctx, old(reader)@) {
            Ok((slot, rest)) => r matches Ok(x) && opt_model(x) == slot && final(reader)@ == rest,
            Err(e) => r matches Err(x) && x.agrees(e),
        },
{
    match step {
        Step::Directive(Directive::Magic(m)) => {
            reader.magic(m.as_slice())?;
            Ok(None)
        },
        Step::Directive(Directive::Pad(n)) => {
            reader.pad(*n)?;
            Ok(None)
        },
        Step::Field(f) => {
            let v = decode_field_exec(f, b, ctx, reader, scoped)?;
            Ok(Some(v))
        },
    }
}

impl Plan {
    /// Decodes a record: its persistent field values, in declared order. The
    /// entries are handled in order and the first failure is returned.
    pub fn decode_with(&self, reader: &mut Reader, ctx: EndianContext) -> (r: Result<Vec<Value>, DecodeError>)
        requires
            self.wf(),
            self.accepts(ctx),
        ensures
            match decode_spec(self.steps@, ctx, old(reader)@) {
                Ok((rec, rest)) => r matches Ok(v) && models(v@) == rec && final(reader)@ == rest,
                Err(e) => r matches Err(x) && x.agrees(e),
            },
    {
        let ghost steps = self.steps@;
        let ghost input = reader@;
        let n = self.steps.len();
        let mut b = Bindings::new();
        let mut i: usize = 0;
        assert(steps.subrange(0, n as int) =~= steps);
        while i < n
            invariant
                i <= n,
                n == steps.len(),
                steps == self.steps@,
                self.wf(),
                self.accepts(ctx),
                input == old(reader)@,
                b.model().len() == i,
                decode_steps(steps, Seq::empty(), ctx, input) == decode_steps(
                    steps.subrange(i as int, n as int),
                    b.model(),
                    ctx,
                    reader@,
                ),
                forall|k: int| 0 <= k < i ==> (#[trigger] steps[k] is Field) ==> b.model()[k] is Some,
            decreases n - i,
        {
            let ghost rest = steps.subrange(i as int, n as int);
            assert(rest[0] == steps[i as int]);
            assert(rest.drop_first() =~= steps.subrange(i + 1, n as int));
            proof {
                assert(self.steps@[i as int] matches Step::Field(f) ==> field_wf(f, self.scoped));
            }
            match decode_step_exec(&self.steps[i], &b, ctx, reader, self.scoped) {
                Ok(slot) => {
                    b.push(slot);
                    i = i + 1;
                },
                Err(e) => {
                    return Err(e);
                },
            }
        }
        let ghost env = b.model();
        let mut out: Vec<Value> = Vec::new();
        let mut k: usize = 0;
        assert(steps.subrange(0, 0) =~= Seq::<Step>::empty());
        while k < n
            invariant
                k <= n,
                n == steps.len(),
                steps == self.steps@,
                env == b.model(),
                env.len() == n,
                forall|j: int| 0 <= j < n ==> (#[trigger] steps[j] is Field) ==> env[j] is Some,
                models(out@) == record_of(steps.subrange(0, k as int), env),
            decreases n - k,
        {
            let ghost pre = steps.subrange(0, k + 1);
            assert(pre.drop_last() =~= steps.subrange(0, k as int));
            let ghost before = out@;
            match &self.steps[k] {
                Step::Field(f) => {
                    if matches!(f.kind, FieldKind::Persistent) {
                        match &b.slots[k] {
                            Some(v) => {
                                out.push(v.duplicate());
                                assert(models(out@) =~= models(before).push(env[k as int]->Some_0));
                            },
                            None => {
                                proof {
                                    assert(steps[k as int] is Field);
                                }
                            },
                        }
                    }
                },
                Step::Directive(_) => {},
            }
            k = k + 1;
        }
        assert(steps.subrange(0, n as int) =~= steps);
        Ok(out)
    }
}

/// The number of persistent fields.
pub open spec fn pcount(steps: Seq<Step>) -> nat
    decreases steps.len(),
{
    if steps.len() == 0 {
        0
    } else {
        pcount(steps.drop_last()) + if is_persistent(steps.last()) {
            1nat
        } else {
            0nat
        }
    }
}

/// The record's values, each at its field's entry position.
pub open spec fn place(steps: Seq<Step>, rec: Seq<ValueModel>) -> Env {
    Seq::new(
        steps.len(),
        |i: int|
            if is_persistent(steps[i]) {
                Some(rec[pcount(steps.subrange(0, i)) as int])
            } else {
                None
            },
    )
}

/// Computing the temporaries from position `i` on, in order.
pub open spec fn fill_temps(steps: Seq<Step>, env: Env, i: nat) -> Result<Env, EncodeError>
    decreases steps.len() - i,
{
    if i >= steps.len() {
        Ok(env)
    } else {
        match steps[i as int] {
            Step::Field(f) => if f.kind is Temporary {
                match f.compute {
                    Some(e) => match eval(e, env) {
                        Some(v) => if f.ty.conforms(v) {
                            fill_temps(steps, env.update(i as int, Some(v)), i + 1)
                        } else {
                            Err(EncodeError::InvalidArgument("temporary", "value of the wrong type"))
                        },
                        None => Err(EncodeError::InvalidArgument("temporary", "cannot be computed")),
                    },
                    None => Err(EncodeError::InvalidArgument("temporary", "no value")),
                }
            } else {
                fill_temps(steps, env, i + 1)
            },
            Step::Directive(_) => fill_temps(steps, env, i + 1),
        }
    }
}

/// Whether there is an argument for each of `m` elements.
pub open spec fn enc_has_all(a: SeqArgsPlan, m: nat) -> bool {
    match a {
        SeqArgsPlan::Listed(l) => l@.len() >= m,
        _ => true,
    }
}

/// The bytes of a value with its type's codec.
pub open spec fn encode_codec(ty: FieldType, a: ArgsPlan, fctx: EndianContext, v: ValueModel) -> Result<Seq<u8>, EncodeError> {
    match (ty, v) {
        (FieldType::Unit, _) => Ok(Seq::empty()),
        (FieldType::Plain(_), ValueModel::Scalar(s)) => Ok(s.spec_to_bytes(ctx_order(fctx))),
        (FieldType::Le(_), ValueModel::Scalar(s)) => Ok(s.spec_to_bytes(Endian::Little)),
        (FieldType::Be(_), ValueModel::Scalar(s)) => Ok(s.spec_to_bytes(Endian::Big)),
        (FieldType::Sequence(elem), ValueModel::Sequence(xs)) => match a {
            ArgsPlan::Sequence(sa) => if enc_has_all(sa, xs.len()) {
                Ok(seq_bytes(xs, plan_orders(elem, fctx, sa, xs.len())))
            } else {
                Err(EncodeError::InvalidArgument("Vec", "not enough arguments"))
            },
            _ => Err(EncodeError::InvalidData("Vec")),
        },
        (FieldType::Text, ValueModel::Text(t)) => Ok(encode_utf8(t)),
        _ => Err(EncodeError::InvalidData("field")),
    }
}

/// The bytes of a field: none where it is recomputed on decode.
pub open spec fn encode_field(f: FieldPlan, slot: Option<ValueModel>, ctx: EndianContext) -> Result<Seq<u8>, EncodeError> {
    match f.encode {
        EncodeRule::Skip => Ok(Seq::empty()),
        EncodeRule::Codec(a) => match slot {
            Some(v) => if f.ty.conforms(v) {
                encode_codec(f.ty, a, field_ctx(f.endian, ctx), v)
            } else {
                Err(EncodeError::InvalidData("field"))
            },
            None => Err(EncodeError::InvalidData("field")),
        },
    }
}

/// The bytes of one entry.
pub open spec fn encode_step(step: Step, slot: Option<ValueModel>, ctx: EndianContext) -> Result<Seq<u8>, EncodeError> {
    match step {
        Step::Directive(Directive::Magic(m)) => Ok(m@),
        Step::Directive(Directive::Pad(n)) => Ok(Seq::new(n as nat, |_i: int| 0u8)),
        Step::Field(f) => encode_field(f, slot, ctx),
    }
}

/// The bytes of the entries, one after another; the first failure ends encoding.
pub open spec fn encode_steps(steps: Seq<Step>, env: Env, ctx: EndianContext) -> Result<Seq<u8>, EncodeError>
    decreases steps.len(),
{
    if steps.len() == 0 {
        Ok(Seq::empty())
    } else {
        match encode_step(steps[0], env[0], ctx) {
            Ok(b) => match encode_steps(steps.drop_first(), env.drop_first(), ctx) {
                Ok(r) => Ok(b + r),
                Err(e) => Err(e),
            },
            Err(e) => Err(e),
        }
    }
}

/// Encoding a record given as its persistent values in order.
pub open spec fn encode_spec(steps: Seq<Step>, ctx: EndianContext, rec: Seq<ValueModel>) -> Result<Seq<u8>, EncodeError> {
    if rec.len() != pcount(steps) {
        Err(EncodeError::InvalidData("record"))
    } else {
        match fill_temps(steps, place(steps, rec), 0) {
            Ok(env) => encode_steps(steps, env, ctx),
            Err(e) => Err(e),
        }
    }
}

/// `r` with `w` before its bytes.
pub open spec fn after(w: Seq<u8>, r: Result<Seq<u8>, EncodeError>) -> Result<Seq<u8>, EncodeError> {
    match r {
        Ok(b) => Ok(w + b),
        Err(e) => Err(e),
    }
}

/// The element arguments that encoding hands to a sequence.
fn encode_element_args(a: &SeqArgsPlan) -> (r: crate::args::VecArgs<Option<Endian>>)
    requires
        !(a is Counted),
    ensures
        a is Repeat ==> r.element_args == ElementArgs::Repeat(a.at(0)),
        a is Listed ==> r.element_args is List && r.element_args->List_0@ == a->Listed_0@,
        forall|i: int| a.has(i) ==> r.element_args.has(i) && r.element_args.at(i) == a.at(i),
        forall|i: int| 0 <= i && !a.has(i) ==> !r.element_args.has(i),
{
    match a {
        SeqArgsPlan::Repeat(x) => VecArgsBuilder::repeat_unit().arg(*x).finish(),
        SeqArgsPlan::Listed(l) => {
            let copy = vstd::slice::slice_to_vec(l.as_slice());
            let builder = VecArgsBuilder::new();
            builder.args(copy).finish()
        },
        SeqArgsPlan::Counted(_, _) => {
            proof {
                assert(false);
            }
            VecArgsBuilder::repeat_unit().arg(None).finish()
        },
    }
}

/// Encodes one field from the value bound to it.
fn encode_field_exec(f: &FieldPlan, slot: &Option<Value>, ctx: EndianContext, writer: &mut Writer, scoped: bool) -> (r: Result<(), EncodeError>)
    requires
        field_wf(*f, scoped),
        scoped ==> ctx is Explicit,
    ensures
        match encode_field(*f, opt_model(*slot), ctx) {
            Ok(b) => r is Ok && final(writer)@ == old(writer)@ + b,
            Err(e) => r == Err::<(), EncodeError>(e),
        },
{
    let a = match &f.encode {
        EncodeRule::Skip => {
            assert(old(writer)@ =~= old(writer)@ + Seq::<u8>::empty());
            return Ok(());
        },
        EncodeRule::Codec(a) => a,
    };
    let v = match slot {
        Some(v) => v,
        None => {
            return Err(EncodeError::InvalidData("field"));
        },
    };
    if !f.ty.check(v) {
        return Err(EncodeError::InvalidData("field"));
    }
    let fctx = match f.endian {
        FieldEndian::Fixed(x) => EndianContext::Explicit(x),
        FieldEndian::Scope => ctx,
        FieldEndian::NotApplicable => EndianContext::NotApplicable(NoEndian),
    };
    let order = match fctx {
        EndianContext::Explicit(e) => e,
        EndianContext::NotApplicable(_) => Endian::Little,
    };
    match (f.ty, v) {
        (FieldType::Unit, _) => {
            assert(old(writer)@ =~= old(writer)@ + Seq::<u8>::empty());
            Ok(())
        },
        (FieldType::Plain(_), Value::Scalar(s)) => {
            encode_scalar(writer, *s, order);
            Ok(())
        },
        (FieldType::Le(_), Value::Scalar(s)) => {
            encode_scalar(writer, *s, Endian::Little);
            Ok(())
        },
        (FieldType::Be(_), Value::Scalar(s)) => {
            encode_scalar(writer, *s, Endian::Big);
            Ok(())
        },
        (FieldType::Sequence(elem), Value::Sequence(xs)) => {
            let sa = match a {
                ArgsPlan::Sequence(sa) => sa,
                _ => {
                    proof {
                        assert(false);
                    }
                    return Err(EncodeError::InvalidData("Vec"));
                },
            };
            let args = encode_element_args(sa);
            proof {
                if elem is Plain {
                    lemma_field_ctx_fits(*f, scoped, ctx);
                }
            }
            let ghost m = xs@.len();
            let res = encode_seq(writer, xs.as_slice(), elem, fctx, &args, "Vec");
            proof {
                if sa is Listed {
                    assert(args.element_args->List_0@.len() == sa->Listed_0@.len());
                }
                if enc_has_all(*sa, m) {
                    assert(xs@.subrange(0, m as int) =~= xs@);
                    assert(elem_orders(elem, fctx, args.element_args, m) =~= plan_orders(elem, fctx, *sa, m));
                }
            }
            res
        },
        (FieldType::Text, Value::Text(t)) => {
            encode_text(writer, t.as_str());
            Ok(())
        },
        _ => {
            proof {
                assert(false);
            }
            Err(EncodeError::InvalidData("field"))
        },
    }
}

/// Encodes one entry.
fn encode_step_exec(step: &Step, slot: &Option<Value>, ctx: EndianContext, writer: &mut Writer, scoped: bool) -> (r: Result<(), EncodeError>)
    requires
        *step matches Step::Field(f) ==> field_wf(f, scoped),
        scoped ==> ctx is Explicit,
    ensures
        match encode_step(*step, opt_model(*slot), ctx) {
            Ok(b) => r is Ok && final(writer)@ == old(writer)@ + b,
            Err(e) => r == Err::<(), EncodeError>(e),
        },
{
    match step {
        Step::Directive(Directive::Magic(m)) => {
            writer.magic(m.as_slice());
            Ok(())
        },
        Step::Directive(Directive::Pad(n)) => {
            writer.pad(*n);
            Ok(())
        },
        Step::Field(f) => encode_field_exec(f, slot, ctx, writer, scoped),
    }
}

impl Plan {
    /// The number of persistent fields.
    pub fn field_count(&self) -> (r: usize)
        ensures
            r == pcount(self.steps@),
    {
        let ghost steps = self.steps@;
        let mut c: usize = 0;
        let mut i: usize = 0;
        assert(steps.subrange(0, 0) =~= Seq::<Step>::empty());
        while i < self.steps.len()
            invariant
                i <= steps.len(),
                steps == self.steps@,
                c == pcount(steps.subrange(0, i as int)),
                c <= i,
            decreases steps.len() - i,
        {
            assert(steps.subrange(0, i + 1).drop_last() =~= steps.subrange(0, i as int));
            match &self.steps[i] {
                Step::Field(f) => if matches!(f.kind, FieldKind::Persistent) {
                    c = c + 1;
                },
                Step::Directive(_) => {},
            }
            i = i + 1;
        }
        assert(steps.subrange(0, steps.len() as int) =~= steps);
        c
    }

    /// Binds each of the record's values at its field's entry position.
    fn place_values(&self, rec: &Vec<Value>) -> (b: Bindings)
        requires
            rec@.len() == pcount(self.steps@),
        ensures
            b.model() == place(self.steps@, models(rec@)),
    {
        let ghost steps = self.steps@;
        let ghost full = place(steps, models(rec@));
        let mut b = Bindings::new();
        let mut j: usize = 0;
        let mut i: usize = 0;
        let len = rec.len();
        assert(steps.subrange(0, 0) =~= Seq::<Step>::empty());
        while i < self.steps.len()
            invariant
                i <= steps.len(),
                len == rec@.len(),
                steps == self.steps@,
                full == place(steps, models(rec@)),
                rec@.len() == pcount(steps),
                j == pcount(steps.subrange(0, i as int)),
                b.model() == full.subrange(0, i as int),
            decreases steps.len() - i,
        {
            assert(steps.subrange(0, i + 1).drop_last() =~= steps.subrange(0, i as int));
            assert(steps.subrange(0, i + 1).last() == steps[i as int]);
            proof {
                lemma_pcount_prefix(steps, i as int + 1);
            }
            let slot = match &self.steps[i] {
                Step::Field(f) => if matches!(f.kind, FieldKind::Persistent) {
                    assert(is_persistent(steps[i as int]));
                    assert(pcount(steps.subrange(0, i + 1)) == j + 1);
                    let v = rec[j].duplicate();
                    j = j + 1;
                    Some(v)
                } else {
                    None
                },
                Step::Directive(_) => None,
            };
            b.push(slot);
            assert(b.model() =~= full.subrange(0, i + 1));
            i = i + 1;
        }
        assert(full.subrange(0, steps.len() as int) =~= full);
        b
    }

    /// Encodes a record given as its persistent values in declared order.
    /// Temporaries are computed first; then the entries are written in order,
    /// except fields that decoding recomputes.
    pub fn encode_with(&self, rec: &Vec<Value>, writer: &mut Writer, ctx: EndianContext) -> (r: Result<(), EncodeError>)
        requires
            self.wf(),
            self.accepts(ctx),
        ensures
            match encode_spec(self.steps@, ctx, models(rec@)) {
                Ok(b) => r is Ok && final(writer)@ == old(writer)@ + b,
                Err(e) => r == Err::<(), EncodeError>(e),
            },
    {
        let ghost steps = self.steps@;
        if rec.len() != self.field_count() {
            return Err(EncodeError::InvalidData("record"));
        }
        let mut b = self.place_values(rec);
        let n = self.steps.len();
        let mut i: usize = 0;
        while i < n
            invariant
                i <= n,
                n == steps.len(),
                steps == self.steps@,
                b.model().len() == n,
                self.wf(),
                rec@.len() == pcount(steps),
                fill_temps(steps, place(steps, models(rec@)), 0) == fill_temps(steps, b.model(), i as nat),
            decreases n - i,
        {
            match &self.steps[i] {
                Step::Field(f) => if matches!(f.kind, FieldKind::Temporary) {
                    let e = match f.compute {
                        Some(e) => e,
                        None => {
                            return Err(EncodeError::InvalidArgument("temporary", "no value"));
                        },
                    };
                    match evaluate(e, &b) {
                        Some(v) => {
                            if !f.ty.check(&v) {
                                return Err(EncodeError::InvalidArgument("temporary", "value of the wrong type"));
                            }
                            b.set(i, Some(v));
                        },
                        None => {
                            assert(fill_temps(steps, b.model(), i as nat) == Err::<Env, EncodeError>(EncodeError::InvalidArgument("temporary", "cannot be computed")));
                            return Err(EncodeError::InvalidArgument("temporary", "cannot be computed"));
                        },
                    }
                },
                Step::Directive(_) => {},
            }
            i = i + 1;
        }
        let ghost env = b.model();
        let ghost start = writer@;
        let mut k: usize = 0;
        assert(steps.subrange(0, n as int) =~= steps);
        assert(env.subrange(0, n as int) =~= env);
        assert(start =~= start + Seq::<u8>::empty());
        while k < n
            invariant
                k <= n,
                n == steps.len(),
                steps == self.steps@,
                self.wf(),
                self.accepts(ctx),
                env == b.model(),
                env.len() == n,
                encode_spec(steps, ctx, models(rec@)) == encode_steps(steps, env, ctx),
                start == old(writer)@,
                writer@.len() >= start.len(),
                encode_steps(steps, env, ctx) == after(
                    writer@.subrange(start.len() as int, writer@.len() as int),
                    encode_steps(steps.subrange(k as int, n as int), env.subrange(k as int, n as int), ctx),
                ),
                writer@ == start + writer@.subrange(start.len() as int, writer@.len() as int),
            decreases n - k,
        {
            let ghost rs = steps.subrange(k as int, n as int);
            let ghost re = env.subrange(k as int, n as int);
            let ghost w0 = writer@;
            assert(rs[0] == steps[k as int]);
            assert(re[0] == env[k as int]);
            assert(rs.drop_first() =~= steps.subrange(k + 1, n as int));
            assert(re.drop_first() =~= env.subrange(k + 1, n as int));
            proof {
                assert(self.steps@[k as int] matches Step::Field(f) ==> field_wf(f, self.scoped));
            }
            assert(env[k as int] == opt_model(b.slots@[k as int]));
            let res = encode_step_exec(&self.steps[k], &b.slots[k], ctx, writer, self.scoped);
            match res {
                Ok(()) => {
                    proof {
                        let written = w0.subrange(start.len() as int, w0.len() as int);
                        let sb = encode_step(steps[k as int], env[k as int], ctx)->Ok_0;
                        assert(writer@ == w0 + sb);
                        assert(writer@.subrange(start.len() as int, writer@.len() as int) =~= written + sb);
                        assert(writer@ =~= start + writer@.subrange(start.len() as int, writer@.len() as int));
                        let tail = encode_steps(steps.subrange(k + 1, n as int), env.subrange(k + 1, n as int), ctx);
                        assert(encode_steps(rs, re, ctx) == after(sb, tail));
                        match tail {
                            Ok(rb) => {
                                assert(written + (sb + rb) =~= (written + sb) + rb);
                            },
                            Err(_) => {},
                        }
                    }
                    k = k + 1;
                },
                Err(e) => {
                    assert(encode_steps(rs, re, ctx) == Err::<Seq<u8>, EncodeError>(e));
                    return Err(e);
                },
            }
        }
        proof {
            assert(steps.subrange(n as int, n as int) =~= Seq::<Step>::empty());
            assert(writer@.subrange(start.len() as int, writer@.len() as int) + Seq::<u8>::empty()
                =~= writer@.subrange(start.len() as int, writer@.len() as int));
        }
        Ok(())
    }
}

pub proof fn lemma_pcount_prefix(steps: Seq<Step>, i: int)
    requires
        0 <= i <= steps.len(),
    ensures
        pcount(steps.subrange(0, i)) <= pcount(steps),
    decreases steps.len() - i,
{
    if i < steps.len() {
        lemma_pcount_prefix(steps, i + 1);
        assert(steps.subrange(0, i + 1).drop_last() =~= steps.subrange(0, i));
    } else {
        assert(steps.subrange(0, i) =~= steps);
    }
}

impl Plan {
    /// Decodes a record that does not take its byte order from a caller.
    pub fn decode(&self, reader: &mut Reader) -> (r: Result<Vec<Value>, DecodeError>)
        requires
            self.wf(),
            !self.scoped,
        ensures
            match decode_spec(self.steps@, EndianContext::NotApplicable(NoEndian), old(reader)@) {
                Ok((rec, rest)) => r matches Ok(v) && models(v@) == rec && final(reader)@ == rest,
                Err(e) => r matches Err(x) && x.agrees(e),
            },
    {
        self.decode_with(reader, EndianContext::NotApplicable(NoEndian))
    }

    /// Encodes a record that does not take its byte order from a caller.
    pub fn encode(&self, rec: &Vec<Value>, writer: &mut Writer) -> (r: Result<(), EncodeError>)
        requires
            self.wf(),
            !self.scoped,
        ensures
            match encode_spec(self.steps@, EndianContext::NotApplicable(NoEndian), models(rec@)) {
                Ok(b) => r is Ok && final(writer)@ == old(writer)@ + b,
                Err(e) => r == Err::<(), EncodeError>(e),
            },
    {
        self.encode_with(rec, writer, EndianContext::NotApplicable(NoEndian))
    }

    /// Decodes a record from `bytes`, which it must use up exactly.
    pub fn decode_exact(&self, bytes: Vec<u8>) -> (r: Result<Vec<Value>, DecodeError>)
        requires
            self.wf(),
            !self.scoped,
        ensures
            match decode_spec(self.steps@, EndianContext::NotApplicable(NoEndian), bytes@) {
                Ok((rec, rest)) => if rest.len() == 0 {
                    r matches Ok(v) && models(v@) == rec
                } else {
                    r matches Err(DecodeError::SuperfluousBytes(b)) && b@ == rest
                },
                Err(e) => r matches Err(x) && x.agrees(e),
            },
    {
        let mut reader = Reader::new(bytes);
        let rec = self.decode(&mut reader)?;
        reader.expect_end()?;
        Ok(rec)
    }
}

} // verus!
