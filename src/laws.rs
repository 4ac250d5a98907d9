//! Properties that relate several operations of the library.

use vstd::prelude::*;
use vstd::utf8::*;
use crate::codec::{all_of_kind, lemma_seq_bytes_injective, lemma_seq_bytes_len, seq_bytes};
use crate::data::PlainData;
use crate::endian::{Endian, EndianContext};
use crate::plain::{Scalar, lemma_scalar_round_trip};
use crate::record::{ArgsPlan, DecodeRule, EncodeRule, FieldPlan, Plan, Step, count_value, ctx_order, decode_len, decode_spec, decode_step, decode_steps, encode_spec, encode_step, encode_steps, field_ctx, field_wf, fill_temps, is_persistent, lemma_pcount_prefix, numbers_of, pcount, place, plan_orders, record_of};
use crate::schema::{apply_setters, finished, gather, initial_args, field_compiles, FieldDecl, EndianOption};
use crate::value::{Env, FieldType, ValueModel, eval};
use crate::stream::DecodeErrorModel;

verus! {

/// Whether every field is decoded with its codec, none computed from others.
pub open spec fn no_decode_overrides(steps: Seq<Step>) -> bool {
    forall|i: int| 0 <= i < steps.len() ==> (#[trigger] steps[i] matches Step::Field(f) ==> f.decode is Codec)
}

/// Whether each length that decoding reads agrees with the value encoded:
/// a count read from an earlier field equals the length of the sequence or
/// text that it counts.
pub open spec fn field_consistent(f: FieldPlan, prefix: Env, slot: Option<ValueModel>) -> bool {
    match (f.decode, slot) {
        (DecodeRule::Codec(ArgsPlan::Sequence(a)), Some(ValueModel::Sequence(xs))) => decode_len(a, prefix) == Some(xs.len()),
        (DecodeRule::Codec(ArgsPlan::Text(c)), Some(ValueModel::Text(t))) => count_value(c, prefix) == Some(encode_utf8(t).len()),
        _ => true,
    }
}

pub open spec fn consistent(steps: Seq<Step>, env: Env) -> bool {
    forall|i: int| 0 <= i < steps.len() ==> (#[trigger] steps[i] matches Step::Field(f) ==> field_consistent(
        f,
        env.subrange(0, i),
        env[i],
    ))
}

/// Whether encoding and decoding hand each element of a sequence the same
/// argument.
pub open spec fn field_symmetric(f: FieldPlan) -> bool {
    match (f.decode, f.encode) {
        (DecodeRule::Codec(ArgsPlan::Sequence(d)), EncodeRule::Codec(ArgsPlan::Sequence(e))) => forall|i: int|
            d.has(i) && e.has(i) ==> #[trigger] d.at(i) == e.at(i),
        _ => true,
    }
}

pub open spec fn symmetric(steps: Seq<Step>) -> bool {
    forall|i: int| 0 <= i < steps.len() ==> (#[trigger] steps[i] matches Step::Field(f) ==> field_symmetric(f))
}

proof fn lemma_step_round_trip(step: Step, slot: Option<ValueModel>, prefix: Env, ctx: EndianContext, scoped: bool, tail: Seq<u8>)
    requires
        step matches Step::Field(f) ==> field_wf(f, scoped) && f.decode is Codec
            && field_consistent(f, prefix, slot) && field_symmetric(f),
        step is Directive ==> slot is None,
        step is Field ==> slot is Some,
        encode_step(step, slot, ctx) is Ok,
    ensures
        decode_step(step, prefix, ctx, encode_step(step, slot, ctx)->Ok_0 + tail) == Ok::<(Option<ValueModel>, Seq<u8>), DecodeErrorModel>((slot, tail)),
{
    let b = encode_step(step, slot, ctx)->Ok_0;
    let input = b + tail;
    assert(input.subrange(0, b.len() as int) =~= b);
    assert(input.subrange(b.len() as int, input.len() as int) =~= tail);
    match step {
        Step::Directive(_) => {},
        Step::Field(f) => {
            let v = slot->Some_0;
            let fctx = field_ctx(f.endian, ctx);
            match f.ty {
                FieldType::Plain(p) => {
                    lemma_scalar_round_trip(v->Scalar_0, ctx_order(fctx));
                },
                FieldType::Le(p) => {
                    lemma_scalar_round_trip(v->Scalar_0, crate::endian::Endian::Little);
                },
                FieldType::Be(p) => {
                    lemma_scalar_round_trip(v->Scalar_0, crate::endian::Endian::Big);
                },
                FieldType::Sequence(elem) => {
                    let xs = v->Sequence_0;
                    let m = xs.len();
                    let d = f.decode->Codec_0->Sequence_0;
                    let e = f.encode->Codec_0->Sequence_0;
                    let od = plan_orders(elem, fctx, d, m);
                    let oe = plan_orders(elem, fctx, e, m);
                    assert(od =~= oe) by {
                        assert forall|i: int| 0 <= i < m implies od[i] == oe[i] by {
                            assert(d.has(i) && e.has(i));
                            assert(d.at(i) == e.at(i));
                        }
                    }
                    lemma_seq_bytes_len(xs, od, elem.prim());
                    let w = numbers_of(elem.prim(), od, b);
                    assert(w.len() == od.len() && all_of_kind(w, elem.prim()) && seq_bytes(w, od) == b);
                    lemma_seq_bytes_injective(w, xs, od, elem.prim());
                },
                FieldType::Text => {
                    let t = v->Text_0;
                    encode_utf8_valid_utf8(t);
                    encode_utf8_decode_utf8(t);
                },
                _ => {},
            }
        },
    }
}

proof fn lemma_steps_round_trip(steps: Seq<Step>, env: Env, ctx: EndianContext, scoped: bool, k: int, rest: Seq<u8>)
    requires
        0 <= k <= steps.len(),
        env.len() == steps.len(),
        forall|i: int| 0 <= i < steps.len() ==> (#[trigger] steps[i] matches Step::Field(f) ==> field_wf(f, scoped)),
        no_decode_overrides(steps),
        consistent(steps, env),
        symmetric(steps),
        forall|i: int| 0 <= i < steps.len() ==> (#[trigger] steps[i] is Directive ==> env[i] is None)
            && (steps[i] is Field ==> env[i] is Some),
        encode_steps(steps.subrange(k, steps.len() as int), env.subrange(k, env.len() as int), ctx) is Ok,
    ensures
        decode_steps(
            steps.subrange(k, steps.len() as int),
            env.subrange(0, k),
            ctx,
            encode_steps(steps.subrange(k, steps.len() as int), env.subrange(k, env.len() as int), ctx)->Ok_0 + rest,
        ) == Ok::<(Env, Seq<u8>), DecodeErrorModel>((env, rest)),
    decreases steps.len() - k,
{
    let n = steps.len() as int;
    let s = steps.subrange(k, n);
    let e = env.subrange(k, n);
    if k == n {
        assert(env.subrange(0, k) =~= env);
        assert(Seq::<u8>::empty() + rest =~= rest);
    } else {
        assert(s[0] == steps[k]);
        assert(e[0] == env[k]);
        assert(s.drop_first() =~= steps.subrange(k + 1, n));
        assert(e.drop_first() =~= env.subrange(k + 1, n));
        let b = encode_step(steps[k], env[k], ctx)->Ok_0;
        let r = encode_steps(steps.subrange(k + 1, n), env.subrange(k + 1, n), ctx)->Ok_0;
        lemma_steps_round_trip(steps, env, ctx, scoped, k + 1, rest);
        assert(steps[k] matches Step::Field(f) ==> field_wf(f, scoped));
        assert(steps[k] matches Step::Field(f) ==> field_consistent(f, env.subrange(0, k), env[k]));
        assert(steps[k] matches Step::Field(f) ==> field_symmetric(f));
        assert(steps[k] matches Step::Field(f) ==> f.decode is Codec);
        lemma_step_round_trip(steps[k], env[k], env.subrange(0, k), ctx, scoped, r + rest);
        assert((b + r) + rest =~= b + (r + rest));
        assert(env.subrange(0, k).push(env[k]) =~= env.subrange(0, k + 1));
    }
}

/// What computing the temporaries changes: only temporaries, each of which
/// then has a value.
proof fn lemma_fill_temps(steps: Seq<Step>, env: Env, i: nat)
    requires
        env.len() == steps.len(),
        fill_temps(steps, env, i) is Ok,
    ensures
        ({
            let out = fill_temps(steps, env, i)->Ok_0;
            &&& out.len() == steps.len()
            &&& forall|j: int| 0 <= j < i ==> out[j] == env[j]
            &&& forall|j: int| i <= j < steps.len() && !(#[trigger] steps[j] matches Step::Field(f) && f.kind is Temporary)
                ==> out[j] == env[j]
            &&& forall|j: int| i <= j < steps.len() && (#[trigger] steps[j] matches Step::Field(f) && f.kind is Temporary)
                ==> out[j] is Some
        }),
    decreases steps.len() - i,
{
    if i < steps.len() {
        match steps[i as int] {
            Step::Field(f) => if f.kind is Temporary {
                let v = eval(f.compute->Some_0, env)->Some_0;
                lemma_fill_temps(steps, env.update(i as int, Some(v)), i + 1);
            } else {
                lemma_fill_temps(steps, env, i + 1);
            },
            Step::Directive(_) => {
                lemma_fill_temps(steps, env, i + 1);
            },
        }
    }
}

/// The persistent values are read from persistent positions only.
proof fn lemma_record_of_agree(steps: Seq<Step>, e1: Env, e2: Env, i: int)
    requires
        0 <= i <= steps.len(),
        forall|j: int| 0 <= j < i && is_persistent(#[trigger] steps[j]) ==> e1[j] == e2[j],
    ensures
        record_of(steps.subrange(0, i), e1) == record_of(steps.subrange(0, i), e2),
    decreases i,
{
    if i > 0 {
        let pre = steps.subrange(0, i);
        assert(pre.drop_last() =~= steps.subrange(0, i - 1));
        assert(pre.last() == steps[i - 1]);
        lemma_record_of_agree(steps, e1, e2, i - 1);
    }
}

proof fn lemma_record_of_place(steps: Seq<Step>, rec: Seq<ValueModel>, i: int)
    requires
        0 <= i <= steps.len(),
        rec.len() == pcount(steps),
    ensures
        record_of(steps.subrange(0, i), place(steps, rec)) == rec.subrange(0, pcount(steps.subrange(0, i)) as int),
    decreases i,
{
    let env = place(steps, rec);
    if i == 0 {
        assert(rec.subrange(0, 0) =~= Seq::<ValueModel>::empty());
    } else {
        let pre = steps.subrange(0, i);
        assert(pre.drop_last() =~= steps.subrange(0, i - 1));
        assert(pre.last() == steps[i - 1]);
        lemma_record_of_place(steps, rec, i - 1);
        lemma_pcount_prefix(steps, i);
        if is_persistent(steps[i - 1]) {
            let c = pcount(steps.subrange(0, i - 1)) as int;
            assert(env[i - 1] == Some(rec[c]));
            assert(rec.subrange(0, c).push(rec[c]) =~= rec.subrange(0, c + 1));
        }
    }
}

/// The values bound while encoding a record: its persistent values at their
/// positions, then the temporaries computed from them.
pub open spec fn encode_env(steps: Seq<Step>, rec: Seq<ValueModel>) -> Env {
    fill_temps(steps, place(steps, rec), 0)->Ok_0
}

/// Round trip: decoding the bytes that a record encodes to gives the record
/// back and leaves what follows the bytes. It holds for layouts whose fields
/// are all decoded with their codecs, where each count read from a field
/// agrees with the length it counts, and where both directions give each
/// element of a sequence the same byte order.
pub proof fn lemma_round_trip(plan: Plan, ctx: EndianContext, rec: Seq<ValueModel>, rest: Seq<u8>)
    requires
        plan.wf(),
        plan.accepts(ctx),
        no_decode_overrides(plan.steps@),
        symmetric(plan.steps@),
        encode_spec(plan.steps@, ctx, rec) is Ok,
        consistent(plan.steps@, encode_env(plan.steps@, rec)),
    ensures
        decode_spec(plan.steps@, ctx, encode_spec(plan.steps@, ctx, rec)->Ok_0 + rest) == Ok::<(Seq<ValueModel>, Seq<u8>), DecodeErrorModel>((rec, rest)),
{
    let steps = plan.steps@;
    let env0 = place(steps, rec);
    let env = encode_env(steps, rec);
    lemma_fill_temps(steps, env0, 0);
    assert(steps.subrange(0, steps.len() as int) =~= steps);
    assert(env.subrange(0, env.len() as int) =~= env);
    assert(env.subrange(0, 0) =~= Seq::<Option<ValueModel>>::empty());
    assert forall|i: int| 0 <= i < steps.len() implies (#[trigger] steps[i] is Directive ==> env[i] is None)
        && (steps[i] is Field ==> env[i] is Some) by {
        if !(steps[i] matches Step::Field(f) && f.kind is Temporary) {
            assert(env[i] == env0[i]);
        }
    }
    assert forall|i: int| 0 <= i < steps.len() implies (#[trigger] steps[i] matches Step::Field(f) ==> field_wf(f, plan.scoped)) by {
        assert(plan.steps@[i] matches Step::Field(f) ==> field_wf(f, plan.scoped));
    }
    lemma_steps_round_trip(steps, env, ctx, plan.scoped, 0, rest);
    assert forall|j: int| 0 <= j < steps.len() && is_persistent(#[trigger] steps[j]) implies env[j] == env0[j] by {
        assert(!(steps[j] matches Step::Field(f) && f.kind is Temporary));
    }
    lemma_record_of_agree(steps, env, env0, steps.len() as int);
    lemma_record_of_place(steps, rec, steps.len() as int);
    assert(rec.subrange(0, rec.len() as int) =~= rec);
}

/// A field whose builder is left with a required argument unset does not
/// compile, so no decoding or encoding can start with it.
pub proof fn lemma_unfinished_builder_rejected(fd: FieldDecl, record: Option<EndianOption>)
    requires
        gather(fd.options@).decode is None,
        !finished(apply_setters(initial_args(fd.ty, true), gather(fd.options@).dec))
            || !finished(apply_setters(initial_args(fd.ty, false), gather(fd.options@).enc)),
    ensures
        !field_compiles(fd, record),
{
}

/// A number of a plain-data type takes exactly the type's size in bytes,
/// and reading those bytes back in the same byte order gives the number.
pub proof fn lemma_plain_round_trip<T: PlainData>(v: T, w: T, e: Endian)
    requires
        w.as_scalar() == Scalar::spec_from_bytes(T::kind(), v.as_scalar().spec_to_bytes(e), e),
    ensures
        v.as_scalar().spec_to_bytes(e).len() == T::kind().size(),
        w == v,
{
    T::lemma_as_scalar(v, w);
    lemma_scalar_round_trip(v.as_scalar(), e);
    T::lemma_as_scalar(w, v);
}

} // verus!
