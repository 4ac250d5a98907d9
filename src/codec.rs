//! Codecs of plain data, sequences and text over a byte source or sink.

use vstd::prelude::*;
use vstd::utf8::*;
use crate::args::{ElementArgs, MappedVecArgs, StrArgs, VecArgs};
use crate::endian::{Endian, EndianContext};
use crate::plain::{Prim, Scalar, lemma_scalar_round_trip, lemma_bytes_of_value_of};
use crate::stream::{DecodeError, EncodeError, Reader, Writer};

verus! {

/// The bytes of the parts, one after another.
pub open spec fn concat(parts: Seq<Seq<u8>>) -> Seq<u8>
    decreases parts.len(),
{
    if parts.len() == 0 {
        Seq::empty()
    } else {
        concat(parts.drop_last()) + parts.last()
    }
}

/// Decodes a number of the given kind in the given byte order.
pub fn decode_scalar(reader: &mut Reader, kind: Prim, endian: Endian) -> (r: Result<Scalar, DecodeError>)
    ensures
        ({
            let input = old(reader)@;
            let n = kind.size();
            &&& n <= input.len() ==> (r matches Ok(s) && s.kind() == kind
                && input == s.spec_to_bytes(endian) + final(reader)@
                && final(reader)@ == input.subrange(n as int, input.len() as int)
                && s == Scalar::spec_from_bytes(kind, input.subrange(0, n as int), endian))
            &&& n > input.len() ==> r == Err::<Scalar, DecodeError>(
                DecodeError::IncompleteData { context: kind.spec_name(), needed: n as usize, available: input.len() as usize },
            ) && final(reader)@ == input
        }),
{
    let ghost input = reader@;
    let bytes = reader.read_exact(kind.width(), kind.name())?;
    let s = Scalar::from_bytes(kind, bytes.as_slice(), endian);
    proof {
        lemma_bytes_of_value_of(bytes@, endian);
        assert(input =~= bytes@ + reader@);
    }
    Ok(s)
}

/// Encodes a number in the given byte order.
pub fn encode_scalar(writer: &mut Writer, s: Scalar, endian: Endian)
    ensures
        final(writer)@ == old(writer)@ + s.spec_to_bytes(endian),
{
    let b = s.to_bytes(endian);
    writer.write_all(b.as_slice());
}

/// The kind of an element of a sequence.
#[derive(Debug, Clone, Copy, PartialEq, Eq, Structural)]
pub enum ElemType {
    /// A number whose byte order comes from the context or its argument.
    Plain(Prim),
    /// A number that is always little-endian.
    Le(Prim),
    /// A number that is always big-endian.
    Be(Prim),
}

impl ElemType {
    pub open spec fn prim(self) -> Prim {
        match self {
            ElemType::Plain(p) => p,
            ElemType::Le(p) => p,
            ElemType::Be(p) => p,
        }
    }

    /// Whether the element can be coded in the context with the argument.
    pub open spec fn fits(self, ctx: EndianContext, arg: Option<Endian>) -> bool {
        self is Plain ==> (arg is Some || ctx is Explicit)
    }

    /// The byte order of an element: fixed by its kind, else its argument,
    /// else the byte order in scope.
    pub open spec fn order(self, ctx: EndianContext, arg: Option<Endian>) -> Endian {
        match self {
            ElemType::Le(_) => Endian::Little,
            ElemType::Be(_) => Endian::Big,
            ElemType::Plain(_) => match arg {
                Some(e) => e,
                None => match ctx {
                    EndianContext::Explicit(e) => e,
                    EndianContext::NotApplicable(_) => Endian::Little,
                },
            },
        }
    }

    /// The kind of the element's number.
    pub fn kind(self) -> (r: Prim)
        ensures
            r == self.prim(),
    {
        match self {
            ElemType::Plain(p) => p,
            ElemType::Le(p) => p,
            ElemType::Be(p) => p,
        }
    }

    /// The byte order of an element.
    pub fn byte_order(self, ctx: EndianContext, arg: Option<Endian>) -> (r: Endian)
        ensures
            r == self.order(ctx, arg),
    {
        match self {
            ElemType::Le(_) => Endian::Little,
            ElemType::Be(_) => Endian::Big,
            ElemType::Plain(_) => match arg {
                Some(e) => e,
                None => match ctx {
                    EndianContext::Explicit(e) => e,
                    EndianContext::NotApplicable(_) => Endian::Little,
                },
            },
        }
    }
}

/// Whether each element of the sequence fits its context and argument.
pub open spec fn args_fit(elem: ElemType, ctx: EndianContext, args: ElementArgs<Option<Endian>>, n: nat) -> bool {
    forall|i: int| 0 <= i < n && args.has(i) ==> elem.fits(ctx, #[trigger] args.at(i))
}

/// The bytes of the numbers, the `i`-th in the byte order `orders[i]`.
pub open spec fn seq_bytes(v: Seq<Scalar>, orders: Seq<Endian>) -> Seq<u8> {
    concat(Seq::new(v.len(), |i: int| v[i].spec_to_bytes(orders[i])))
}

/// The byte orders of the first `n` elements of a sequence.
pub open spec fn elem_orders(elem: ElemType, ctx: EndianContext, args: ElementArgs<Option<Endian>>, n: nat) -> Seq<Endian> {
    Seq::new(n, |i: int| elem.order(ctx, args.at(i)))
}

/// The numbers of a kind take that kind's size each.
pub proof fn lemma_seq_bytes_len(v: Seq<Scalar>, orders: Seq<Endian>, p: Prim)
    requires
        v.len() <= orders.len(),
        all_of_kind(v, p),
    ensures
        seq_bytes(v, orders).len() == v.len() * p.size(),
    decreases v.len(),
{
    if v.len() > 0 {
        let a = v.drop_last();
        lemma_seq_bytes_len(a, orders, p);
        assert(a.push(v.last()) =~= v);
        lemma_seq_bytes_push(a, orders, v.last());
        crate::plain::lemma_bytes_of_len(v.last().bits(), p.size(), orders[a.len() as int]);
        assert(v.len() * p.size() == a.len() * p.size() + p.size()) by (nonlinear_arith)
            requires v.len() == a.len() + 1;
    } else {
        assert(seq_bytes(v, orders) =~= Seq::<u8>::empty());
    }
}

/// Numbers of one kind are determined by their bytes.
pub proof fn lemma_seq_bytes_injective(v1: Seq<Scalar>, v2: Seq<Scalar>, orders: Seq<Endian>, p: Prim)
    requires
        v1.len() == v2.len(),
        v1.len() <= orders.len(),
        all_of_kind(v1, p),
        all_of_kind(v2, p),
        seq_bytes(v1, orders) == seq_bytes(v2, orders),
    ensures
        v1 == v2,
    decreases v1.len(),
{
    if v1.len() == 0 {
        assert(v1 =~= v2);
    } else {
        let a1 = v1.drop_last();
        let a2 = v2.drop_last();
        let k = a1.len() as int;
        assert(a1.push(v1.last()) =~= v1);
        assert(a2.push(v2.last()) =~= v2);
        lemma_seq_bytes_push(a1, orders, v1.last());
        lemma_seq_bytes_push(a2, orders, v2.last());
        lemma_seq_bytes_len(a1, orders, p);
        lemma_seq_bytes_len(a2, orders, p);
        let x1 = seq_bytes(a1, orders);
        let x2 = seq_bytes(a2, orders);
        let y1 = v1.last().spec_to_bytes(orders[k]);
        let y2 = v2.last().spec_to_bytes(orders[k]);
        assert((x1 + y1).subrange(0, x1.len() as int) =~= x1);
        assert((x2 + y2).subrange(0, x2.len() as int) =~= x2);
        assert((x1 + y1).subrange(x1.len() as int, (x1 + y1).len() as int) =~= y1);
        assert((x2 + y2).subrange(x2.len() as int, (x2 + y2).len() as int) =~= y2);
        lemma_seq_bytes_injective(a1, a2, orders, p);
        lemma_scalar_round_trip(v1.last(), orders[k]);
        lemma_scalar_round_trip(v2.last(), orders[k]);
        assert(v1 =~= v2);
    }
}

/// The encoding of the elements, each in its own byte order.
pub open spec fn seq_encoding(
    elem: ElemType,
    ctx: EndianContext,
    args: ElementArgs<Option<Endian>>,
    v: Seq<Scalar>,
) -> Seq<u8> {
    seq_bytes(v, elem_orders(elem, ctx, args, v.len()))
}

/// Appending a number appends its bytes.
pub proof fn lemma_seq_bytes_push(v: Seq<Scalar>, orders: Seq<Endian>, s: Scalar)
    requires
        v.len() < orders.len(),
    ensures
        seq_bytes(v.push(s), orders) == seq_bytes(v, orders) + s.spec_to_bytes(orders[v.len() as int]),
{
    let parts = Seq::new(v.push(s).len(), |i: int| v.push(s)[i].spec_to_bytes(orders[i]));
    assert(parts.drop_last() =~= Seq::new(v.len(), |i: int| v[i].spec_to_bytes(orders[i])));
}

/// Whether the elements all are of the element kind.
pub open spec fn all_of_kind(v: Seq<Scalar>, p: Prim) -> bool {
    forall|i: int| 0 <= i < v.len() ==> (#[trigger] v[i]).kind() == p
}

pub proof fn lemma_seq_encoding_push(
    elem: ElemType,
    ctx: EndianContext,
    args: ElementArgs<Option<Endian>>,
    v: Seq<Scalar>,
    s: Scalar,
)
    ensures
        seq_encoding(elem, ctx, args, v.push(s)) == seq_encoding(elem, ctx, args, v)
            + s.spec_to_bytes(elem.order(ctx, args.at(v.len() as int))),
{
    let o1 = elem_orders(elem, ctx, args, v.len() + 1);
    let o0 = elem_orders(elem, ctx, args, v.len());
    lemma_seq_bytes_push(v, o1, s);
    let parts1 = Seq::new(v.len(), |i: int| v[i].spec_to_bytes(o1[i]));
    let parts0 = Seq::new(v.len(), |i: int| v[i].spec_to_bytes(o0[i]));
    assert(parts1 =~= parts0);
}

/// Decodes a sequence with one element per argument; the first element that
/// fails ends decoding with its error.
pub fn decode_seq(reader: &mut Reader, elem: ElemType, ctx: EndianContext, args: &VecArgs<Option<Endian>>) -> (r: Result<Vec<Scalar>, DecodeError>)
    requires
        args.element_args is List,
        args_fit(elem, ctx, args.element_args, args.element_args->List_0@.len()),
    ensures
        ({
            let n = args.element_args->List_0@.len() as int;
            let input = old(reader)@;
            &&& n * (elem.prim().size() as int) <= input.len() ==> (r matches Ok(v) && v@.len() == n
                && all_of_kind(v@, elem.prim())
                && input == seq_encoding(elem, ctx, args.element_args, v@) + final(reader)@)
            &&& n * (elem.prim().size() as int) > input.len() ==> {
                let w = elem.prim().size() as int;
                let left = (input.len() as int) % w;
                &&& r == Err::<Vec<Scalar>, DecodeError>(
                    DecodeError::IncompleteData {
                        context: elem.prim().spec_name(),
                        needed: w as usize,
                        available: left as usize,
                    },
                )
                &&& final(reader)@ == input.subrange(input.len() - left, input.len() as int)
            }
        }),
{
    let ghost input = reader@;
    let ghost w = elem.prim().size();
    let list = match &args.element_args {
        ElementArgs::List(l) => l,
        ElementArgs::Repeat(_) => {
            proof {
                assert(false);
            }
            return Ok(Vec::new());
        },
    };
    let n = list.len();
    let kind = elem.kind();
    let mut v: Vec<Scalar> = Vec::new();
    let mut i: usize = 0;
    proof {
        assert(seq_encoding(elem, ctx, args.element_args, v@) =~= Seq::<u8>::empty());
        assert(input =~= Seq::<u8>::empty() + reader@);
    }
    while i < n
        invariant
            i <= n,
            input == old(reader)@,
            n == list@.len(),
            args.element_args == ElementArgs::List(*list),
            v@.len() == i,
            all_of_kind(v@, kind),
            kind == elem.prim(),
            w == kind.size(),
            input == seq_encoding(elem, ctx, args.element_args, v@) + reader@,
            input.len() == i * w + reader@.len(),
        decreases n - i,
    {
        let ghost before = reader@;
        let e = elem.byte_order(ctx, list[i]);
        match decode_scalar(reader, kind, e) {
            Ok(s) => {
                proof {
                    lemma_seq_encoding_push(elem, ctx, args.element_args, v@, s);
                    assert(input =~= seq_encoding(elem, ctx, args.element_args, v@.push(s)) + reader@);
                    assert((i + 1) * w == i * w + w) by (nonlinear_arith);
                    crate::plain::lemma_bytes_of_len(s.bits(), w, e);
                }
                v.push(s);
                i = i + 1;
            },
            Err(err) => {
                proof {
                    assert(w > before.len());
                    assert(n * w >= (i + 1) * w) by (nonlinear_arith)
                        requires i < n;
                    assert((i + 1) * w == i * w + w) by (nonlinear_arith);
                    assert(input.len() < n * w);
                    assert(n == args.element_args->List_0@.len());
                    vstd::arithmetic::div_mod::lemma_fundamental_div_mod_converse(
                        input.len() as int,
                        w as int,
                        i as int,
                        before.len() as int,
                    );
                    assert(input.len() - before.len() == i * w);
                    assert(before =~= input.subrange(input.len() - before.len(), input.len() as int));
                }
                return Err(err);
            },
        }
    }
    Ok(v)
}

/// How many of `n` elements have an argument.
pub open spec fn covered<A>(e: ElementArgs<A>, n: nat) -> nat {
    match e {
        ElementArgs::List(l) => if l@.len() < n {
            l@.len()
        } else {
            n
        },
        ElementArgs::Repeat(_) => n,
    }
}

/// Decodes a sequence as [`decode_seq`] does, then transforms each element
/// with the installed transform, in order.
pub fn decode_seq_mapped<U, F: Fn(Scalar) -> U>(reader: &mut Reader, elem: ElemType, ctx: EndianContext, args: &MappedVecArgs<Option<Endian>, F>) -> (r: Result<Vec<U>, DecodeError>)
    requires
        args.args.element_args is List,
        args_fit(elem, ctx, args.args.element_args, args.args.element_args->List_0@.len()),
        forall|s: Scalar| args.transform.requires((s,)),
    ensures
        ({
            let n = args.args.element_args->List_0@.len() as int;
            let input = old(reader)@;
            &&& n * (elem.prim().size() as int) <= input.len() ==> (r matches Ok(out) && out@.len() == n
                && exists|v: Seq<Scalar>| #[trigger] seq_encoding(elem, ctx, args.args.element_args, v) + final(reader)@ == input
                    && v.len() == n && all_of_kind(v, elem.prim())
                    && forall|i: int| 0 <= i < n ==> args.transform.ensures((v[i],), #[trigger] out@[i]))
            &&& n * (elem.prim().size() as int) > input.len() ==> {
                let w = elem.prim().size() as int;
                let left = (input.len() as int) % w;
                &&& r == Err::<Vec<U>, DecodeError>(
                    DecodeError::IncompleteData {
                        context: elem.prim().spec_name(),
                        needed: w as usize,
                        available: left as usize,
                    },
                )
                &&& final(reader)@ == input.subrange(input.len() - left, input.len() as int)
            }
        }),
{
    let v = decode_seq(reader, elem, ctx, &args.args)?;
    let mut out: Vec<U> = Vec::new();
    let mut i: usize = 0;
    while i < v.len()
        invariant
            i <= v@.len(),
            out@.len() == i,
            forall|s: Scalar| args.transform.requires((s,)),
            forall|k: int| 0 <= k < i ==> args.transform.ensures((v@[k],), #[trigger] out@[k]),
        decreases v@.len() - i,
    {
        let u = (args.transform)(v[i]);
        out.push(u);
        i = i + 1;
    }
    Ok(out)
}

/// Encodes the elements, each with the next argument. Where the arguments run
/// out first, fails after writing the elements that had one.
pub fn encode_seq(writer: &mut Writer, v: &[Scalar], elem: ElemType, ctx: EndianContext, args: &VecArgs<Option<Endian>>, tag: &'static str) -> (r: Result<(), EncodeError>)
    requires
        all_of_kind(v@, elem.prim()),
        args_fit(elem, ctx, args.element_args, v@.len()),
    ensures
        ({
            let e = args.element_args;
            let k = covered(e, v@.len());
            &&& final(writer)@ == old(writer)@ + seq_encoding(elem, ctx, e, v@.subrange(0, k as int))
            &&& k == v@.len() ==> r is Ok
            &&& k < v@.len() ==> r == Err::<(), EncodeError>(
                EncodeError::InvalidArgument(tag, "not enough arguments"),
            )
        }),
{
    let ghost start = writer@;
    let mut i: usize = 0;
    proof {
        assert(seq_encoding(elem, ctx, args.element_args, v@.subrange(0, 0)) =~= Seq::<u8>::empty());
        assert(start =~= start + Seq::<u8>::empty());
    }
    while i < v.len()
        invariant
            i <= v@.len(),
            start == old(writer)@,
            forall|k: int| 0 <= k < i ==> args.element_args.has(k),
            writer@ == start + seq_encoding(elem, ctx, args.element_args, v@.subrange(0, i as int)),
        decreases v@.len() - i,
    {
        match args.element_args.get(i) {
            Some(a) => {
                let e = elem.byte_order(ctx, a);
                encode_scalar(writer, v[i], e);
                proof {
                    lemma_seq_encoding_push(elem, ctx, args.element_args, v@.subrange(0, i as int), v@[i as int]);
                    assert(v@.subrange(0, i as int).push(v@[i as int]) =~= v@.subrange(0, i + 1));
                }
                i = i + 1;
            },
            None => {
                proof {
                    if i > 0 {
                        assert(args.element_args.has(i - 1));
                    }
                    if args.element_args is List {
                        assert(i == args.element_args->List_0@.len());
                    }
                    assert(covered(args.element_args, v@.len()) == i);

                }
                return Err(EncodeError::InvalidArgument(tag, "not enough arguments"));
            },
        }
    }
    proof {
        if args.element_args is List && args.element_args->List_0@.len() < v@.len() {
            assert(args.element_args.has(args.element_args->List_0@.len() as int));
        }
        assert(v@.subrange(0, v@.len() as int) =~= v@);
    }
    Ok(())
}

/// The length of the longest prefix of `b` that is valid UTF-8.
pub open spec fn utf8_valid_up_to(b: Seq<u8>) -> int {
    choose|k: int| 0 <= k <= b.len() && valid_utf8(b.subrange(0, k)) && forall|j: int|
        k < j <= b.len() ==> !valid_utf8(#[trigger] b.subrange(0, j))
}

/// A valid prefix with no longer valid prefix is the longest one.
pub proof fn lemma_utf8_valid_up_to(b: Seq<u8>, k: int)
    requires
        0 <= k <= b.len(),
        valid_utf8(b.subrange(0, k)),
        forall|j: int| k < j <= b.len() ==> !valid_utf8(#[trigger] b.subrange(0, j)),
    ensures
        utf8_valid_up_to(b) == k,
{
    let c = utf8_valid_up_to(b);
    assert(0 <= c <= b.len() && valid_utf8(b.subrange(0, c)) && forall|j: int|
        c < j <= b.len() ==> !valid_utf8(#[trigger] b.subrange(0, j)));
    if c < k {
        assert(!valid_utf8(b.subrange(0, k)));
    }
    if k < c {
        assert(!valid_utf8(b.subrange(0, c)));
    }
}

/// The length of the invalid sequence that follows the longest valid UTF-8
/// prefix of `b`, as `Utf8Error::error_len` reports it: `None` where `b` ends
/// inside a character.
pub uninterp spec fn utf8_error_len(b: Seq<u8>) -> Option<usize>;

/// The offending bytes of invalid UTF-8: the invalid sequence after the
/// longest valid prefix, or all bytes after that prefix where the input ends
/// inside a character.
pub open spec fn utf8_invalid_span(b: Seq<u8>) -> Seq<u8> {
    let k = utf8_valid_up_to(b);
    match utf8_error_len(b) {
        Some(e) => b.subrange(k, k + e),
        None => b.subrange(k, b.len() as int),
    }
}

/// How a byte sequence failed to be UTF-8: the length of its valid prefix,
/// and the length of the invalid sequence after it, if the input did not
/// simply end too early.
#[derive(Debug, Clone, Copy, PartialEq, Eq, Structural)]
pub struct Utf8Failure {
    pub valid_up_to: usize,
    pub error_len: Option<usize>,
}

/// Relies on `std::str::from_utf8`: it accepts exactly the valid UTF-8 byte
/// sequences and returns their text; on failure, `Utf8Error::valid_up_to` is
/// the largest index whose prefix is valid, and `Utf8Error::error_len` the length of
/// the invalid sequence that follows it, `None` where the input ended early.
#[verifier::external_body]
fn str_from_utf8(b: &[u8]) -> (r: Result<&str, Utf8Failure>)
    ensures
        r is Ok <==> valid_utf8(b@),
        r matches Ok(s) ==> encode_utf8(s@) == b@,
        r matches Err(f) ==> f.valid_up_to < b@.len() && valid_utf8(b@.subrange(0, f.valid_up_to as int)),
        r matches Err(f) ==> forall|j: int|
            f.valid_up_to < j <= b@.len() ==> !valid_utf8(#[trigger] b@.subrange(0, j)),
        r matches Err(f) ==> f.error_len == utf8_error_len(b@),
        r matches Err(f) ==> (f.error_len matches Some(k) ==> 1 <= k && f.valid_up_to + k <= b@.len()),
{
    match std::str::from_utf8(b) {
        Ok(s) => Ok(s),
        Err(e) => Err(Utf8Failure { valid_up_to: e.valid_up_to(), error_len: e.error_len() }),
    }
}

fn copy_range(b: &[u8], from: usize, to: usize) -> (r: Vec<u8>)
    requires
        from <= to <= b@.len(),
    ensures
        r@ == b@.subrange(from as int, to as int),
{
    vstd::slice::slice_to_vec(vstd::slice::slice_subrange(b, from, to))
}

/// Decodes `args.count` bytes of UTF-8 text. Invalid text is reported as its
/// valid prefix and the offending bytes, never altered.
pub fn decode_text(reader: &mut Reader, args: StrArgs) -> (r: Result<String, DecodeError>)
    ensures
        ({
            let input = old(reader)@;
            let n = args.count as int;
            &&& n > input.len() ==> r == Err::<String, DecodeError>(
                DecodeError::IncompleteData { context: "String", needed: args.count, available: input.len() as usize },
            )
            &&& n <= input.len() ==> final(reader)@ == input.subrange(n, input.len() as int)
            &&& n <= input.len() && valid_utf8(input.subrange(0, n)) ==> (r matches Ok(s)
                && s@ == decode_utf8(input.subrange(0, n))
                && input.subrange(0, n) == encode_utf8(s@))
            &&& n <= input.len() && !valid_utf8(input.subrange(0, n)) ==> (r matches Err(
                DecodeError::DecodeUtf8Error { valid_prefix, invalid_bytes },
            ) && {
                let k = encode_utf8(valid_prefix@).len() as int;
                &&& k == utf8_valid_up_to(input.subrange(0, n))
                &&& valid_prefix@ == decode_utf8(input.subrange(0, k))
                &&& encode_utf8(valid_prefix@) == input.subrange(0, k)
                &&& forall|j: int| k < j <= n ==> !valid_utf8(#[trigger] input.subrange(0, j))
                &&& invalid_bytes@ == utf8_invalid_span(input.subrange(0, n))
                &&& 0 < invalid_bytes@.len()
                &&& k + invalid_bytes@.len() <= n
                &&& invalid_bytes@ == input.subrange(k, k + invalid_bytes@.len())
            })
        }),
{
    let ghost input = reader@;
    let bytes = reader.read_exact(args.count, "String")?;
    match str_from_utf8(bytes.as_slice()) {
        Ok(s) => {
            let t = s.to_owned();
            proof {
                broadcast use vstd::utf8::encode_utf8_decode_utf8;
            }
            Ok(t)
        },
        Err(f) => {
            let end = match f.error_len {
                Some(k) => f.valid_up_to + k,
                None => bytes.len(),
            };
            let prefix = copy_range(bytes.as_slice(), 0, f.valid_up_to);
            let invalid = copy_range(bytes.as_slice(), f.valid_up_to, end);
            match str_from_utf8(prefix.as_slice()) {
                Ok(p) => {
                    let valid_prefix = p.to_owned();
                    proof {
                        broadcast use vstd::utf8::encode_utf8_decode_utf8;
                        assert(encode_utf8(valid_prefix@) == input.subrange(0, f.valid_up_to as int));
                        assert forall|j: int| f.valid_up_to < j <= args.count implies !valid_utf8(
                            #[trigger] input.subrange(0, j),
                        ) by {
                            assert(bytes@.subrange(0, j) =~= input.subrange(0, j));
                        }
                        let b = input.subrange(0, args.count as int);
                        let k = f.valid_up_to as int;
                        assert(b.subrange(0, k) =~= input.subrange(0, k));
                        assert forall|j: int| k < j <= b.len() implies !valid_utf8(#[trigger] b.subrange(0, j)) by {
                            assert(b.subrange(0, j) =~= input.subrange(0, j));
                        }
                        lemma_utf8_valid_up_to(b, k);
                        assert(bytes@ =~= b);
                    }
                    Err(DecodeError::DecodeUtf8Error { valid_prefix, invalid_bytes: invalid })
                },
                Err(_) => {
                    proof {
                        assert(false);
                    }
                    Err(DecodeError::InvalidData("String"))
                },
            }
        },
    }
}

/// Encodes the bytes of a text, with no length before them.
pub fn encode_text(writer: &mut Writer, s: &str)
    ensures
        final(writer)@ == old(writer)@ + encode_utf8(s@),
{
    writer.write_all(s.as_bytes());
}

} // verus!
