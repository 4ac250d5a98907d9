//! Projected views: encode-only stand-ins for a sequence, computed from a
//! borrowed slice element by element.

use vstd::prelude::*;
use vstd::utf8::encode_utf8;
use crate::args::VecArgs;
use crate::codec::{ElemType, all_of_kind, args_fit, concat, covered, encode_scalar, encode_seq, encode_text, lemma_seq_encoding_push, seq_encoding};
use crate::endian::{Endian, EndianContext};
use crate::plain::Scalar;
use crate::stream::{EncodeError, Writer};

verus! {

/// A view of a slice with every element projected to a number by `P`. It
/// owns no data, and can be encoded wherever a sequence of numbers can.
pub struct SliceView<'a, T, P> {
    pub base_slice: &'a [T],
    pub projector: P,
}

impl<'a, T, P: Fn(&T) -> Scalar> SliceView<'a, T, P> {
    /// The slice viewed.
    pub open spec fn base(&self) -> Seq<T> {
        self.base_slice@
    }

    /// The projection.
    pub open spec fn projection(&self) -> P {
        self.projector
    }

    /// Whether `p` holds the projections of the slice's elements, in order.
    pub open spec fn projects_to(&self, p: Seq<Scalar>) -> bool {
        &&& p.len() == self.base().len()
        &&& forall|i: int| 0 <= i < p.len() ==> self.projection().ensures((&self.base()[i],), #[trigger] p[i])
    }

    /// A view of `base_slice` through `projector`.
    pub fn new(base_slice: &'a [T], projector: P) -> (r: Self)
        ensures
            r.base() == base_slice@,
            r.projection() == projector,
    {
        SliceView { base_slice, projector }
    }

    /// The projected elements, in order.
    pub fn project(&self) -> (r: Vec<Scalar>)
        requires
            forall|x: &T| self.projection().requires((x,)),
        ensures
            self.projects_to(r@),
    {
        let mut r: Vec<Scalar> = Vec::new();
        let mut i: usize = 0;
        while i < self.base_slice.len()
            invariant
                i <= self.base_slice@.len(),
                r@.len() == i,
                forall|x: &T| self.projection().requires((x,)),
                forall|k: int| 0 <= k < i ==> self.projection().ensures((&self.base()[k],), #[trigger] r@[k]),
            decreases self.base_slice@.len() - i,
        {
            let xr = &self.base_slice[i];
            assert(self.projection().requires((xr,)));
            let x = (self.projector)(xr);
            r.push(x);
            i = i + 1;
        }
        r
    }

    /// Encodes the projected elements as a sequence would be: one argument
    /// per element, failing where the arguments run out first.
    pub fn encode_with(&self, writer: &mut Writer, elem: ElemType, ctx: EndianContext, args: &VecArgs<Option<Endian>>) -> (r: Result<(), EncodeError>)
        requires
            forall|x: &T| self.projection().requires((x,)),
            forall|x: &T, s: Scalar| self.projection().ensures((x,), s) ==> s.kind() == elem.prim(),
            args_fit(elem, ctx, args.element_args, self.base().len()),
        ensures
            exists|p: Seq<Scalar>| {
                let k = covered(args.element_args, p.len());
                &&& #[trigger] self.projects_to(p)
                &&& final(writer)@ == old(writer)@ + seq_encoding(elem, ctx, args.element_args, p.subrange(0, k as int))
                &&& k == p.len() ==> r is Ok
                &&& k < p.len() ==> r == Err::<(), EncodeError>(
                    EncodeError::InvalidArgument("SliceView", "not enough arguments"),
                )
            },
    {
        let p = self.project();
        proof {
            assert(all_of_kind(p@, elem.prim()));
        }
        let r = encode_seq(writer, p.as_slice(), elem, ctx, args, "SliceView");
        assert(self.projects_to(p@));
        r
    }
}

/// A view of a slice with every element projected, by `P`, to a value it
/// holds: a number or a text. It owns no data and copies nothing: encoding
/// writes each projected value straight from the slice.
pub struct SliceViewRef<'a, T, P> {
    pub base_slice: &'a [T],
    pub projector: P,
}

impl<'a, T, P> SliceViewRef<'a, T, P> {
    /// The slice viewed.
    pub open spec fn base(&self) -> Seq<T> {
        self.base_slice@
    }

    /// The projection.
    pub open spec fn projection(&self) -> P {
        self.projector
    }

}

impl<'a, T, P: Fn(&T) -> &Scalar> SliceViewRef<'a, T, P> {
    /// A view of `base_slice` through `projector`, which picks a number out
    /// of each element.
    pub fn new(base_slice: &'a [T], projector: P) -> (r: Self)
        ensures
            r.base() == base_slice@,
            r.projection() == projector,
    {
        SliceViewRef { base_slice, projector }
    }

    /// Whether `p` holds the numbers the first `p.len()` elements project to.
    pub open spec fn projects_prefix(&self, p: Seq<Scalar>) -> bool {
        &&& p.len() <= self.base().len()
        &&& forall|i: int| 0 <= i < p.len() ==> self.projection().ensures((&self.base()[i],), &#[trigger] p[i])
    }

    /// Copies of the numbers the elements project to, in order.
    pub fn project(&self) -> (r: Vec<Scalar>)
        requires
            forall|x: &T| self.projection().requires((x,)),
        ensures
            r@.len() == self.base().len(),
            self.projects_prefix(r@),
    {
        let mut r: Vec<Scalar> = Vec::new();
        let mut i: usize = 0;
        while i < self.base_slice.len()
            invariant
                i <= self.base_slice@.len(),
                r@.len() == i,
                forall|x: &T| self.projection().requires((x,)),
                forall|k: int| 0 <= k < i ==> self.projection().ensures((&self.base()[k],), &#[trigger] r@[k]),
            decreases self.base_slice@.len() - i,
        {
            let xr = &self.base_slice[i];
            assert(self.projection().requires((xr,)));
            let x = (self.projector)(xr);
            r.push(*x);
            i = i + 1;
        }
        r
    }

    /// Encodes the projected numbers as a sequence would be, one argument
    /// per element, straight from the slice. Where the arguments run out
    /// first, fails after writing the elements that had one.
    pub fn encode_with(&self, writer: &mut Writer, elem: ElemType, ctx: EndianContext, args: &VecArgs<Option<Endian>>) -> (r: Result<(), EncodeError>)
        requires
            forall|x: &T| self.projection().requires((x,)),
            forall|x: &T, s: &Scalar| self.projection().ensures((x,), s) ==> s.kind() == elem.prim(),
            args_fit(elem, ctx, args.element_args, self.base().len()),
        ensures
            exists|p: Seq<Scalar>| {
                let k = covered(args.element_args, self.base().len());
                &&& #[trigger] self.projects_prefix(p)
                &&& p.len() == k
                &&& final(writer)@ == old(writer)@ + seq_encoding(elem, ctx, args.element_args, p)
                &&& k == self.base().len() ==> r is Ok
                &&& k < self.base().len() ==> r == Err::<(), EncodeError>(
                    EncodeError::InvalidArgument("SliceViewRef", "not enough arguments"),
                )
            },
    {
        let ghost start = writer@;
        let ghost mut p: Seq<Scalar> = Seq::empty();
        let n = self.base_slice.len();
        let mut i: usize = 0;
        assert(seq_encoding(elem, ctx, args.element_args, p) =~= Seq::<u8>::empty());
        assert(start =~= start + Seq::<u8>::empty());
        while i < n
            invariant
                i <= n,
                n == self.base().len(),
                p.len() == i,
                start == old(writer)@,
                self.projects_prefix(p),
                forall|x: &T| self.projection().requires((x,)),
                forall|k: int| 0 <= k < i ==> args.element_args.has(k),
                writer@ == start + seq_encoding(elem, ctx, args.element_args, p),
            decreases n - i,
        {
            match args.element_args.get(i) {
                Some(a) => {
                    let xr = &self.base_slice[i];
                    assert(self.projection().requires((xr,)));
                    let x = (self.projector)(xr);
                    let e = elem.byte_order(ctx, a);
                    encode_scalar(writer, *x, e);
                    proof {
                        lemma_seq_encoding_push(elem, ctx, args.element_args, p, *x);
                        p = p.push(*x);
                    }
                    i = i + 1;
                },
                None => {
                    proof {
                        if i > 0 {
                            assert(args.element_args.has(i - 1));
                        }
                        if args.element_args is List {
                            assert(i == args.element_args->List_0@.len());
                        }
                        assert(covered(args.element_args, n as nat) == i);
                        assert(self.projects_prefix(p));
                    }
                    return Err(EncodeError::InvalidArgument("SliceViewRef", "not enough arguments"));
                },
            }
        }
        proof {
            if args.element_args is List && args.element_args->List_0@.len() < n {
                assert(args.element_args.has(args.element_args->List_0@.len() as int));
            }
            assert(self.projects_prefix(p));
        }
        Ok(())
    }
}

/// The bytes of the texts, one after another, with nothing between them.
pub open spec fn texts_bytes(p: Seq<&str>) -> Seq<u8> {
    concat(Seq::new(p.len(), |i: int| encode_utf8(p[i]@)))
}

impl<'a, T, P: Fn(&T) -> &str> SliceViewRef<'a, T, P> {
    /// A view of `base_slice` through `projector`, which picks a text out of
    /// each element.
    pub fn of_texts(base_slice: &'a [T], projector: P) -> (r: Self)
        ensures
            r.base() == base_slice@,
            r.projection() == projector,
    {
        SliceViewRef { base_slice, projector }
    }

    /// Whether `p` holds the texts the slice's elements project to, in order.
    pub open spec fn projects_texts(&self, p: Seq<&str>) -> bool {
        &&& p.len() == self.base().len()
        &&& forall|i: int| 0 <= i < p.len() ==> self.projection().ensures((&self.base()[i],), #[trigger] p[i])
    }

    /// Encodes the projected texts one after another, with no length before
    /// them, straight from the slice.
    pub fn encode_texts(&self, writer: &mut Writer)
        requires
            forall|x: &T| self.projection().requires((x,)),
        ensures
            exists|p: Seq<&str>| #[trigger] self.projects_texts(p) && final(writer)@ == old(writer)@ + texts_bytes(p),
    {
        let ghost start = writer@;
        let ghost mut p: Seq<&str> = Seq::empty();
        let n = self.base_slice.len();
        let mut i: usize = 0;
        assert(texts_bytes(p) =~= Seq::<u8>::empty());
        assert(start =~= start + Seq::<u8>::empty());
        while i < n
            invariant
                i <= n,
                n == self.base().len(),
                p.len() == i,
                start == old(writer)@,
                forall|x: &T| self.projection().requires((x,)),
                forall|k: int| 0 <= k < i ==> self.projection().ensures((&self.base()[k],), #[trigger] p[k]),
                writer@ == start + texts_bytes(p),
            decreases n - i,
        {
            let xr = &self.base_slice[i];
            assert(self.projection().requires((xr,)));
            let t = (self.projector)(xr);
            encode_text(writer, t);
            proof {
                let q = p.push(t);
                let parts = Seq::new(q.len(), |j: int| encode_utf8(q[j]@));
                assert(parts.drop_last() =~= Seq::new(p.len(), |j: int| encode_utf8(p[j]@)));
                p = q;
            }
            i = i + 1;
        }
        assert(self.projects_texts(p));
    }
}

} // verus!
