//! Named-argument builders: staged values that can be finished only once every
//! required parameter is set.

use vstd::prelude::*;
use crate::endian::Endian;

verus! {

/// The state of one named parameter.
#[derive(Debug, PartialEq, Eq)]
pub enum Param<T> {
    /// Not set yet, and without a default.
    Required,
    /// Set to the given value.
    Provided(T),
}

/// A builder whose arguments are complete once `is_ready` holds.
pub trait ArgsBuilderFinished: Sized {
    /// The finished arguments.
    type Output;

    /// Whether every required parameter is set.
    spec fn is_ready(&self) -> bool;

    /// The arguments that finishing gives.
    spec fn output(&self) -> Self::Output;

    /// Whether every required parameter is set.
    fn ready(&self) -> (r: bool)
        ensures
            r == self.is_ready(),
    ;

    /// Produces the finished arguments. A builder with an unset required
    /// parameter cannot be finished: the call is rejected at verification.
    fn finish(self) -> (r: Self::Output)
        requires
            self.is_ready(),
        ensures
            r == self.output(),
    ;
}

/// The builder of a type that takes no arguments.
#[derive(Debug, Clone, Copy, PartialEq, Eq, Structural)]
pub struct NoArgs;

impl ArgsBuilderFinished for NoArgs {
    type Output = ();

    open spec fn is_ready(&self) -> bool {
        true
    }

    open spec fn output(&self) -> () {
        ()
    }

    fn ready(&self) -> (r: bool) {
        true
    }

    fn finish(self) -> (r: ()) {
    }
}

/// One argument per element of a sequence.
#[derive(Debug, PartialEq, Eq)]
pub enum ElementArgs<A> {
    /// The same argument for every element, however many there are.
    Repeat(A),
    /// The given arguments, one per element, in order.
    List(Vec<A>),
}

impl<A> ElementArgs<A> {
    /// Whether the `i`-th element has an argument.
    pub open spec fn has(&self, i: int) -> bool {
        match self {
            ElementArgs::Repeat(_) => 0 <= i,
            ElementArgs::List(v) => 0 <= i < v@.len(),
        }
    }

    /// The argument of the `i`-th element.
    pub open spec fn at(&self, i: int) -> A {
        match self {
            ElementArgs::Repeat(a) => *a,
            ElementArgs::List(v) => v@[i],
        }
    }
}

impl<A: Copy> ElementArgs<A> {
    /// The argument of the `i`-th element, if there is one.
    pub fn get(&self, i: usize) -> (r: Option<A>)
        ensures
            self.has(i as int) ==> r == Some(self.at(i as int)),
            !self.has(i as int) ==> r is None,
    {
        match self {
            ElementArgs::Repeat(a) => Some(*a),
            ElementArgs::List(v) => if i < v.len() {
                Some(v[i])
            } else {
                None
            },
        }
    }
}

/// Finished arguments of a sequence.
#[derive(Debug, PartialEq, Eq)]
pub struct VecArgs<A> {
    pub element_args: ElementArgs<A>,
}

/// Builder of the arguments of a sequence.
///
/// Decoding needs to know how many elements to read: `count`, or `args` with
/// one argument per element. Encoding has one unit argument per element by
/// default. `arg` then shares one argument among the elements, and `map_arg`
/// transforms each.
#[derive(Debug, PartialEq, Eq)]
pub struct VecArgsBuilder<A> {
    pub element_args: Param<ElementArgs<A>>,
}

impl VecArgsBuilder<()> {
    /// A builder whose element arguments are still required.
    pub fn new() -> (r: Self)
        ensures
            r.element_args is Required,
    {
        VecArgsBuilder { element_args: Param::Required }
    }

    /// A builder that hands a unit argument to each of any number of elements.
    pub fn repeat_unit() -> (r: Self)
        ensures
            r.element_args == Param::Provided(ElementArgs::Repeat(())),
    {
        VecArgsBuilder { element_args: Param::Provided(ElementArgs::Repeat(())) }
    }

    /// Sets the number of elements; each takes a unit argument.
    pub fn count(self, n: usize) -> (r: Self)
        requires
            self.element_args is Required,
        ensures
            r.element_args matches Param::Provided(ElementArgs::List(v)) && v@.len() == n,
    {
        let mut v: Vec<()> = Vec::new();
        let mut i: usize = 0;
        while i < n
            invariant
                i <= n,
                v@.len() == i,
            decreases n - i,
        {
            v.push(());
            i = i + 1;
        }
        VecArgsBuilder { element_args: Param::Provided(ElementArgs::List(v)) }
    }

    /// Hands the same argument to every element, in place of the unit.
    pub fn arg<B: Copy>(self, b: B) -> (r: VecArgsBuilder<B>)
        requires
            self.element_args is Provided,
        ensures
            match self.element_args {
                Param::Provided(ElementArgs::Repeat(_)) => r.element_args == Param::Provided(
                    ElementArgs::Repeat(b),
                ),
                Param::Provided(ElementArgs::List(v)) => r.element_args matches Param::Provided(
                    ElementArgs::List(w),
                ) && w@ == Seq::new(v@.len(), |_i: int| b),
                _ => false,
            },
    {
        match self.element_args {
            Param::Provided(ElementArgs::Repeat(_)) => VecArgsBuilder {
                element_args: Param::Provided(ElementArgs::Repeat(b)),
            },
            Param::Provided(ElementArgs::List(v)) => {
                let mut w: Vec<B> = Vec::new();
                let mut i: usize = 0;
                while i < v.len()
                    invariant
                        i <= v@.len(),
                        w@ =~= Seq::new(i as nat, |_i: int| b),
                    decreases v@.len() - i,
                {
                    w.push(b);
                    i = i + 1;
                }
                VecArgsBuilder { element_args: Param::Provided(ElementArgs::List(w)) }
            },
            Param::Required => VecArgsBuilder { element_args: Param::Required },
        }
    }
}

impl<A> VecArgsBuilder<A> {
    /// Sets one argument per element, of any type, in place of whatever was
    /// set; the number of elements is that of `args`.
    pub fn args<B>(self, args: Vec<B>) -> (r: VecArgsBuilder<B>)
        ensures
            r.element_args == Param::Provided(ElementArgs::List(args)),
    {
        VecArgsBuilder { element_args: Param::Provided(ElementArgs::List(args)) }
    }
}

impl<A: Copy> VecArgsBuilder<A> {

    /// Transforms each element's argument with `f`.
    pub fn map_arg<B, F: Fn(A) -> B>(self, f: F) -> (r: VecArgsBuilder<B>)
        requires
            self.element_args is Provided,
            forall|a: A| f.requires((a,)),
        ensures
            match (self.element_args, r.element_args) {
                (
                    Param::Provided(ElementArgs::Repeat(a)),
                    Param::Provided(ElementArgs::Repeat(b)),
                ) => f.ensures((a,), b),
                (
                    Param::Provided(ElementArgs::List(v)),
                    Param::Provided(ElementArgs::List(w)),
                ) => w@.len() == v@.len() && forall|i: int|
                    0 <= i < v@.len() ==> f.ensures((#[trigger] v@[i],), w@[i]),
                _ => false,
            },
    {
        match self.element_args {
            Param::Provided(ElementArgs::Repeat(a)) => VecArgsBuilder {
                element_args: Param::Provided(ElementArgs::Repeat(f(a))),
            },
            Param::Provided(ElementArgs::List(v)) => {
                let mut w: Vec<B> = Vec::new();
                let mut i: usize = 0;
                while i < v.len()
                    invariant
                        i <= v@.len(),
                        w@.len() == i,
                        forall|a: A| f.requires((a,)),
                        forall|k: int| 0 <= k < i ==> f.ensures((#[trigger] v@[k],), w@[k]),
                    decreases v@.len() - i,
                {
                    w.push(f(v[i]));
                    i = i + 1;
                }
                VecArgsBuilder { element_args: Param::Provided(ElementArgs::List(w)) }
            },
            Param::Required => VecArgsBuilder { element_args: Param::Required },
        }
    }
}

impl<A: Copy> ArgsBuilderFinished for VecArgsBuilder<A> {
    type Output = VecArgs<A>;

    open spec fn is_ready(&self) -> bool {
        self.element_args is Provided
    }

    open spec fn output(&self) -> VecArgs<A> {
        VecArgs { element_args: self.element_args->Provided_0 }
    }

    fn ready(&self) -> (r: bool) {
        match &self.element_args {
            Param::Provided(_) => true,
            Param::Required => false,
        }
    }

    fn finish(self) -> (r: VecArgs<A>) {
        match self.element_args {
            Param::Provided(e) => VecArgs { element_args: e },
            Param::Required => {
                proof {
                    assert(false);
                }
                VecArgs { element_args: ElementArgs::List(Vec::new()) }
            },
        }
    }
}

impl<A: Copy> VecArgsBuilder<A> {
    /// Installs `f` as the transform from each element's decoded value to
    /// its value in memory.
    pub fn map<F>(self, f: F) -> (r: MappedVecArgsBuilder<A, F>)
        ensures
            r.builder == self,
            r.transform == f,
    {
        MappedVecArgsBuilder { builder: self, transform: f }
    }
}

/// Builder of the arguments of a sequence whose elements are transformed
/// after decoding.
pub struct MappedVecArgsBuilder<A, F> {
    pub builder: VecArgsBuilder<A>,
    pub transform: F,
}

/// Finished arguments of a sequence whose elements are transformed after
/// decoding.
pub struct MappedVecArgs<A, F> {
    pub args: VecArgs<A>,
    pub transform: F,
}

impl<A: Copy, F> ArgsBuilderFinished for MappedVecArgsBuilder<A, F> {
    type Output = MappedVecArgs<A, F>;

    open spec fn is_ready(&self) -> bool {
        self.builder.is_ready()
    }

    open spec fn output(&self) -> MappedVecArgs<A, F> {
        MappedVecArgs { args: self.builder.output(), transform: self.transform }
    }

    fn ready(&self) -> (r: bool) {
        self.builder.ready()
    }

    fn finish(self) -> (r: MappedVecArgs<A, F>) {
        MappedVecArgs { args: self.builder.finish(), transform: self.transform }
    }
}

/// Finished arguments of a text.
#[derive(Debug, Clone, Copy, PartialEq, Eq, Structural)]
pub struct StrArgs {
    /// Number of bytes of the text.
    pub count: usize,
}

/// Builder of the arguments of a text: its length in bytes is required.
#[derive(Debug, PartialEq, Eq)]
pub struct StrArgsBuilder {
    pub count: Param<usize>,
}

impl StrArgsBuilder {
    /// A builder whose length is still required.
    pub fn new() -> (r: Self)
        ensures
            r.count is Required,
    {
        StrArgsBuilder { count: Param::Required }
    }

    /// Sets the number of bytes of the text.
    pub fn count(self, n: usize) -> (r: Self)
        requires
            self.count is Required,
        ensures
            r.count == Param::Provided(n),
    {
        StrArgsBuilder { count: Param::Provided(n) }
    }
}

impl ArgsBuilderFinished for StrArgsBuilder {
    type Output = StrArgs;

    open spec fn is_ready(&self) -> bool {
        self.count is Provided
    }

    open spec fn output(&self) -> StrArgs {
        StrArgs { count: self.count->Provided_0 }
    }

    fn ready(&self) -> (r: bool) {
        match self.count {
            Param::Provided(_) => true,
            Param::Required => false,
        }
    }

    fn finish(self) -> (r: StrArgs) {
        match self.count {
            Param::Provided(n) => StrArgs { count: n },
            Param::Required => {
                proof {
                    assert(false);
                }
                StrArgs { count: 0 }
            },
        }
    }
}

/// Builder of a byte-order argument.
#[derive(Debug, PartialEq, Eq)]
pub struct EndianBuilder {
    pub endian: Param<Endian>,
}

impl EndianBuilder {
    /// A builder whose byte order is still required.
    pub fn new() -> (r: Self)
        ensures
            r.endian is Required,
    {
        EndianBuilder { endian: Param::Required }
    }

    /// Sets the byte order.
    pub fn endian(self, endian: Endian) -> (r: Self)
        requires
            self.endian is Required,
        ensures
            r.endian == Param::Provided(endian),
    {
        EndianBuilder { endian: Param::Provided(endian) }
    }

    /// Takes `endian` from the enclosing scope, unless a byte order is set already.
    pub fn inherit_endian(self, endian: Endian) -> (r: Self)
        ensures
            self.endian is Required ==> r.endian == Param::Provided(endian),
            self.endian is Provided ==> r == self,
    {
        match self.endian {
            Param::Required => EndianBuilder { endian: Param::Provided(endian) },
            Param::Provided(e) => EndianBuilder { endian: Param::Provided(e) },
        }
    }
}

impl ArgsBuilderFinished for EndianBuilder {
    type Output = Endian;

    open spec fn is_ready(&self) -> bool {
        self.endian is Provided
    }

    open spec fn output(&self) -> Endian {
        self.endian->Provided_0
    }

    fn ready(&self) -> (r: bool) {
        match self.endian {
            Param::Provided(_) => true,
            Param::Required => false,
        }
    }

    fn finish(self) -> (r: Endian) {
        match self.endian {
            Param::Provided(e) => e,
            Param::Required => {
                proof {
                    assert(false);
                }
                Endian::Little
            },
        }
    }
}

} // verus!
