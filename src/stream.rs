//! Byte sources and sinks, the directives on them, and the two error kinds.

use vstd::prelude::*;
use crate::endian::Endian;
use crate::plain::Scalar;

verus! {

/// Why decoding failed.
#[derive(Debug, PartialEq, Eq)]
pub enum DecodeError {
    /// The source ended early. Names what was being decoded, how many bytes it
    /// needed and how many were left.
    IncompleteData { context: &'static str, needed: usize, available: usize },
    /// The bytes are there but stand for no value of the named type.
    InvalidData(&'static str),
    /// A magic sequence did not match.
    MagicMismatch { real_bytes: Vec<u8>, expected_magic: Vec<u8> },
    /// Text was not valid UTF-8: the valid part, then the offending bytes.
    DecodeUtf8Error { valid_prefix: String, invalid_bytes: Vec<u8> },
    /// Bytes were left where the end of the source was expected.
    SuperfluousBytes(Vec<u8>),
}

/// Why encoding failed.
#[derive(Debug, PartialEq, Eq)]
pub enum EncodeError {
    /// An argument was missing or unfit: names the type and the reason.
    InvalidArgument(&'static str, &'static str),
    /// The value cannot be put on the wire as the named type.
    InvalidData(&'static str),
}

/// What a decoding error holds, as mathematical values.
pub enum DecodeErrorModel {
    IncompleteData { context: &'static str, needed: usize, available: usize },
    InvalidData(&'static str),
    MagicMismatch { real_bytes: Seq<u8>, expected_magic: Seq<u8> },
    DecodeUtf8Error { valid_prefix: Seq<char>, invalid_bytes: Seq<u8> },
    SuperfluousBytes(Seq<u8>),
}

impl DecodeError {
    /// Whether the error is the one the model describes.
    pub open spec fn agrees(&self, m: DecodeErrorModel) -> bool {
        match (self, m) {
            (
                DecodeError::IncompleteData { context, needed, available },
                DecodeErrorModel::IncompleteData { context: c, needed: n, available: a },
            ) => *context == c && *needed == n && *available == a,
            (DecodeError::InvalidData(a), DecodeErrorModel::InvalidData(b)) => *a == b,
            (
                DecodeError::MagicMismatch { real_bytes, expected_magic },
                DecodeErrorModel::MagicMismatch { real_bytes: r, expected_magic: e },
            ) => real_bytes@ == r && expected_magic@ == e,
            (
                DecodeError::DecodeUtf8Error { valid_prefix, invalid_bytes },
                DecodeErrorModel::DecodeUtf8Error { valid_prefix: p, invalid_bytes: b },
            ) => valid_prefix@ == p && invalid_bytes@ == b,
            (DecodeError::SuperfluousBytes(b), DecodeErrorModel::SuperfluousBytes(c)) => b@ == c,
            _ => false,
        }
    }
}

/// A readable byte source over bytes held in memory.
pub struct Reader {
    data: Vec<u8>,
    pos: usize,
}

impl View for Reader {
    /// The bytes not yet read.
    type V = Seq<u8>;

    closed spec fn view(&self) -> Seq<u8> {
        self.data@.subrange(self.pos as int, self.data@.len() as int)
    }
}

impl Reader {
    #[verifier::type_invariant]
    spec fn inv(self) -> bool {
        self.pos <= self.data@.len()
    }

    /// A source that yields `data` from its start.
    pub fn new(data: Vec<u8>) -> (r: Reader)
        ensures
            r@ == data@,
    {
        let r = Reader { data, pos: 0 };
        assert(r@ =~= r.data@);
        r
    }

    /// Number of bytes not yet read.
    pub fn remaining(&self) -> (r: usize)
        ensures
            r == self@.len(),
    {
        proof {
            use_type_invariant(self);
        }
        self.data.len() - self.pos
    }

    /// Reads exactly `n` bytes; fails, reading nothing, where fewer are left.
    /// `context` names what is being decoded.
    pub fn read_exact(&mut self, n: usize, context: &'static str) -> (r: Result<Vec<u8>, DecodeError>)
        ensures
            n <= old(self)@.len() ==> r is Ok && r->Ok_0@ == old(self)@.subrange(0, n as int)
                && final(self)@ == old(self)@.subrange(n as int, old(self)@.len() as int),
            n > old(self)@.len() ==> r == Err::<Vec<u8>, DecodeError>(
                DecodeError::IncompleteData { context, needed: n, available: old(self)@.len() as usize },
            ) && final(self)@ == old(self)@,
    {
        proof {
            use_type_invariant(&*self);
        }
        let available = self.data.len() - self.pos;
        if n > available {
            return Err(DecodeError::IncompleteData { context, needed: n, available });
        }
        let start = self.pos;
        let len = self.data.len();
        let mut out: Vec<u8> = Vec::new();
        let mut i: usize = 0;
        while i < n
            invariant
                i <= n,
                start == self.pos,
                len == self.data@.len(),
                start + n <= len,
                out@ =~= self.data@.subrange(start as int, start + i),
            decreases n - i,
        {
            out.push(self.data[start + i]);
            i = i + 1;
        }
        let ghost before = self@;
        self.pos = self.pos + n;
        assert(self@ =~= before.subrange(n as int, before.len() as int));
        assert(out@ =~= before.subrange(0, n as int));
        Ok(out)
    }

    /// Reads a magic sequence and checks it against `magic`. On a mismatch the
    /// bytes read and the bytes expected are both reported.
    pub fn magic<M: IntoMagic>(&mut self, magic: M) -> (r: Result<(), DecodeError>)
        ensures
            ({
                let m = magic.magic_bytes();
                let rest = old(self)@;
                &&& m.len() > rest.len() ==> r == Err::<(), DecodeError>(
                    DecodeError::IncompleteData {
                        context: "magic",
                        needed: m.len() as usize,
                        available: rest.len() as usize,
                    },
                ) && final(self)@ == rest
                &&& m.len() <= rest.len() ==> final(self)@ == rest.subrange(
                    m.len() as int,
                    rest.len() as int,
                ) && (r is Ok <==> rest.subrange(0, m.len() as int) == m)
                &&& m.len() <= rest.len() && rest.subrange(0, m.len() as int) != m ==> (r matches Err(
                    DecodeError::MagicMismatch { real_bytes, expected_magic },
                ) && real_bytes@ == rest.subrange(0, m.len() as int) && expected_magic@ == m)
            }),
    {
        let expected = magic.into_magic();
        let actual = self.read_exact(expected.len(), "magic")?;
        if bytes_equal(&actual, &expected) {
            Ok(())
        } else {
            Err(DecodeError::MagicMismatch { real_bytes: actual, expected_magic: expected })
        }
    }

    /// Skips `n` bytes, whatever they hold.
    pub fn pad(&mut self, n: usize) -> (r: Result<(), DecodeError>)
        ensures
            n <= old(self)@.len() ==> r is Ok && final(self)@ == old(self)@.subrange(
                n as int,
                old(self)@.len() as int,
            ),
            n > old(self)@.len() ==> r == Err::<(), DecodeError>(
                DecodeError::IncompleteData { context: "padding", needed: n, available: old(self)@.len() as usize },
            ) && final(self)@ == old(self)@,
    {
        let _ = self.read_exact(n, "padding")?;
        Ok(())
    }

    /// Checks that the source is exhausted; else reports what is left.
    pub fn expect_end(&self) -> (r: Result<(), DecodeError>)
        ensures
            r is Ok <==> self@.len() == 0,
            r matches Err(DecodeError::SuperfluousBytes(rest)) ==> rest@ == self@,
            r is Err ==> r matches Err(DecodeError::SuperfluousBytes(_)),
    {
        proof {
            use_type_invariant(self);
        }
        if self.pos == self.data.len() {
            Ok(())
        } else {
            let mut rest: Vec<u8> = Vec::new();
            let mut i: usize = self.pos;
            while i < self.data.len()
                invariant
                    self.pos <= i <= self.data@.len(),
                    rest@ =~= self.data@.subrange(self.pos as int, i as int),
                decreases self.data@.len() - i,
            {
                rest.push(self.data[i]);
                i = i + 1;
            }
            Err(DecodeError::SuperfluousBytes(rest))
        }
    }
}

/// Whether two byte sequences are equal.
pub fn bytes_equal(a: &[u8], b: &[u8]) -> (r: bool)
    ensures
        r == (a@ == b@),
{
    if a.len() != b.len() {
        return false;
    }
    let mut i: usize = 0;
    while i < a.len()
        invariant
            a@.len() == b@.len(),
            i <= a@.len(),
            forall|k: int| 0 <= k < i ==> a@[k] == b@[k],
        decreases a@.len() - i,
    {
        if a[i] != b[i] {
            return false;
        }
        i = i + 1;
    }
    assert(a@ =~= b@);
    true
}

/// A writable byte sink that collects bytes in memory.
pub struct Writer {
    bytes: Vec<u8>,
}

impl View for Writer {
    /// The bytes written so far.
    type V = Seq<u8>;

    closed spec fn view(&self) -> Seq<u8> {
        self.bytes@
    }
}

impl Writer {
    /// An empty sink.
    pub fn new() -> (r: Writer)
        ensures
            r@ == Seq::<u8>::empty(),
    {
        Writer { bytes: Vec::new() }
    }

    /// Appends all of `b`.
    pub fn write_all(&mut self, b: &[u8])
        ensures
            final(self)@ == old(self)@ + b@,
    {
        let ghost before = self@;
        let mut i: usize = 0;
        while i < b.len()
            invariant
                i <= b@.len(),
                self@ =~= before + b@.subrange(0, i as int),
            decreases b@.len() - i,
        {
            self.bytes.push(b[i]);
            i = i + 1;
        }
        assert(b@.subrange(0, b@.len() as int) =~= b@);
    }

    /// Writes a magic sequence verbatim.
    pub fn magic<M: IntoMagic>(&mut self, magic: M)
        ensures
            final(self)@ == old(self)@ + magic.magic_bytes(),
    {
        let m = magic.into_magic();
        self.write_all(&m);
    }

    /// Writes `n` zero bytes.
    pub fn pad(&mut self, n: usize)
        ensures
            final(self)@ == old(self)@ + Seq::new(n as nat, |_i: int| 0u8),
    {
        let ghost before = self@;
        let mut i: usize = 0;
        while i < n
            invariant
                i <= n,
                self@ =~= before + Seq::new(i as nat, |_i: int| 0u8),
            decreases n - i,
        {
            self.bytes.push(0);
            i = i + 1;
        }
    }

    /// The bytes written so far.
    pub fn as_slice(&self) -> (r: &[u8])
        ensures
            r@ == self@,
    {
        self.bytes.as_slice()
    }

    /// Gives up the sink and returns what was written.
    pub fn into_bytes(self) -> (r: Vec<u8>)
        ensures
            r@ == self@,
    {
        self.bytes
    }
}

/// A value that stands for a magic byte sequence.
pub trait IntoMagic: Sized {
    /// The bytes of the magic sequence.
    spec fn magic_bytes(&self) -> Seq<u8>;

    /// Converts into the magic sequence.
    fn into_magic(self) -> (r: Vec<u8>)
        ensures
            r@ == self.magic_bytes(),
    ;
}

impl IntoMagic for u8 {
    open spec fn magic_bytes(&self) -> Seq<u8> {
        seq![*self]
    }

    fn into_magic(self) -> (r: Vec<u8>) {
        let r = vec![self];
        assert(r@ =~= seq![self]);
        r
    }
}

impl IntoMagic for Vec<u8> {
    open spec fn magic_bytes(&self) -> Seq<u8> {
        self@
    }

    fn into_magic(self) -> (r: Vec<u8>) {
        self
    }
}

impl<'a> IntoMagic for &'a [u8] {
    open spec fn magic_bytes(&self) -> Seq<u8> {
        self@
    }

    fn into_magic(self) -> (r: Vec<u8>) {
        vstd::slice::slice_to_vec(self)
    }
}

/// A number whose bytes are always little-endian.
#[derive(Debug, PartialEq, Eq)]
pub struct Le<T>(pub T);

/// A number whose bytes are always big-endian.
#[derive(Debug, PartialEq, Eq)]
pub struct Be<T>(pub T);

impl IntoMagic for Le<Scalar> {
    open spec fn magic_bytes(&self) -> Seq<u8> {
        self.0.spec_to_bytes(Endian::Little)
    }

    fn into_magic(self) -> (r: Vec<u8>) {
        self.0.to_bytes(Endian::Little)
    }
}

impl IntoMagic for Be<Scalar> {
    open spec fn magic_bytes(&self) -> Seq<u8> {
        self.0.spec_to_bytes(Endian::Big)
    }

    fn into_magic(self) -> (r: Vec<u8>) {
        self.0.to_bytes(Endian::Big)
    }
}

} // verus!
