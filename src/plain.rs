//! Fixed-width numbers and their raw bytes.

use vstd::prelude::*;
use crate::endian::Endian;

verus! {

/// `256` to the power `n`: the number of distinct values of `n` bytes.
pub open spec fn pow256(n: nat) -> nat
    decreases n,
{
    if n == 0 {
        1
    } else {
        256 * pow256((n - 1) as nat)
    }
}

/// The number that bytes stand for, least significant byte first.
pub open spec fn le_value(s: Seq<u8>) -> nat
    decreases s.len(),
{
    if s.len() == 0 {
        0
    } else {
        s[0] as nat + 256 * le_value(s.drop_first())
    }
}

/// The number that bytes stand for, most significant byte first.
pub open spec fn be_value(s: Seq<u8>) -> nat
    decreases s.len(),
{
    if s.len() == 0 {
        0
    } else {
        be_value(s.drop_last()) * 256 + s.last() as nat
    }
}

/// The `n` low-order bytes of `v`, least significant first.
pub open spec fn le_bytes(v: nat, n: nat) -> Seq<u8>
    decreases n,
{
    if n == 0 {
        Seq::empty()
    } else {
        seq![(v % 256) as u8] + le_bytes(v / 256, (n - 1) as nat)
    }
}

/// The `n` low-order bytes of `v`, most significant first.
pub open spec fn be_bytes(v: nat, n: nat) -> Seq<u8>
    decreases n,
{
    if n == 0 {
        Seq::empty()
    } else {
        be_bytes(v / 256, (n - 1) as nat).push((v % 256) as u8)
    }
}

/// The `n` low-order bytes of `v` in the given byte order.
pub open spec fn bytes_of(v: nat, n: nat, endian: Endian) -> Seq<u8> {
    match endian {
        Endian::Little => le_bytes(v, n),
        Endian::Big => be_bytes(v, n),
    }
}

/// The number that bytes stand for in the given byte order.
pub open spec fn value_of(s: Seq<u8>, endian: Endian) -> nat {
    match endian {
        Endian::Little => le_value(s),
        Endian::Big => be_value(s),
    }
}

pub proof fn lemma_pow256_values()
    ensures
        pow256(1) == 0x100,
        pow256(2) == 0x1_0000,
        pow256(4) == 0x1_0000_0000,
        pow256(8) == 0x1_0000_0000_0000_0000,
        pow256(16) == 0x1_0000_0000_0000_0000_0000_0000_0000_0000,
{
    assert(pow256(0) == 0x1);
    assert(pow256(1) == 0x100);
    assert(pow256(2) == 0x10000);
    assert(pow256(3) == 0x1000000);
    assert(pow256(4) == 0x100000000);
    assert(pow256(5) == 0x10000000000);
    assert(pow256(6) == 0x1000000000000);
    assert(pow256(7) == 0x100000000000000);
    assert(pow256(8) == 0x10000000000000000);
    assert(pow256(9) == 0x1000000000000000000);
    assert(pow256(10) == 0x100000000000000000000);
    assert(pow256(11) == 0x10000000000000000000000);
    assert(pow256(12) == 0x1000000000000000000000000);
    assert(pow256(13) == 0x100000000000000000000000000);
    assert(pow256(14) == 0x10000000000000000000000000000);
    assert(pow256(15) == 0x1000000000000000000000000000000);
    assert(pow256(16) == 0x100000000000000000000000000000000);
}

pub proof fn lemma_pow256_mono(a: nat, b: nat)
    requires
        a <= b,
    ensures
        pow256(a) <= pow256(b),
        pow256(a) >= 1,
    decreases b,
{
    if b > 0 {
        if a < b {
            lemma_pow256_mono(a, (b - 1) as nat);
        }
    }
    if a > 0 {
        lemma_pow256_mono((a - 1) as nat, (a - 1) as nat);
    }
}

pub proof fn lemma_le_bytes_len(v: nat, n: nat)
    ensures
        le_bytes(v, n).len() == n,
    decreases n,
{
    if n > 0 {
        lemma_le_bytes_len(v / 256, (n - 1) as nat);
    }
}

pub proof fn lemma_be_bytes_len(v: nat, n: nat)
    ensures
        be_bytes(v, n).len() == n,
    decreases n,
{
    if n > 0 {
        lemma_be_bytes_len(v / 256, (n - 1) as nat);
    }
}

pub proof fn lemma_bytes_of_len(v: nat, n: nat, endian: Endian)
    ensures
        bytes_of(v, n, endian).len() == n,
{
    lemma_le_bytes_len(v, n);
    lemma_be_bytes_len(v, n);
}

pub proof fn lemma_le_value_bound(s: Seq<u8>)
    ensures
        le_value(s) < pow256(s.len()),
    decreases s.len(),
{
    if s.len() > 0 {
        lemma_le_value_bound(s.drop_first());
    }
}

pub proof fn lemma_be_value_bound(s: Seq<u8>)
    ensures
        be_value(s) < pow256(s.len()),
    decreases s.len(),
{
    if s.len() > 0 {
        lemma_be_value_bound(s.drop_last());
    }
}

pub proof fn lemma_value_of_bound(s: Seq<u8>, endian: Endian)
    ensures
        value_of(s, endian) < pow256(s.len()),
{
    lemma_le_value_bound(s);
    lemma_be_value_bound(s);
}

pub proof fn lemma_le_round_trip(v: nat, n: nat)
    requires
        v < pow256(n),
    ensures
        le_value(le_bytes(v, n)) == v,
    decreases n,
{
    if n > 0 {
        let rest = le_bytes(v / 256, (n - 1) as nat);
        assert(v / 256 < pow256((n - 1) as nat));
        lemma_le_round_trip(v / 256, (n - 1) as nat);
        assert(le_bytes(v, n).drop_first() =~= rest);
    }
}

pub proof fn lemma_be_round_trip(v: nat, n: nat)
    requires
        v < pow256(n),
    ensures
        be_value(be_bytes(v, n)) == v,
    decreases n,
{
    if n > 0 {
        let rest = be_bytes(v / 256, (n - 1) as nat);
        assert(v / 256 < pow256((n - 1) as nat));
        lemma_be_round_trip(v / 256, (n - 1) as nat);
        assert(be_bytes(v, n).drop_last() =~= rest);
    }
}

/// Writing a number in `n` bytes and reading them back gives the number.
pub proof fn lemma_value_of_bytes_of(v: nat, n: nat, endian: Endian)
    requires
        v < pow256(n),
    ensures
        value_of(bytes_of(v, n, endian), endian) == v,
{
    lemma_le_round_trip(v, n);
    lemma_be_round_trip(v, n);
}

pub proof fn lemma_le_bytes_of_value(s: Seq<u8>)
    ensures
        le_bytes(le_value(s), s.len()) == s,
    decreases s.len(),
{
    if s.len() > 0 {
        let t = s.drop_first();
        lemma_le_bytes_of_value(t);
        let v = le_value(s);
        assert(v % 256 == s[0] as nat);
        assert(v / 256 == le_value(t));
        assert(le_bytes(v, s.len()) =~= s);
    }
}

pub proof fn lemma_be_bytes_of_value(s: Seq<u8>)
    ensures
        be_bytes(be_value(s), s.len()) == s,
    decreases s.len(),
{
    if s.len() > 0 {
        let t = s.drop_last();
        lemma_be_bytes_of_value(t);
        let v = be_value(s);
        assert(v % 256 == s.last() as nat);
        assert(v / 256 == be_value(t));
        assert(be_bytes(v, s.len()) =~= s);
    }
}

/// Reading bytes as a number and writing the number back gives the bytes.
pub proof fn lemma_bytes_of_value_of(s: Seq<u8>, endian: Endian)
    ensures
        bytes_of(value_of(s, endian), s.len(), endian) == s,
{
    lemma_le_bytes_of_value(s);
    lemma_be_bytes_of_value(s);
}

/// The `n` low-order bytes of `v` in the given byte order.
pub fn uint_to_bytes(v: u128, n: usize, endian: Endian) -> (r: Vec<u8>)
    requires
        n <= 16,
    ensures
        r@ == bytes_of(v as nat, n as nat, endian),
{
    let mut r: Vec<u8> = Vec::new();
    let mut x: u128 = v;
    let mut i: usize = 0;
    match endian {
        Endian::Little => {
            while i < n
                invariant
                    i <= n,
                    r@ + le_bytes(x as nat, (n - i) as nat) == le_bytes(v as nat, n as nat),
                decreases n - i,
            {
                let ghost before = r@;
                r.push((x % 256) as u8);
                proof {
                    let m = (n - i) as nat;
                    assert(le_bytes(x as nat, m) == seq![(x % 256) as u8] + le_bytes(
                        (x / 256) as nat,
                        (m - 1) as nat,
                    ));
                    assert(r@ + le_bytes((x / 256) as nat, (m - 1) as nat) =~= before + le_bytes(
                        x as nat,
                        m,
                    ));
                }
                x = x / 256;
                i = i + 1;
            }
            assert(r@ =~= le_bytes(v as nat, n as nat));
        },
        Endian::Big => {
            let mut rev: Vec<u8> = Vec::new();
            while i < n
                invariant
                    i <= n,
                    rev@.len() == i,
                    be_bytes(x as nat, (n - i) as nat) + rev@.reverse() == be_bytes(v as nat, n as nat),
                decreases n - i,
            {
                let ghost before = rev@;
                rev.push((x % 256) as u8);
                proof {
                    let m = (n - i) as nat;
                    assert(be_bytes(x as nat, m) == be_bytes((x / 256) as nat, (m - 1) as nat).push(
                        (x % 256) as u8,
                    ));
                    assert(rev@.reverse() =~= seq![(x % 256) as u8] + before.reverse());
                    assert(be_bytes((x / 256) as nat, (m - 1) as nat) + rev@.reverse()
                        =~= be_bytes(x as nat, m) + before.reverse());
                }
                x = x / 256;
                i = i + 1;
            }
            let mut j: usize = n;
            while j > 0
                invariant
                    j <= n,
                    rev@.len() == n,
                    r@ =~= rev@.reverse().subrange(0, (n - j) as int),
                    rev@.reverse() == be_bytes(v as nat, n as nat),
                decreases j,
            {
                r.push(rev[j - 1]);
                j = j - 1;
            }
            assert(r@ =~= be_bytes(v as nat, n as nat));
        },
    }
    r
}

/// The number that bytes stand for in the given byte order.
pub fn uint_from_bytes(b: &[u8], endian: Endian) -> (r: u128)
    requires
        b@.len() <= 16,
    ensures
        r as nat == value_of(b@, endian),
{
    let n = b.len();
    let mut acc: u128 = 0;
    proof {
        lemma_pow256_values();
    }
    match endian {
        Endian::Little => {
            let mut i: usize = n;
            assert(b@.subrange(n as int, n as int) =~= Seq::<u8>::empty());
            while i > 0
                invariant
                    i <= n,
                    n == b@.len(),
                    n <= 16,
                    pow256(16) == 0x1_0000_0000_0000_0000_0000_0000_0000_0000,
                    acc as nat == le_value(b@.subrange(i as int, n as int)),
                decreases i,
            {
                proof {
                    lemma_le_value_bound(b@.subrange(i as int, n as int));
                    lemma_pow256_mono((n - i) as nat, 15);
                    lemma_pow256_mono(15, 15);
                    assert(pow256(16) == 256 * pow256(15));
                    assert(b@.subrange(i - 1, n as int).drop_first() =~= b@.subrange(
                        i as int,
                        n as int,
                    ));
                }
                acc = (b[i - 1] as u128) + 256 * acc;
                i = i - 1;
            }
            assert(b@.subrange(0, n as int) =~= b@);
        },
        Endian::Big => {
            let mut i: usize = 0;
            assert(b@.subrange(0, 0) =~= Seq::<u8>::empty());
            while i < n
                invariant
                    i <= n,
                    n == b@.len(),
                    n <= 16,
                    pow256(16) == 0x1_0000_0000_0000_0000_0000_0000_0000_0000,
                    acc as nat == be_value(b@.subrange(0, i as int)),
                decreases n - i,
            {
                proof {
                    lemma_be_value_bound(b@.subrange(0, i as int));
                    lemma_pow256_mono(i as nat, 15);
                    assert(pow256(16) == 256 * pow256(15));
                    assert(b@.subrange(0, i + 1).drop_last() =~= b@.subrange(0, i as int));
                }
                acc = acc * 256 + (b[i] as u128);
                i = i + 1;
            }
            assert(b@.subrange(0, n as int) =~= b@);
        },
    }
    acc
}

/// The kind of a fixed-width number.
#[derive(Debug, Clone, Copy, PartialEq, Eq, Structural)]
pub enum Prim {
    U8,
    U16,
    U32,
    U64,
    U128,
    I8,
    I16,
    I32,
    I64,
    I128,
    /// A single-precision float, held as its bit pattern.
    F32,
    /// A double-precision float, held as its bit pattern.
    F64,
}

impl Prim {
    /// Number of bytes of a value of this kind.
    pub open spec fn size(self) -> nat {
        match self {
            Prim::U8 | Prim::I8 => 1,
            Prim::U16 | Prim::I16 => 2,
            Prim::U32 | Prim::I32 | Prim::F32 => 4,
            Prim::U64 | Prim::I64 | Prim::F64 => 8,
            Prim::U128 | Prim::I128 => 16,
        }
    }

    pub open spec fn is_signed(self) -> bool {
        matches!(self, Prim::I8 | Prim::I16 | Prim::I32 | Prim::I64 | Prim::I128)
    }

    /// Number of bytes of a value of this kind.
    pub fn width(self) -> (r: usize)
        ensures
            r == self.size(),
    {
        match self {
            Prim::U8 | Prim::I8 => 1,
            Prim::U16 | Prim::I16 => 2,
            Prim::U32 | Prim::I32 | Prim::F32 => 4,
            Prim::U64 | Prim::I64 | Prim::F64 => 8,
            Prim::U128 | Prim::I128 => 16,
        }
    }

    /// The type name of the kind.
    pub open spec fn spec_name(self) -> &'static str {
        match self {
            Prim::U8 => "u8",
            Prim::U16 => "u16",
            Prim::U32 => "u32",
            Prim::U64 => "u64",
            Prim::U128 => "u128",
            Prim::I8 => "i8",
            Prim::I16 => "i16",
            Prim::I32 => "i32",
            Prim::I64 => "i64",
            Prim::I128 => "i128",
            Prim::F32 => "f32",
            Prim::F64 => "f64",
        }
    }

    /// The type name, used to say what could not be decoded.
    pub fn name(self) -> (r: &'static str)
        ensures
            r == self.spec_name(),
    {
        match self {
            Prim::U8 => "u8",
            Prim::U16 => "u16",
            Prim::U32 => "u32",
            Prim::U64 => "u64",
            Prim::U128 => "u128",
            Prim::I8 => "i8",
            Prim::I16 => "i16",
            Prim::I32 => "i32",
            Prim::I64 => "i64",
            Prim::I128 => "i128",
            Prim::F32 => "f32",
            Prim::F64 => "f64",
        }
    }
}

/// A fixed-width number. Floats are held as their IEEE 754 bit patterns.
#[derive(Debug, Clone, Copy, PartialEq, Eq, Structural)]
pub enum Scalar {
    U8(u8),
    U16(u16),
    U32(u32),
    U64(u64),
    U128(u128),
    I8(i8),
    I16(i16),
    I32(i32),
    I64(i64),
    I128(i128),
    F32(u32),
    F64(u64),
}

/// Two's complement: the bit pattern of `v` in `n` bytes.
pub open spec fn twos_complement(v: int, n: nat) -> nat {
    if v >= 0 {
        v as nat
    } else {
        (v + pow256(n)) as nat
    }
}

/// The signed number that a bit pattern of `n` bytes stands for.
pub open spec fn signed_of_bits(b: nat, n: nat) -> int {
    if 2 * b < pow256(n) {
        b as int
    } else {
        b - pow256(n)
    }
}

impl Scalar {
    pub open spec fn kind(self) -> Prim {
        match self {
            Scalar::U8(_) => Prim::U8,
            Scalar::U16(_) => Prim::U16,
            Scalar::U32(_) => Prim::U32,
            Scalar::U64(_) => Prim::U64,
            Scalar::U128(_) => Prim::U128,
            Scalar::I8(_) => Prim::I8,
            Scalar::I16(_) => Prim::I16,
            Scalar::I32(_) => Prim::I32,
            Scalar::I64(_) => Prim::I64,
            Scalar::I128(_) => Prim::I128,
            Scalar::F32(_) => Prim::F32,
            Scalar::F64(_) => Prim::F64,
        }
    }

    /// The bit pattern of the value, as an unsigned number.
    pub open spec fn bits(self) -> nat {
        match self {
            Scalar::U8(v) => v as nat,
            Scalar::U16(v) => v as nat,
            Scalar::U32(v) => v as nat,
            Scalar::U64(v) => v as nat,
            Scalar::U128(v) => v as nat,
            Scalar::I8(v) => twos_complement(v as int, 1),
            Scalar::I16(v) => twos_complement(v as int, 2),
            Scalar::I32(v) => twos_complement(v as int, 4),
            Scalar::I64(v) => twos_complement(v as int, 8),
            Scalar::I128(v) => twos_complement(v as int, 16),
            Scalar::F32(v) => v as nat,
            Scalar::F64(v) => v as nat,
        }
    }

    /// The integer value, for the integer kinds.
    pub open spec fn int_value(self) -> int {
        match self {
            Scalar::U8(v) => v as int,
            Scalar::U16(v) => v as int,
            Scalar::U32(v) => v as int,
            Scalar::U64(v) => v as int,
            Scalar::U128(v) => v as int,
            Scalar::I8(v) => v as int,
            Scalar::I16(v) => v as int,
            Scalar::I32(v) => v as int,
            Scalar::I64(v) => v as int,
            Scalar::I128(v) => v as int,
            Scalar::F32(v) => v as int,
            Scalar::F64(v) => v as int,
        }
    }

    /// The value of the given kind whose bit pattern is `b`.
    pub open spec fn of_bits(kind: Prim, b: nat) -> Scalar {
        match kind {
            Prim::U8 => Scalar::U8(b as u8),
            Prim::U16 => Scalar::U16(b as u16),
            Prim::U32 => Scalar::U32(b as u32),
            Prim::U64 => Scalar::U64(b as u64),
            Prim::U128 => Scalar::U128(b as u128),
            Prim::I8 => Scalar::I8(signed_of_bits(b, 1) as i8),
            Prim::I16 => Scalar::I16(signed_of_bits(b, 2) as i16),
            Prim::I32 => Scalar::I32(signed_of_bits(b, 4) as i32),
            Prim::I64 => Scalar::I64(signed_of_bits(b, 8) as i64),
            Prim::I128 => Scalar::I128(signed_of_bits(b, 16) as i128),
            Prim::F32 => Scalar::F32(b as u32),
            Prim::F64 => Scalar::F64(b as u64),
        }
    }

    /// The bytes of the value in the given byte order.
    pub open spec fn spec_to_bytes(self, endian: Endian) -> Seq<u8> {
        bytes_of(self.bits(), self.kind().size(), endian)
    }

    /// The value of the given kind that bytes stand for.
    pub open spec fn spec_from_bytes(kind: Prim, s: Seq<u8>, endian: Endian) -> Scalar {
        Scalar::of_bits(kind, value_of(s, endian))
    }

    /// The kind of the value.
    pub fn prim(&self) -> (r: Prim)
        ensures
            r == self.kind(),
    {
        match self {
            Scalar::U8(_) => Prim::U8,
            Scalar::U16(_) => Prim::U16,
            Scalar::U32(_) => Prim::U32,
            Scalar::U64(_) => Prim::U64,
            Scalar::U128(_) => Prim::U128,
            Scalar::I8(_) => Prim::I8,
            Scalar::I16(_) => Prim::I16,
            Scalar::I32(_) => Prim::I32,
            Scalar::I64(_) => Prim::I64,
            Scalar::I128(_) => Prim::I128,
            Scalar::F32(_) => Prim::F32,
            Scalar::F64(_) => Prim::F64,
        }
    }

    /// The bit pattern of the value.
    pub fn to_bits(&self) -> (r: u128)
        ensures
            r as nat == self.bits(),
            r < pow256(self.kind().size()),
    {
        proof {
            lemma_pow256_values();
        }
        match *self {
            Scalar::U8(v) => v as u128,
            Scalar::U16(v) => v as u128,
            Scalar::U32(v) => v as u128,
            Scalar::U64(v) => v as u128,
            Scalar::U128(v) => v,
            Scalar::I8(v) => if v >= 0 { v as u128 } else { (v as i16 + 0x100) as u128 },
            Scalar::I16(v) => if v >= 0 { v as u128 } else { (v as i32 + 0x1_0000) as u128 },
            Scalar::I32(v) => if v >= 0 { v as u128 } else { (v as i64 + 0x1_0000_0000) as u128 },
            Scalar::I64(v) => if v >= 0 {
                v as u128
            } else {
                (v as i128 + 0x1_0000_0000_0000_0000) as u128
            },
            Scalar::I128(v) => if v >= 0 {
                v as u128
            } else {
                0xffff_ffff_ffff_ffff_ffff_ffff_ffff_ffff - ((-(v + 1)) as u128)
            },
            Scalar::F32(v) => v as u128,
            Scalar::F64(v) => v as u128,
        }
    }

    /// The value of the given kind whose bit pattern is `b`.
    pub fn from_bits(kind: Prim, b: u128) -> (r: Scalar)
        requires
            b < pow256(kind.size()),
        ensures
            r == Scalar::of_bits(kind, b as nat),
            r.kind() == kind,
            r.bits() == b,
    {
        proof {
            lemma_pow256_values();
        }
        match kind {
            Prim::U8 => Scalar::U8(b as u8),
            Prim::U16 => Scalar::U16(b as u16),
            Prim::U32 => Scalar::U32(b as u32),
            Prim::U64 => Scalar::U64(b as u64),
            Prim::U128 => Scalar::U128(b),
            Prim::I8 => Scalar::I8(if b < 0x80 { b as i8 } else { (b as i16 - 0x100) as i8 }),
            Prim::I16 => Scalar::I16(if b < 0x8000 { b as i16 } else { (b as i32 - 0x1_0000) as i16 }),
            Prim::I32 => Scalar::I32(
                if b < 0x8000_0000 { b as i32 } else { (b as i64 - 0x1_0000_0000) as i32 },
            ),
            Prim::I64 => Scalar::I64(
                if b < 0x8000_0000_0000_0000 {
                    b as i64
                } else {
                    (b as i128 - 0x1_0000_0000_0000_0000) as i64
                },
            ),
            Prim::I128 => Scalar::I128(
                if b < 0x8000_0000_0000_0000_0000_0000_0000_0000 {
                    b as i128
                } else {
                    -((0xffff_ffff_ffff_ffff_ffff_ffff_ffff_ffff - b) as i128) - 1
                },
            ),
            Prim::F32 => Scalar::F32(b as u32),
            Prim::F64 => Scalar::F64(b as u64),
        }
    }

    /// The bytes of the value in the given byte order.
    pub fn to_bytes(&self, endian: Endian) -> (r: Vec<u8>)
        ensures
            r@ == self.spec_to_bytes(endian),
            r@.len() == self.kind().size(),
    {
        let b = self.to_bits();
        let r = uint_to_bytes(b, self.prim().width(), endian);
        proof {
            lemma_bytes_of_len(self.bits(), self.kind().size(), endian);
        }
        r
    }

    /// The value of the given kind that bytes stand for.
    pub fn from_bytes(kind: Prim, bytes: &[u8], endian: Endian) -> (r: Scalar)
        requires
            bytes@.len() == kind.size(),
        ensures
            r == Scalar::spec_from_bytes(kind, bytes@, endian),
            r.kind() == kind,
            r.bits() == value_of(bytes@, endian),
    {
        let b = uint_from_bytes(bytes, endian);
        proof {
            lemma_value_of_bound(bytes@, endian);
        }
        Scalar::from_bits(kind, b)
    }
}

/// A value is determined by its kind and bit pattern.
pub proof fn lemma_of_bits_bits(s: Scalar)
    ensures
        Scalar::of_bits(s.kind(), s.bits()) == s,
        s.bits() < pow256(s.kind().size()),
{
    lemma_pow256_values();
}

/// Writing a value and reading the bytes back as the same kind gives the value.
pub proof fn lemma_scalar_round_trip(s: Scalar, endian: Endian)
    ensures
        Scalar::spec_from_bytes(s.kind(), s.spec_to_bytes(endian), endian) == s,
        s.spec_to_bytes(endian).len() == s.kind().size(),
{
    lemma_of_bits_bits(s);
    lemma_value_of_bytes_of(s.bits(), s.kind().size(), endian);
    lemma_bytes_of_len(s.bits(), s.kind().size(), endian);
}

} // verus!
