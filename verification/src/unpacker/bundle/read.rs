//! A byte reader over an in-memory buffer and the primitive decoders that
//! every part of a bundle is built from.

use vstd::prelude::*;

use crate::error::UnpackError;
use vstd::utf8::{decode_utf8, valid_utf8};

verus! {

/// What a read at the level of the specification yields: the value and the
/// position just after it, or the error that stops the read.
pub type SpecRead<T> = Result<(T, int), UnpackError>;

/// Position after a successful read.
pub open spec fn pos_of<T>(r: SpecRead<T>) -> int {
    match r {
        Ok((_, q)) => q,
        Err(_) => 0,
    }
}

/// Value of a successful read.
pub open spec fn val_of<T>(r: SpecRead<T>) -> T {
    r->Ok_0.0
}

/// Error of a failed read.
pub open spec fn err_of<T>(r: SpecRead<T>) -> UnpackError {
    r->Err_0
}

/// `n` values read one after another from `p` by `elem`.
pub open spec fn spec_repeat<T>(d: Seq<u8>, p: int, n: nat, elem: spec_fn(Seq<u8>, int) -> SpecRead<T>) -> SpecRead<Seq<T>>
    decreases n,
{
    if n == 0 {
        Ok((Seq::empty(), p))
    } else {
        let prev = spec_repeat(d, p, (n - 1) as nat, elem);
        let e = elem(d, pos_of(prev));
        if prev is Err {
            prev
        } else if e is Err {
            Err(err_of(e))
        } else {
            Ok((val_of(prev).push(val_of(e)), pos_of(e)))
        }
    }
}

/// Once a repeated read fails, reading more of them fails the same way.
pub proof fn lemma_repeat_err<T>(d: Seq<u8>, p: int, i: nat, n: nat, elem: spec_fn(Seq<u8>, int) -> SpecRead<T>)
    requires
        i <= n,
        spec_repeat(d, p, i, elem) is Err,
    ensures
        spec_repeat(d, p, n, elem) == spec_repeat(d, p, i, elem),
    decreases n - i,
{
    if i < n {
        lemma_repeat_err(d, p, i, (n - 1) as nat, elem);
    }
}

/// Unsigned value of bytes in big-endian order.
pub open spec fn be_nat(b: Seq<u8>) -> nat
    decreases b.len(),
{
    if b.len() == 0 {
        0
    } else {
        be_nat(b.drop_last()) * 256 + b.last() as nat
    }
}

/// Unsigned value of bytes in little-endian order.
pub open spec fn le_nat(b: Seq<u8>) -> nat
    decreases b.len(),
{
    if b.len() == 0 {
        0
    } else {
        b[0] as nat + 256 * le_nat(b.drop_first())
    }
}

/// `256` raised to `n`.
pub open spec fn pow256(n: nat) -> nat
    decreases n,
{
    if n == 0 {
        1
    } else {
        256 * pow256((n - 1) as nat)
    }
}

/// Two's complement reading of an unsigned value of `n` bytes.
pub open spec fn signed_of(v: nat, n: nat) -> int {
    if v < pow256(n) / 2 {
        v as int
    } else {
        v - pow256(n)
    }
}

/// The `n` bytes at `p`, when they are all there.
pub open spec fn spec_take(d: Seq<u8>, p: int, n: int) -> SpecRead<Seq<u8>> {
    if 0 <= p && 0 <= n && p + n <= d.len() {
        Ok((d.subrange(p, p + n), p + n))
    } else {
        Err(UnpackError::UnexpectedEof)
    }
}

/// An unsigned integer of `n` bytes at `p`, in big- or little-endian order.
pub open spec fn spec_uint(d: Seq<u8>, p: int, n: int, big: bool) -> SpecRead<nat> {
    match spec_take(d, p, n) {
        Ok((b, q)) => Ok((if big { be_nat(b) } else { le_nat(b) }, q)),
        Err(e) => Err(e),
    }
}

pub open spec fn spec_byte(d: Seq<u8>, p: int) -> SpecRead<u8> {
    match spec_uint(d, p, 1, false) {
        Ok((v, q)) => Ok((v as u8, q)),
        Err(e) => Err(e),
    }
}

pub open spec fn spec_u16(d: Seq<u8>, p: int, big: bool) -> SpecRead<u16> {
    match spec_uint(d, p, 2, big) {
        Ok((v, q)) => Ok((v as u16, q)),
        Err(e) => Err(e),
    }
}

pub open spec fn spec_u32(d: Seq<u8>, p: int, big: bool) -> SpecRead<u32> {
    match spec_uint(d, p, 4, big) {
        Ok((v, q)) => Ok((v as u32, q)),
        Err(e) => Err(e),
    }
}

pub open spec fn spec_u64(d: Seq<u8>, p: int, big: bool) -> SpecRead<u64> {
    match spec_uint(d, p, 8, big) {
        Ok((v, q)) => Ok((v as u64, q)),
        Err(e) => Err(e),
    }
}

pub open spec fn spec_i16(d: Seq<u8>, p: int, big: bool) -> SpecRead<i16> {
    match spec_uint(d, p, 2, big) {
        Ok((v, q)) => Ok((signed_of(v, 2) as i16, q)),
        Err(e) => Err(e),
    }
}

pub open spec fn spec_i32(d: Seq<u8>, p: int, big: bool) -> SpecRead<i32> {
    match spec_uint(d, p, 4, big) {
        Ok((v, q)) => Ok((signed_of(v, 4) as i32, q)),
        Err(e) => Err(e),
    }
}

pub open spec fn spec_i64(d: Seq<u8>, p: int, big: bool) -> SpecRead<i64> {
    match spec_uint(d, p, 8, big) {
        Ok((v, q)) => Ok((signed_of(v, 8) as i64, q)),
        Err(e) => Err(e),
    }
}

/// Index of the first zero byte of `s`, or its length when there is none.
pub open spec fn zero_index(s: Seq<u8>) -> nat
    decreases s.len(),
{
    if s.len() == 0 {
        0
    } else if s[0] == 0 {
        0
    } else {
        1 + zero_index(s.drop_first())
    }
}

/// The raw bytes of a zero-terminated string at `p` and the position after
/// it. The bytes run up to the first zero, which is consumed; at the end of
/// the data the last byte read is dropped in its place.
pub open spec fn spec_cstring_bytes(d: Seq<u8>, p: int) -> (Seq<u8>, int) {
    if p >= d.len() {
        (Seq::empty(), p)
    } else {
        let rest = d.subrange(p, d.len() as int);
        let k = zero_index(rest) as int;
        if k < rest.len() {
            (rest.subrange(0, k), p + k + 1)
        } else {
            (rest.drop_last(), d.len() as int)
        }
    }
}

/// Text decoded from UTF-8 bytes.
pub open spec fn spec_utf8(b: Seq<u8>) -> Result<Seq<char>, UnpackError> {
    if valid_utf8(b) {
        Ok(decode_utf8(b))
    } else {
        Err(UnpackError::InvalidUtf8)
    }
}

pub open spec fn spec_cstring(d: Seq<u8>, p: int) -> SpecRead<Seq<char>> {
    let (b, q) = spec_cstring_bytes(d, p);
    match spec_utf8(b) {
        Ok(s) => Ok((s, q)),
        Err(e) => Err(e),
    }
}

/// Position `p` moved forward to the next multiple of four counted from `base`.
pub open spec fn spec_align4(p: int, base: int) -> int {
    base + (p - base + 3) / 4 * 4
}

/// The alignment as a seek: it fails where the position is before `base`
/// or the target passes `u64::MAX`.
pub open spec fn spec_align4_seek(p: int, base: int) -> Result<int, UnpackError> {
    if p < base {
        Err(UnpackError::PositionBeforeBase)
    } else if spec_align4(p, base) <= u64::MAX {
        Ok(spec_align4(p, base))
    } else {
        Err(UnpackError::InvalidSeek)
    }
}

/// A length-prefixed byte array (little-endian `u32` length), followed by
/// alignment to four bytes from the start of the data.
pub open spec fn spec_aligned_bytes(d: Seq<u8>, p: int) -> SpecRead<Seq<u8>> {
    match spec_u32(d, p, false) {
        Ok((n, q)) => match spec_take(d, q, n as int) {
            Ok((b, r)) => Ok((b, spec_align4(r, 0))),
            Err(e) => Err(e),
        },
        Err(e) => Err(e),
    }
}

/// A length-prefixed UTF-8 string, aligned like [`spec_aligned_bytes`].
pub open spec fn spec_aligned_string(d: Seq<u8>, p: int) -> SpecRead<Seq<char>> {
    match spec_aligned_bytes(d, p) {
        Ok((b, q)) => match spec_utf8(b) {
            Ok(s) => Ok((s, q)),
            Err(e) => Err(e),
        },
        Err(e) => Err(e),
    }
}


/// Alignment moves a position forward by less than four bytes, onto a
/// multiple of four counted from `base`.
pub proof fn alignment_bounds(p: int, base: int)
    requires
        base <= p,
    ensures
        p <= spec_align4(p, base) < p + 4,
        (spec_align4(p, base) - base) % 4 == 0,
{
    let x = p - base;
    let q = (x + 3) / 4;
    assert(0 <= x + 3 - q * 4 < 4 && (q * 4) % 4 == 0) by (nonlinear_arith)
        requires
            x >= 0,
            q == (x + 3) / 4,
    ;
}

/// Aligning a position that is already aligned leaves it where it is.
pub proof fn alignment_is_idempotent(p: int, base: int)
    requires
        base <= p,
    ensures
        spec_align4(spec_align4(p, base), base) == spec_align4(p, base),
{
    alignment_bounds(p, base);
    let y = spec_align4(p, base) - base;
    let q = (y + 3) / 4;
    assert(q * 4 == y) by (nonlinear_arith)
        requires
            y >= 0,
            y % 4 == 0,
            q == (y + 3) / 4,
    ;
}


/// `n` as four little-endian bytes.
pub open spec fn le_bytes4(n: nat) -> Seq<u8> {
    seq![(n % 256) as u8, (n / 256 % 256) as u8, (n / 65536 % 256) as u8, (n / 16777216 % 256) as u8]
}

proof fn lemma_le_bytes4(n: nat)
    requires
        n <= u32::MAX,
    ensures
        le_nat(le_bytes4(n)) == n,
{
    let b = le_bytes4(n);
    assert(b.drop_first().drop_first().drop_first().drop_first() =~= Seq::<u8>::empty());
    reveal_with_fuel(le_nat, 5);
    assert(le_nat(b.drop_first().drop_first().drop_first()) == n / 16777216 % 256);
    assert(n == n % 256 + 256 * (n / 256 % 256 + 256 * (n / 65536 % 256 + 256 * (n / 16777216 % 256)))) by (nonlinear_arith)
        requires
            n <= u32::MAX,
    ;
}

/// A byte array stored with its length in front (four little-endian
/// bytes) reads back as that array, whatever follows it; the reader then
/// stands at the next multiple of four.
pub proof fn length_prefixed_bytes_read_back(b: Seq<u8>, rest: Seq<u8>)
    requires
        b.len() <= u32::MAX,
    ensures
        spec_aligned_bytes(le_bytes4(b.len()) + b + rest, 0)
            == Ok::<(Seq<u8>, int), UnpackError>((b, spec_align4(4 + b.len() as int, 0))),
{
    let d = le_bytes4(b.len()) + b + rest;
    lemma_le_bytes4(b.len());
    assert(d.subrange(0, 4) =~= le_bytes4(b.len()));
    assert(d.subrange(4, 4 + b.len() as int) =~= b);
}

/// The bytes of `d1` from `p1` on are those of `d2` from `p2` on.
pub open spec fn rest_agrees(d1: Seq<u8>, p1: int, d2: Seq<u8>, p2: int) -> bool {
    &&& 0 <= p1 <= d1.len()
    &&& 0 <= p2 <= d2.len()
    &&& d1.subrange(p1, d1.len() as int) == d2.subrange(p2, d2.len() as int)
}

/// Two reads that give the same value, or the same error, where the
/// positions after the first lie `shift` bytes after those of the second.
pub open spec fn shifted_reads<T>(a: SpecRead<T>, b: SpecRead<T>, shift: int) -> bool {
    match (a, b) {
        (Ok((v1, q1)), Ok((v2, q2))) => v1 == v2 && q1 == q2 + shift,
        (Err(e1), Err(e2)) => e1 == e2,
        _ => false,
    }
}

pub proof fn lemma_take_shift(d1: Seq<u8>, p1: int, d2: Seq<u8>, p2: int, x: int, n: int)
    requires
        rest_agrees(d1, p1, d2, p2),
        x >= 0,
    ensures
        shifted_reads(spec_take(d1, p1 + x, n), spec_take(d2, p2 + x, n), p1 - p2),
        spec_take(d1, p1 + x, n) matches Ok((_, q)) ==> q >= p1 + x,
{
    let r1 = d1.subrange(p1, d1.len() as int);
    let r2 = d2.subrange(p2, d2.len() as int);
    assert(r1.len() == r2.len());
    if 0 <= n && p1 + x + n <= d1.len() {
        assert(d1.subrange(p1 + x, p1 + x + n) =~= r1.subrange(x, x + n));
        assert(d2.subrange(p2 + x, p2 + x + n) =~= r2.subrange(x, x + n));
    }
}

pub proof fn lemma_uint_shift(d1: Seq<u8>, p1: int, d2: Seq<u8>, p2: int, x: int, n: int, big: bool)
    requires
        rest_agrees(d1, p1, d2, p2),
        x >= 0,
    ensures
        shifted_reads(spec_uint(d1, p1 + x, n, big), spec_uint(d2, p2 + x, n, big), p1 - p2),
        spec_uint(d1, p1 + x, n, big) matches Ok((_, q)) ==> q >= p1 + x,
{
    lemma_take_shift(d1, p1, d2, p2, x, n);
}

pub proof fn lemma_u32_shift(d1: Seq<u8>, p1: int, d2: Seq<u8>, p2: int, x: int, big: bool)
    requires
        rest_agrees(d1, p1, d2, p2),
        x >= 0,
    ensures
        shifted_reads(spec_u32(d1, p1 + x, big), spec_u32(d2, p2 + x, big), p1 - p2),
        spec_u32(d1, p1 + x, big) matches Ok((_, q)) ==> q >= p1 + x,
{
    lemma_uint_shift(d1, p1, d2, p2, x, 4, big);
}

pub proof fn lemma_i64_shift(d1: Seq<u8>, p1: int, d2: Seq<u8>, p2: int, x: int, big: bool)
    requires
        rest_agrees(d1, p1, d2, p2),
        x >= 0,
    ensures
        shifted_reads(spec_i64(d1, p1 + x, big), spec_i64(d2, p2 + x, big), p1 - p2),
        spec_i64(d1, p1 + x, big) matches Ok((_, q)) ==> q >= p1 + x,
{
    lemma_uint_shift(d1, p1, d2, p2, x, 8, big);
}

pub proof fn lemma_cstring_shift(d1: Seq<u8>, p1: int, d2: Seq<u8>, p2: int, x: int)
    requires
        rest_agrees(d1, p1, d2, p2),
        x >= 0,
    ensures
        shifted_reads(spec_cstring(d1, p1 + x), spec_cstring(d2, p2 + x), p1 - p2),
        spec_cstring(d1, p1 + x) matches Ok((_, q)) ==> q >= p1 + x,
{
    let r1 = d1.subrange(p1, d1.len() as int);
    let r2 = d2.subrange(p2, d2.len() as int);
    assert(r1.len() == r2.len());
    if p1 + x < d1.len() {
        assert(d1.subrange(p1 + x, d1.len() as int) =~= r1.subrange(x, r1.len() as int));
        assert(d2.subrange(p2 + x, d2.len() as int) =~= r2.subrange(x, r2.len() as int));
    }
}

/// The little-endian two's complement value of the bytes `b`.
pub open spec fn le_signed(b: Seq<u8>) -> int {
    signed_of(le_nat(b), b.len())
}

pub proof fn lemma_le_nat_bound(b: Seq<u8>)
    ensures
        le_nat(b) < pow256(b.len()),
    decreases b.len(),
{
    if b.len() > 0 {
        lemma_le_nat_bound(b.drop_first());
        let r = le_nat(b.drop_first());
        let q = pow256(b.drop_first().len());
        assert(b[0] + 256 * r < 256 * q) by (nonlinear_arith)
            requires
                b[0] < 256,
                r < q,
        ;
    }
}

pub proof fn lemma_be_nat_bound(b: Seq<u8>)
    ensures
        be_nat(b) < pow256(b.len()),
    decreases b.len(),
{
    if b.len() > 0 {
        lemma_be_nat_bound(b.drop_last());
        let r = be_nat(b.drop_last());
        let q = pow256(b.drop_last().len());
        assert(pow256(b.len()) == 256 * q);
        assert(r * 256 + b.last() < 256 * q) by (nonlinear_arith)
            requires
                b.last() < 256,
                r < q,
        ;
    }
}

/// The two's complement reading of a value of `n` bytes lies in the range
/// of a signed integer of that width.
pub proof fn lemma_signed_of_range(v: nat, n: nat)
    requires
        n >= 1,
        v < pow256(n),
    ensures
        -(pow256(n) / 2) <= signed_of(v, n) < pow256(n) / 2,
{
    assert(pow256(n) == 256 * pow256((n - 1) as nat));
}

/// A little-endian value of one to eight bytes lies in the range of a
/// signed integer of that width.
pub proof fn lemma_le_signed_range(b: Seq<u8>)
    requires
        b.len() >= 1,
    ensures
        -(pow256(b.len()) / 2) <= le_signed(b) < pow256(b.len()) / 2,
{
    lemma_le_nat_bound(b);
    assert(pow256(b.len()) == 256 * pow256((b.len() - 1) as nat));
}

/// A seek relative to `p`; it fails before the start and past `u64::MAX`.
pub open spec fn spec_seek_current(p: int, off: int) -> Result<int, UnpackError> {
    if 0 <= p + off <= u64::MAX {
        Ok(p + off)
    } else {
        Err(UnpackError::InvalidSeek)
    }
}

/// A reader over bytes held in memory, with a position that a seek may move
/// anywhere, also past the end.
pub struct Reader {
    data: Vec<u8>,
    pos: u64,
}

impl Reader {
    #[verifier::type_invariant]
    spec fn fits(self) -> bool {
        self.data@.len() <= isize::MAX
    }

    /// The bytes that the reader reads from.
    pub closed spec fn bytes(self) -> Seq<u8> {
        self.data@
    }

    /// The current position.
    pub closed spec fn position(self) -> int {
        self.pos as int
    }

    /// A reader at the start of `data`.
    pub fn new(data: Vec<u8>) -> (r: Self)
        requires
            data@.len() <= isize::MAX,
        ensures
            r.bytes() == data@,
            r.position() == 0,
    {
        Reader { data, pos: 0 }
    }

    /// Number of bytes the reader reads from.
    pub fn len(&self) -> (n: usize)
        ensures
            n == self.bytes().len(),
            n <= isize::MAX,
    {
        proof {
            use_type_invariant(self);
        }
        self.data.len()
    }

    /// The current position.
    pub fn stream_position(&self) -> (p: u64)
        ensures
            p == self.position(),
            self.bytes().len() <= isize::MAX,
    {
        proof {
            use_type_invariant(self);
        }
        self.pos
    }

    /// Moves to an absolute position.
    pub fn seek_start(&mut self, pos: u64)
        ensures
            final(self).bytes() == old(self).bytes(),
            final(self).bytes().len() <= isize::MAX,
            final(self).position() == pos,
    {
        proof {
            use_type_invariant(&*self);
        }
        self.pos = pos;
    }

    /// Moves by `off` from the current position; fails, leaving the reader
    /// as it was, where the target is before the start or past `u64::MAX`.
    pub fn seek_current(&mut self, off: i64) -> (r: Result<u64, UnpackError>)
        ensures
            final(self).bytes() == old(self).bytes(),
            final(self).bytes().len() <= isize::MAX,
            match spec_seek_current(old(self).position(), off as int) {
                Ok(p) => r == Ok::<u64, UnpackError>(p as u64) && final(self).position() == p,
                Err(e) => r == Err::<u64, UnpackError>(e) && final(self).position()
                    == old(self).position(),
            },
    {
        proof {
            use_type_invariant(&*self);
        }
        if off >= 0 {
            let d = off as u64;
            if d > u64::MAX - self.pos {
                return Err(UnpackError::InvalidSeek);
            }
            self.pos = self.pos + d;
        } else {
            let d: u64 = if off == i64::MIN {
                0x8000_0000_0000_0000u64
            } else {
                (-off) as u64
            };
            if d > self.pos {
                return Err(UnpackError::InvalidSeek);
            }
            self.pos = self.pos - d;
        }
        Ok(self.pos)
    }

    /// Reads up to and including the next zero byte, or to the end of the
    /// data, and returns what was read without its last byte.
    pub fn read_until_zero(&mut self) -> (b: Vec<u8>)
        ensures
            final(self).bytes() == old(self).bytes(),
            final(self).bytes().len() <= isize::MAX,
            (b@, final(self).position()) == spec_cstring_bytes(old(self).bytes(), old(self).position()),
    {
        proof {
            use_type_invariant(&*self);
        }
        let len = self.data.len();
        if self.pos >= len as u64 {
            return Vec::new();
        }
        let start = self.pos as usize;
        let mut i = start;
        let mut out: Vec<u8> = Vec::new();
        while i < len && self.data[i] != 0
            invariant
                start <= i <= len,
                len == self.data@.len(),
                out@ == self.data@.subrange(start as int, i as int),
                forall|j: int| start <= j < i ==> self.data@[j] != 0,
            decreases len - i,
        {
            out.push(self.data[i]);
            i = i + 1;
        }
        let ghost rest = self.data@.subrange(start as int, len as int);
        proof {
            lemma_zero_index(rest, (i - start) as int);
        }
        if i < len {
            self.pos = (i + 1) as u64;
        } else {
            out.pop();
            self.pos = len as u64;
        }
        proof {
            assert(rest.subrange(0, (i - start) as int) =~= self.data@.subrange(start as int, i as int));
        }
        out
    }

    /// Reads the next `n` bytes.
    pub fn read_exact(&mut self, n: u64) -> (r: Result<Vec<u8>, UnpackError>)
        ensures
            read_follows(r, *old(self), *final(self), spec_take(old(self).bytes(), old(self).position(), n as int)),
    {
        proof {
            use_type_invariant(&*self);
        }
        let len = self.data.len() as u64;
        if self.pos > len || n > len - self.pos {
            return Err(UnpackError::UnexpectedEof);
        }
        let start = self.pos as usize;
        let end = (self.pos + n) as usize;
        let mut out: Vec<u8> = Vec::new();
        let mut i = start;
        while i < end
            invariant
                start <= i <= end,
                end <= self.data@.len(),
                out@ == self.data@.subrange(start as int, i as int),
            decreases end - i,
        {
            out.push(self.data[i]);
            i = i + 1;
        }
        self.pos = self.pos + n;
        Ok(out)
    }
}

/// The zero byte, if any, that ends the first `k` non-zero bytes.
pub proof fn lemma_zero_index(s: Seq<u8>, k: int)
    requires
        0 <= k <= s.len(),
        forall|j: int| 0 <= j < k ==> s[j] != 0,
        k == s.len() || s[k] == 0,
    ensures
        zero_index(s) == k,
    decreases k,
{
    if k > 0 {
        lemma_zero_index(s.drop_first(), k - 1);
    }
}

/// `r` is what the specification `s` gives for `before`: the same value
/// (by its view) and final position on success, the same error on failure;
/// the bytes are never changed.
pub open spec fn read_follows<T: View>(
    r: Result<T, UnpackError>,
    before: Reader,
    after: Reader,
    s: SpecRead<T::V>,
) -> bool {
    &&& after.bytes() == before.bytes()
    &&& after.bytes().len() <= isize::MAX
    &&& match s {
        Ok((v, p)) => r is Ok && r->Ok_0@ == v && after.position() == p,
        Err(e) => r == Err::<T, UnpackError>(e),
    }
}

pub proof fn lemma_pow256_values()
    ensures
        pow256(1) == 256,
        pow256(2) == 0x1_0000,
        pow256(4) == 0x1_0000_0000,
        pow256(8) == 0x1_0000_0000_0000_0000,
{
    reveal_with_fuel(pow256, 9);
}

proof fn lemma_pow256_mono(a: nat, b: nat)
    requires
        a <= b,
    ensures
        pow256(a) <= pow256(b),
    decreases b,
{
    if a < b {
        lemma_pow256_mono(a, (b - 1) as nat);
    }
}

/// Reads an unsigned integer of `n` bytes.
fn read_uint(reader: &mut Reader, n: u64, big: bool) -> (r: Result<u64, UnpackError>)
    requires
        1 <= n <= 8,
    ensures
        final(reader).bytes() == old(reader).bytes(),
        final(reader).bytes().len() <= isize::MAX,
        match spec_uint(old(reader).bytes(), old(reader).position(), n as int, big) {
            Ok((v, q)) => r == Ok::<u64, UnpackError>(v as u64) && v < pow256(n as nat)
                && final(reader).position() == q,
            Err(e) => r == Err::<u64, UnpackError>(e),
        },
{
    let bytes = reader.read_exact(n)?;
    let ghost b = bytes@;
    proof {
        lemma_pow256_values();
    }
    let mut v: u64 = 0;
    if big {
        let mut i: u64 = 0;
        while i < n
            invariant
                0 <= i <= n <= 8,
                b.len() == n,
                bytes@ == b,
                v == be_nat(b.take(i as int)),
                v < pow256(i as nat),
                pow256(8) == 0x1_0000_0000_0000_0000,
            decreases n - i,
        {
            proof {
                lemma_pow256_mono((i + 1) as nat, 8);
                assert(b.take(i + 1).drop_last() =~= b.take(i as int));
            }
            v = v * 256 + bytes[i as usize] as u64;
            i = i + 1;
        }
        assert(b.take(n as int) =~= b);
    } else {
        let mut i: u64 = n;
        while i > 0
            invariant
                0 <= i <= n <= 8,
                b.len() == n,
                bytes@ == b,
                v == le_nat(b.skip(i as int)),
                v < pow256((n - i) as nat),
                pow256(8) == 0x1_0000_0000_0000_0000,
            decreases i,
        {
            proof {
                lemma_pow256_mono((n - i + 1) as nat, 8);
                assert(b.skip(i - 1).drop_first() =~= b.skip(i as int));
            }
            v = v * 256 + bytes[(i - 1) as usize] as u64;
            i = i - 1;
        }
        assert(b.skip(0) =~= b);
    }
    Ok(v)
}

/// Text from UTF-8 bytes (`String::from_utf8`).
#[verifier::external_body]
pub(crate) fn string_from_utf8(bytes: Vec<u8>) -> (r: Result<String, UnpackError>)
    ensures
        match spec_utf8(bytes@) {
            Ok(s) => r is Ok && r->Ok_0@ == s,
            Err(e) => r == Err::<String, UnpackError>(e),
        },
{
    String::from_utf8(bytes).map_err(|_| UnpackError::InvalidUtf8)
}

/// Whether `s` holds exactly the text `lit`.
pub fn string_is(s: &String, lit: &str) -> (b: bool)
    ensures
        b == (s@ == lit@),
{
    let owned = lit.to_owned();
    *s == owned
}

/// What `String::from_utf8_lossy` makes of `b`: the text, with every
/// invalid sequence replaced by U+FFFD.
pub uninterp spec fn utf8_lossy(b: Seq<u8>) -> Seq<char>;

/// Text from bytes as `String::from_utf8_lossy` gives it: the plain
/// decoding where the bytes are valid UTF-8, else the named lenient one.
pub open spec fn lenient_utf8(b: Seq<u8>) -> Seq<char> {
    if valid_utf8(b) {
        decode_utf8(b)
    } else {
        utf8_lossy(b)
    }
}

/// Text from bytes, replacing what is not UTF-8 (`String::from_utf8_lossy`).
/// Stated: the result is the named lenient decoding, and on valid UTF-8 it
/// is the plain decoding, as the documentation of that function says.
#[verifier::external_body]
pub(crate) fn string_from_utf8_lossy(b: &[u8]) -> (s: String)
    ensures
        s@ == utf8_lossy(b@),
        valid_utf8(b@) ==> s@ == decode_utf8(b@),
{
    String::from_utf8_lossy(b).into_owned()
}

/// A zero-terminated UTF-8 string.
pub fn cstring(reader: &mut Reader) -> (r: Result<String, UnpackError>)
    ensures
        read_follows(r, *old(reader), *final(reader), spec_cstring(old(reader).bytes(), old(reader).position())),
{
    let bytes = reader.read_until_zero();
    string_from_utf8(bytes)
}

pub fn byte(reader: &mut Reader) -> (r: Result<u8, UnpackError>)
    ensures
        read_follows(r, *old(reader), *final(reader), spec_byte(old(reader).bytes(), old(reader).position())),
{
    let v = read_uint(reader, 1, false)?;
    proof { lemma_pow256_values(); }
    Ok(v as u8)
}

pub fn u16_be(reader: &mut Reader) -> (r: Result<u16, UnpackError>)
    ensures
        read_follows(r, *old(reader), *final(reader), spec_u16(old(reader).bytes(), old(reader).position(), true)),
{
    let v = read_uint(reader, 2, true)?;
    proof { lemma_pow256_values(); }
    Ok(v as u16)
}

pub fn u16_le(reader: &mut Reader) -> (r: Result<u16, UnpackError>)
    ensures
        read_follows(r, *old(reader), *final(reader), spec_u16(old(reader).bytes(), old(reader).position(), false)),
{
    let v = read_uint(reader, 2, false)?;
    proof { lemma_pow256_values(); }
    Ok(v as u16)
}

pub fn u32_be(reader: &mut Reader) -> (r: Result<u32, UnpackError>)
    ensures
        read_follows(r, *old(reader), *final(reader), spec_u32(old(reader).bytes(), old(reader).position(), true)),
{
    let v = read_uint(reader, 4, true)?;
    proof { lemma_pow256_values(); }
    Ok(v as u32)
}

pub fn u32_le(reader: &mut Reader) -> (r: Result<u32, UnpackError>)
    ensures
        read_follows(r, *old(reader), *final(reader), spec_u32(old(reader).bytes(), old(reader).position(), false)),
{
    let v = read_uint(reader, 4, false)?;
    proof { lemma_pow256_values(); }
    Ok(v as u32)
}

pub fn u64_be(reader: &mut Reader) -> (r: Result<u64, UnpackError>)
    ensures
        read_follows(r, *old(reader), *final(reader), spec_u64(old(reader).bytes(), old(reader).position(), true)),
{
    read_uint(reader, 8, true)
}

pub fn u64_le(reader: &mut Reader) -> (r: Result<u64, UnpackError>)
    ensures
        read_follows(r, *old(reader), *final(reader), spec_u64(old(reader).bytes(), old(reader).position(), false)),
{
    read_uint(reader, 8, false)
}

fn to_i16(v: u64) -> (r: i16)
    requires
        v < pow256(2),
    ensures
        r == signed_of(v as nat, 2),
        r == signed_of(v as nat, 2) as i16,
{
    proof { lemma_pow256_values(); }
    if v < 0x8000 {
        v as i16
    } else {
        (v as i32 - 0x1_0000) as i16
    }
}

fn to_i32(v: u64) -> (r: i32)
    requires
        v < pow256(4),
    ensures
        r == signed_of(v as nat, 4),
        r == signed_of(v as nat, 4) as i32,
{
    proof { lemma_pow256_values(); }
    if v < 0x8000_0000 {
        v as i32
    } else {
        (v as i64 - 0x1_0000_0000) as i32
    }
}

fn to_i64(v: u64) -> (r: i64)
    ensures
        r == signed_of(v as nat, 8),
        r == signed_of(v as nat, 8) as i64,
{
    proof { lemma_pow256_values(); }
    if v < 0x8000_0000_0000_0000 {
        v as i64
    } else {
        -((u64::MAX - v) as i64) - 1
    }
}

pub fn i16_be(reader: &mut Reader) -> (r: Result<i16, UnpackError>)
    ensures
        read_follows(r, *old(reader), *final(reader), spec_i16(old(reader).bytes(), old(reader).position(), true)),
{
    let v = read_uint(reader, 2, true)?;
    proof { lemma_pow256_values(); }
    Ok(to_i16(v))
}

pub fn i16_le(reader: &mut Reader) -> (r: Result<i16, UnpackError>)
    ensures
        read_follows(r, *old(reader), *final(reader), spec_i16(old(reader).bytes(), old(reader).position(), false)),
{
    let v = read_uint(reader, 2, false)?;
    proof { lemma_pow256_values(); }
    Ok(to_i16(v))
}

pub fn i32_be(reader: &mut Reader) -> (r: Result<i32, UnpackError>)
    ensures
        read_follows(r, *old(reader), *final(reader), spec_i32(old(reader).bytes(), old(reader).position(), true)),
{
    let v = read_uint(reader, 4, true)?;
    proof { lemma_pow256_values(); }
    Ok(to_i32(v))
}

pub fn i32_le(reader: &mut Reader) -> (r: Result<i32, UnpackError>)
    ensures
        read_follows(r, *old(reader), *final(reader), spec_i32(old(reader).bytes(), old(reader).position(), false)),
{
    let v = read_uint(reader, 4, false)?;
    proof { lemma_pow256_values(); }
    Ok(to_i32(v))
}

pub fn i64_be(reader: &mut Reader) -> (r: Result<i64, UnpackError>)
    ensures
        read_follows(r, *old(reader), *final(reader), spec_i64(old(reader).bytes(), old(reader).position(), true)),
{
    let v = read_uint(reader, 8, true)?;
    proof { lemma_pow256_values(); }
    Ok(to_i64(v))
}

pub fn i64_le(reader: &mut Reader) -> (r: Result<i64, UnpackError>)
    ensures
        read_follows(r, *old(reader), *final(reader), spec_i64(old(reader).bytes(), old(reader).position(), false)),
{
    let v = read_uint(reader, 8, false)?;
    proof { lemma_pow256_values(); }
    Ok(to_i64(v))
}

/// Moves forward to the next multiple of four bytes counted from `base`.
pub fn align4(reader: &mut Reader, base: u64) -> (r: Result<(), UnpackError>)
    ensures
        final(reader).bytes() == old(reader).bytes(),
        final(reader).bytes().len() <= isize::MAX,
        match spec_align4_seek(old(reader).position(), base as int) {
            Ok(p) => r is Ok && final(reader).position() == p,
            Err(e) => r == Err::<(), UnpackError>(e),
        },
{
    let here = reader.stream_position();
    if here < base {
        return Err(UnpackError::PositionBeforeBase);
    }
    let pos = here - base;
    let rem = pos % 4;
    if rem != 0 {
        reader.seek_current((4 - rem) as i64)?;
    }
    Ok(())
}

/// A byte array with a little-endian `u32` length before it, followed by
/// alignment to four bytes.
pub fn aligned_bytes(reader: &mut Reader) -> (r: Result<Vec<u8>, UnpackError>)
    ensures
        read_follows(r, *old(reader), *final(reader), spec_aligned_bytes(old(reader).bytes(), old(reader).position())),
{
    let len = u32_le(reader)? as u64;
    let buf = reader.read_exact(len)?;
    align4(reader, 0)?;
    Ok(buf)
}

/// A UTF-8 string stored like [`aligned_bytes`].
pub fn aligned_string(reader: &mut Reader) -> (r: Result<String, UnpackError>)
    ensures
        read_follows(r, *old(reader), *final(reader), spec_aligned_string(old(reader).bytes(), old(reader).position())),
{
    let bytes = aligned_bytes(reader)?;
    string_from_utf8(bytes)
}

} // verus!
