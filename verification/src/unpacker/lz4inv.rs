//! The LZ4 variant with big-endian match offsets ("LZ4Inv") that some
//! bundles use for their storage blocks.

use vstd::prelude::*;

use crate::error::UnpackError;

verus! {

/// A length field that continues over extra bytes: from position `i`, every
/// byte is added to `acc`, and the field ends at the first byte below 255.
/// `err` is the error where the input ends first. Yields the length and the
/// position after the field.
pub open spec fn spec_ext_len(c: Seq<u8>, i: int, acc: int, err: UnpackError) -> Result<(int, int), UnpackError>
    decreases c.len() - i,
{
    if !(0 <= i < c.len()) {
        Err(err)
    } else if c[i] < 255 {
        Ok((acc + c[i], i + 1))
    } else {
        spec_ext_len(c, i + 1, acc + 255, err)
    }
}

/// Copies `n` bytes, one at a time, from position `from` of `out` to its
/// end; a copy may read bytes that it has itself just written.
pub open spec fn spec_copy_match(out: Seq<u8>, from: int, n: int) -> Seq<u8>
    decreases n,
{
    if n <= 0 {
        out
    } else {
        spec_copy_match(out.push(out[from]), from + 1, n - 1)
    }
}

/// What one sequence (token, literals, match) of the stream does.
pub enum Lz4Step {
    /// The output reached the wanted size after the literals.
    Done(Seq<u8>),
    /// The sequence ended at the input position, with the output so far.
    Next(int, Seq<u8>),
}

/// One sequence of the stream, starting at input position `i` with output
/// `out` shorter than `size`.
pub open spec fn spec_lz4inv_step(c: Seq<u8>, size: int, i: int, out: Seq<u8>) -> Result<Lz4Step, UnpackError> {
    if !(0 <= i < c.len()) {
        Err(UnpackError::Lz4InvInputTruncated)
    } else {
        let token = c[i];
        let lit = (token % 16) as int;
        let lit_field = if lit == 15 {
            spec_ext_len(c, i + 1, 15, UnpackError::Lz4InvLitLenTruncated)
        } else {
            Ok((lit, i + 1))
        };
        match lit_field {
            Err(e) => Err(e),
            Ok((lit_len, i2)) => if i2 + lit_len > c.len() {
                Err(UnpackError::Lz4InvLiteralOutOfBounds)
            } else {
                let out1 = out + c.subrange(i2, i2 + lit_len);
                let i3 = i2 + lit_len;
                if out1.len() >= size {
                    Ok(Lz4Step::Done(out1))
                } else if i3 + 2 > c.len() {
                    Err(UnpackError::Lz4InvOffsetTruncated)
                } else {
                    let offset = c[i3] * 256 + c[i3 + 1];
                    if offset == 0 {
                        Err(UnpackError::Lz4InvZeroOffset)
                    } else {
                        let m = (token / 16) as int;
                        let match_field = if m == 15 {
                            spec_ext_len(c, i3 + 2, 19, UnpackError::Lz4InvMatchLenTruncated)
                        } else {
                            Ok((m + 4, i3 + 2))
                        };
                        match match_field {
                            Err(e) => Err(e),
                            Ok((match_len, i5)) => if offset > out1.len() {
                                Err(UnpackError::Lz4InvOffsetOutOfRange)
                            } else {
                                Ok(Lz4Step::Next(i5, spec_copy_match(out1, out1.len() - offset, match_len)))
                            },
                        }
                    }
                }
            },
        }
    }
}

pub proof fn lemma_ext_len_advances(c: Seq<u8>, i: int, acc: int, err: UnpackError)
    ensures
        spec_ext_len(c, i, acc, err) matches Ok((n, j)) ==> i < j <= c.len() && n >= acc,
    decreases c.len() - i,
{
    if 0 <= i < c.len() && c[i] >= 255 {
        lemma_ext_len_advances(c, i + 1, acc + 255, err);
    }
}

pub proof fn lemma_step_advances(c: Seq<u8>, size: int, i: int, out: Seq<u8>)
    ensures
        spec_lz4inv_step(c, size, i, out) matches Ok(Lz4Step::Next(j, _)) ==> i < j <= c.len(),
{
    if 0 <= i < c.len() {
        lemma_ext_len_advances(c, i + 1, 15, UnpackError::Lz4InvLitLenTruncated);
        let token = c[i];
        let lit = (token % 16) as int;
        let lit_field = if lit == 15 {
            spec_ext_len(c, i + 1, 15, UnpackError::Lz4InvLitLenTruncated)
        } else {
            Ok((lit, i + 1))
        };
        if let Ok((lit_len, i2)) = lit_field {
            lemma_ext_len_advances(c, i2 + lit_len + 2, 19, UnpackError::Lz4InvMatchLenTruncated);
        }
    }
}

/// Decoding from input position `i` with output `out` until the output
/// holds at least `size` bytes.
pub open spec fn spec_lz4inv_from(c: Seq<u8>, size: int, i: int, out: Seq<u8>) -> Result<Seq<u8>, UnpackError>
    decreases c.len() - i,
{
    if out.len() >= size {
        Ok(out)
    } else {
        match spec_lz4inv_step(c, size, i, out) {
            Err(e) => Err(e),
            Ok(Lz4Step::Done(o)) => Ok(o),
            Ok(Lz4Step::Next(j, o)) => {
                proof {
                    lemma_step_advances(c, size, i, out);
                }
                spec_lz4inv_from(c, size, j, o)
            },
        }
    }
}

/// The whole decoding of `c` to at least `size` bytes.
pub open spec fn spec_lz4inv(c: Seq<u8>, size: int) -> Result<Seq<u8>, UnpackError> {
    spec_lz4inv_from(c, size, 0, Seq::empty())
}


/// The extra bytes of a length field for the amount `n` beyond 15: as many
/// 255s as fit, then the rest.
pub open spec fn ext_bytes(n: nat) -> Seq<u8>
    decreases n,
{
    if n < 255 {
        seq![n as u8]
    } else {
        seq![255u8] + ext_bytes((n - 255) as nat)
    }
}

/// A stream of one sequence that holds only the literals `lits`.
pub open spec fn literal_run(lits: Seq<u8>) -> Seq<u8> {
    if lits.len() < 15 {
        seq![lits.len() as u8] + lits
    } else {
        seq![15u8] + ext_bytes((lits.len() - 15) as nat) + lits
    }
}

proof fn lemma_ext_bytes_read(pre: Seq<u8>, n: nat, rest: Seq<u8>, acc: int, err: UnpackError)
    ensures
        spec_ext_len(pre + ext_bytes(n) + rest, pre.len() as int, acc, err)
            == Ok::<(int, int), UnpackError>((acc + n, (pre.len() + ext_bytes(n).len()) as int)),
    decreases n,
{
    let c = pre + ext_bytes(n) + rest;
    if n < 255 {
        assert(c[pre.len() as int] == n as u8);
    } else {
        let m = (n - 255) as nat;
        assert(c[pre.len() as int] == 255u8);
        let pre2 = pre.push(255u8);
        assert(pre2 + ext_bytes(m) + rest =~= c);
        lemma_ext_bytes_read(pre2, m, rest, acc + 255, err);
    }
}

/// A sequence of literals only, with its length encoded in the token (and
/// the extra length bytes past 15), decodes to exactly those literals when
/// as many bytes are asked for.
pub proof fn literal_run_decodes_to_literals(lits: Seq<u8>)
    ensures
        spec_lz4inv(literal_run(lits), lits.len() as int) == Ok::<Seq<u8>, UnpackError>(lits),
{
    let c = literal_run(lits);
    let n = lits.len();
    if n > 0 {
        let empty = Seq::<u8>::empty();
        if n < 15 {
            assert(c[0] == n as u8);
            assert((n as u8) as int == n);
            assert(c.subrange(1, 1 + n as int) =~= lits);
            assert(empty + c.subrange(1, 1 + n as int) =~= lits);
        } else {
            let pre = seq![15u8];
            let ext = ext_bytes((n - 15) as nat);
            assert(c =~= pre + ext + lits);
            lemma_ext_bytes_read(pre, (n - 15) as nat, lits, 15, UnpackError::Lz4InvLitLenTruncated);
            assert(c[0] == 15u8);
            assert(c.subrange(1 + ext.len() as int, (1 + ext.len() + n) as int) =~= lits);
            assert(empty + c.subrange(1 + ext.len() as int, (1 + ext.len() + n) as int) =~= lits);
        }
        assert(spec_lz4inv_step(c, n as int, 0, empty) == Ok::<Lz4Step, UnpackError>(Lz4Step::Done(lits)));
    } else {
        assert(lits =~= Seq::<u8>::empty());
    }
}

/// A sequence of the literals `lits` followed by a match of `n` bytes
/// (4 to 18) at offset `k`, written with the offset's high byte first.
pub open spec fn literals_then_match(lits: Seq<u8>, n: nat, k: nat) -> Seq<u8> {
    let lit_nibble: nat = if lits.len() < 15 { lits.len() } else { 15 };
    let token = ((n - 4) * 16 + lit_nibble) as u8;
    let ext = if lits.len() < 15 { Seq::<u8>::empty() } else { ext_bytes((lits.len() - 15) as nat) };
    seq![token] + ext + lits + seq![(k / 256) as u8, (k % 256) as u8]
}

proof fn lemma_copy_without_overlap(out: Seq<u8>, from: int, n: int)
    requires
        0 <= from,
        0 <= n,
        from + n <= out.len(),
    ensures
        spec_copy_match(out, from, n) == out + out.subrange(from, from + n),
    decreases n,
{
    if n == 0 {
        assert(out + out.subrange(from, from) =~= out);
    } else {
        let out2 = out.push(out[from]);
        lemma_copy_without_overlap(out2, from + 1, n - 1);
        assert(out2 + out2.subrange(from + 1, from + n) =~= out + out.subrange(from, from + n));
    }
}

/// A match copies from as far back as its offset says, the offset being
/// the two bytes after the literals read high byte first: after literals
/// `lits`, a match of `n` bytes at offset `k` (at most `lits.len()`, at
/// least `n`, at most 65535) appends the `n` bytes of `lits` that start `k`
/// bytes before its end.
pub proof fn match_copies_from_its_big_endian_offset(lits: Seq<u8>, n: nat, k: nat)
    requires
        4 <= n <= 18,
        n <= k <= lits.len(),
        k <= 65535,
    ensures
        spec_lz4inv(literals_then_match(lits, n, k), (lits.len() + n) as int)
            == Ok::<Seq<u8>, UnpackError>(lits + lits.subrange(lits.len() - k, lits.len() - k + n)),
{
    let c = literals_then_match(lits, n, k);
    let len = lits.len() as int;
    let lit_nibble: nat = if lits.len() < 15 { lits.len() } else { 15 };
    let token = ((n - 4) * 16 + lit_nibble) as u8;
    let ext = if lits.len() < 15 { Seq::<u8>::empty() } else { ext_bytes((lits.len() - 15) as nat) };
    let tail = seq![(k / 256) as u8, (k % 256) as u8];
    assert(c == seq![token] + ext + lits + tail);
    assert(c[0] == token);
    assert(token % 16 == lit_nibble && token / 16 == n - 4) by {
        assert(((n - 4) * 16 + lit_nibble) as u8 == (n - 4) * 16 + lit_nibble);
    }
    let i2 = 1 + ext.len();
    if lits.len() >= 15 {
        assert(c == seq![token] + ext + (lits + tail));
        lemma_ext_bytes_read(seq![token], (lits.len() - 15) as nat, lits + tail, 15, UnpackError::Lz4InvLitLenTruncated);
    }
    assert(c.subrange(i2 as int, i2 + len) =~= lits);
    let i3 = i2 + len;
    assert(c[i3] == (k / 256) as u8);
    assert(c[i3 + 1] == (k % 256) as u8);
    assert(c[i3] * 256 + c[i3 + 1] == k);
    let out1 = Seq::<u8>::empty() + c.subrange(i2 as int, i2 + len);
    assert(out1 =~= lits);
    lemma_copy_without_overlap(lits, len - k, n as int);
    let o = spec_copy_match(out1, out1.len() - k, n as int);
    assert(spec_lz4inv_step(c, len + n, 0, Seq::empty()) == Ok::<Lz4Step, UnpackError>(Lz4Step::Next(i3 + 2, o)));
    assert(spec_lz4inv_from(c, len + n, i3 + 2, o) == Ok::<Seq<u8>, UnpackError>(o));
}

/// `b` repeated `n` times.
pub open spec fn repeat_byte(b: u8, n: nat) -> Seq<u8> {
    Seq::new(n, |i: int| b)
}

/// A match at offset 1 repeats the last byte of the output: an
/// overlapping copy reads back what it has just written.
pub proof fn copy_at_offset_one_repeats(out: Seq<u8>, n: nat)
    requires
        out.len() > 0,
    ensures
        spec_copy_match(out, out.len() - 1, n as int) == out + repeat_byte(out.last(), n),
    decreases n,
{
    if n == 0 {
        assert(out + repeat_byte(out.last(), 0) =~= out);
    } else {
        let out2 = out.push(out[out.len() - 1]);
        copy_at_offset_one_repeats(out2, (n - 1) as nat);
        assert(out2.last() == out.last());
        assert(out2 + repeat_byte(out2.last(), (n - 1) as nat) =~= out + repeat_byte(out.last(), n));
    }
}


proof fn lemma_copy_match_extends(out: Seq<u8>, from: int, n: int)
    ensures
        out.is_prefix_of(spec_copy_match(out, from, n)),
    decreases n,
{
    if n > 0 {
        lemma_copy_match_extends(out.push(out[from]), from + 1, n - 1);
        assert(out.is_prefix_of(out.push(out[from])));
    }
}

proof fn lemma_step_extends(c: Seq<u8>, size: int, i: int, out: Seq<u8>)
    ensures
        spec_lz4inv_step(c, size, i, out) matches Ok(Lz4Step::Done(o)) ==> out.is_prefix_of(o),
        spec_lz4inv_step(c, size, i, out) matches Ok(Lz4Step::Next(_, o)) ==> out.is_prefix_of(o),
{
    if 0 <= i < c.len() {
        let token = c[i];
        let lit = (token % 16) as int;
        let lit_field = if lit == 15 {
            spec_ext_len(c, i + 1, 15, UnpackError::Lz4InvLitLenTruncated)
        } else {
            Ok((lit, i + 1))
        };
        if let Ok((lit_len, i2)) = lit_field {
            if i2 + lit_len <= c.len() {
                let out1 = out + c.subrange(i2, i2 + lit_len);
                assert(out.is_prefix_of(out1));
                let i3 = i2 + lit_len;
                if out1.len() < size && i3 + 2 <= c.len() {
                    let offset = c[i3] * 256 + c[i3 + 1];
                    let m = (token / 16) as int;
                    let match_field = if m == 15 {
                        spec_ext_len(c, i3 + 2, 19, UnpackError::Lz4InvMatchLenTruncated)
                    } else {
                        Ok((m + 4, i3 + 2))
                    };
                    if let Ok((match_len, i5)) = match_field {
                        lemma_copy_match_extends(out1, out1.len() - offset, match_len);
                    }
                }
            }
        }
    }
}

proof fn lemma_done_before_next(c: Seq<u8>, m: int, n: int, i: int, out: Seq<u8>)
    requires
        spec_lz4inv_step(c, m, i, out) matches Ok(Lz4Step::Done(_)),
        spec_lz4inv_step(c, n, i, out) matches Ok(Lz4Step::Next(_, _)),
    ensures
        spec_lz4inv_step(c, m, i, out)->Ok_0->Done_0.is_prefix_of(spec_lz4inv_step(c, n, i, out)->Ok_0->Next_1),
{
    let token = c[i];
    let lit = (token % 16) as int;
    let lit_field = if lit == 15 {
        spec_ext_len(c, i + 1, 15, UnpackError::Lz4InvLitLenTruncated)
    } else {
        Ok((lit, i + 1))
    };
    let (lit_len, i2) = lit_field->Ok_0;
    let out1 = out + c.subrange(i2, i2 + lit_len);
    let i3 = i2 + lit_len;
    let offset = c[i3] * 256 + c[i3 + 1];
    let m2 = (token / 16) as int;
    let match_field = if m2 == 15 {
        spec_ext_len(c, i3 + 2, 19, UnpackError::Lz4InvMatchLenTruncated)
    } else {
        Ok((m2 + 4, i3 + 2))
    };
    let (match_len, i5) = match_field->Ok_0;
    lemma_copy_match_extends(out1, out1.len() - offset, match_len);
}

proof fn lemma_from_extends(c: Seq<u8>, size: int, i: int, out: Seq<u8>)
    ensures
        spec_lz4inv_from(c, size, i, out) matches Ok(o) ==> out.is_prefix_of(o),
    decreases c.len() - i,
{
    if out.len() < size {
        lemma_step_extends(c, size, i, out);
        if let Ok(Lz4Step::Next(j, o)) = spec_lz4inv_step(c, size, i, out) {
            lemma_step_advances(c, size, i, out);
            lemma_from_extends(c, size, j, o);
        }
    }
}

proof fn lemma_from_smaller_target(c: Seq<u8>, m: int, n: int, i: int, out: Seq<u8>)
    requires
        m <= n,
        spec_lz4inv_from(c, n, i, out) is Ok,
    ensures
        spec_lz4inv_from(c, m, i, out) is Ok,
        spec_lz4inv_from(c, m, i, out)->Ok_0.len() >= m,
        spec_lz4inv_from(c, m, i, out)->Ok_0.is_prefix_of(spec_lz4inv_from(c, n, i, out)->Ok_0),
    decreases c.len() - i,
{
    if out.len() >= n {
    } else if out.len() >= m {
        lemma_from_extends(c, n, i, out);
    } else {
        let sm = spec_lz4inv_step(c, m, i, out);
        let sn = spec_lz4inv_step(c, n, i, out);
        match sn {
            Ok(Lz4Step::Done(o)) => {
                lemma_step_extends(c, n, i, out);
            },
            Ok(Lz4Step::Next(j, o)) => {
                lemma_step_advances(c, n, i, out);
                match sm {
                    Ok(Lz4Step::Done(o1)) => {
                        lemma_from_extends(c, n, j, o);
                        lemma_done_before_next(c, m, n, i, out);
                        let whole = spec_lz4inv_from(c, n, j, o)->Ok_0;
                        assert(o1.is_prefix_of(o));
                        assert(o.is_prefix_of(whole));
                        assert(o1.is_prefix_of(whole)) by {
                            assert forall|k: int| 0 <= k < o1.len() implies o1[k] == whole[k] by {
                                assert(o1[k] == o[k]);
                            }
                        }
                    },
                    _ => {
                        lemma_from_smaller_target(c, m, n, j, o);
                    },
                }
            },
            Err(_) => {},
        }
    }
}

/// Decoding a stream to a smaller size gives a prefix of what decoding it
/// to a larger size gives: asking for fewer bytes stops earlier on the same
/// output, still with at least as many bytes as asked for.
pub proof fn smaller_target_decodes_prefix(c: Seq<u8>, m: int, n: int)
    requires
        m <= n,
        spec_lz4inv(c, n) is Ok,
    ensures
        spec_lz4inv(c, m) is Ok,
        spec_lz4inv(c, m)->Ok_0.len() >= m,
        spec_lz4inv(c, m)->Ok_0.is_prefix_of(spec_lz4inv(c, n)->Ok_0),
{
    lemma_from_smaller_target(c, m, n, 0, Seq::empty());
}

/// Reads an extended length field that starts at `i` with `acc` already counted.
fn ext_len(c: &[u8], i: usize, acc: u128, err: UnpackError) -> (r: Result<(u128, usize), UnpackError>)
    requires
        acc <= 19,
        i <= c@.len(),
    ensures
        match spec_ext_len(c@, i as int, acc as int, err) {
            Ok((n, j)) => r matches Ok((rn, rj)) && rn == n && rj == j && i < j <= c@.len(),
            Err(e) => r == Err::<(u128, usize), UnpackError>(e),
        },
{
    let mut pos = i;
    let mut total = acc;
    loop
        invariant
            i <= pos <= c@.len(),
            total <= 19 + 255 * (pos - i),
            pos - i <= 0x1_0000_0000_0000_0000,
            spec_ext_len(c@, i as int, acc as int, err) == spec_ext_len(c@, pos as int, total as int, err),
        decreases c@.len() - pos,
    {
        if pos >= c.len() {
            return Err(err);
        }
        let e = c[pos];
        if e < 255 {
            assert(total + e < 0x1_0000_0000_0000_0000_0000_0000_0000_0000);
            return Ok((total + e as u128, pos + 1));
        }
        total = total + 255;
        pos = pos + 1;
    }
}

/// Decodes an LZ4Inv stream until at least `decompressed_size` bytes are out.
///
/// A sequence is a token (literal length in the low four bits, match length
/// minus four in the high four), the literals, a big-endian 16-bit offset and
/// the match. Lengths of 15 continue over further bytes. Decoding stops as
/// soon as the output holds `decompressed_size` bytes after some literals or
/// matches, so the output may be longer than asked for.
pub fn decompress(compressed: &[u8], decompressed_size: usize) -> (r: Result<Vec<u8>, UnpackError>)
    ensures
        match spec_lz4inv(compressed@, decompressed_size as int) {
            Ok(o) => r is Ok && r->Ok_0@ == o,
            Err(e) => r == Err::<Vec<u8>, UnpackError>(e),
        },
        r matches Ok(o) ==> o@.len() >= decompressed_size,
{
    let ghost c = compressed@;
    let ghost size = decompressed_size as int;
    let mut out: Vec<u8> = Vec::with_capacity(decompressed_size);
    let mut i: usize = 0;

    while out.len() < decompressed_size
        invariant_except_break
            i <= compressed@.len(),
            c == compressed@,
            size == decompressed_size,
            spec_lz4inv(c, size) == spec_lz4inv_from(c, size, i as int, out@),
        ensures
            spec_lz4inv(c, size) == Ok::<Seq<u8>, UnpackError>(out@),
            out@.len() >= size,
        decreases compressed@.len() - i,
    {
        let ghost i0 = i as int;
        let ghost out0 = out@;
        if i >= compressed.len() {
            return Err(UnpackError::Lz4InvInputTruncated);
        }
        let token = compressed[i];
        i = i + 1;

        assert(token & 0x0F == token % 16) by (bit_vector);
        assert(token >> 4 == token / 16) by (bit_vector);
        let mut lit_len: u128 = (token & 0x0F) as u128;
        if lit_len == 15 {
            let (l, j) = ext_len(compressed, i, 15, UnpackError::Lz4InvLitLenTruncated)?;
            lit_len = l;
            i = j;
        }

        if lit_len > (compressed.len() - i) as u128 {
            return Err(UnpackError::Lz4InvLiteralOutOfBounds);
        }
        let lit_end = i + lit_len as usize;
        let ghost i2 = i as int;
        assert(lit_end <= compressed@.len());
        while i < lit_end
            invariant
                0 <= i2 <= i <= lit_end <= compressed@.len(),
                out@ == out0 + compressed@.subrange(i2, i as int),
            decreases lit_end - i,
        {
            proof {
                assert(compressed@.subrange(i2, i + 1) =~= compressed@.subrange(i2, i as int).push(compressed@[i as int]));
            }
            out.push(compressed[i]);
            i = i + 1;
        }

        if out.len() >= decompressed_size {
            break;
        }

        if compressed.len() - i < 2 {
            return Err(UnpackError::Lz4InvOffsetTruncated);
        }
        let offset = (compressed[i] as usize) * 256 + compressed[i + 1] as usize;
        i = i + 2;
        if offset == 0 {
            return Err(UnpackError::Lz4InvZeroOffset);
        }

        let mut match_len: u128 = (token >> 4) as u128 + 4;
        if (token >> 4) == 15 {
            let (l, j) = ext_len(compressed, i, 19, UnpackError::Lz4InvMatchLenTruncated)?;
            match_len = l;
            i = j;
        }

        if offset > out.len() {
            return Err(UnpackError::Lz4InvOffsetOutOfRange);
        }
        let match_pos = out.len() - offset;
        let ghost out1 = out@;
        let mut src = match_pos;
        let mut k: u128 = 0;
        while k < match_len
            invariant
                k <= match_len,
                src == match_pos + k,
                src < out@.len(),
                spec_copy_match(out1, match_pos as int, match_len as int)
                    == spec_copy_match(out@, src as int, match_len - k),
            decreases match_len - k,
        {
            let b = out[src];
            out.push(b);
            let n = out.len();
            assert(src < n);
            src = src + 1;
            k = k + 1;
        }
    }

    Ok(out)
}

} // verus!
