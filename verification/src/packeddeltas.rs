//! Packed delta sequences: an ordered sequence of signed 16-bit deltas,
//! run-length compressed with three run kinds (zero, one-byte, two-byte).
//!
//! A run starts with a control byte whose low six bits hold the run length
//! minus one (so a run holds at most 64 values) and whose top two bits select
//! the kind: `0x80` means the run is all zeroes and carries no payload,
//! `0x40` means each value is a big-endian signed word, and neither bit means
//! each value is a sign-extended byte. The sequence is not self-counting: the
//! caller supplies the expected value count on decode.
use crate::wire::{be16, i16_of_u16_repr, int_of_u8_repr, u16_repr_of_i16, u8_repr_of_int};
use crate::CodecError;
use vstd::prelude::*;

verus! {

use vstd::arithmetic::div_mod::lemma_fundamental_div_mod;
use vstd::arithmetic::div_mod::lemma_fundamental_div_mod_converse;

/// Run kind of one delta value: 0 for zero, 1 for a value that fits a signed
/// byte, 2 for one that needs a signed word.
pub open spec fn delta_kind(v: i16) -> int {
    if v == 0 {
        0
    } else if -128 <= v && v <= 127 {
        1
    } else {
        2
    }
}

/// How many leading values of `d` have kind `k`.
pub open spec fn leading_kind_count(d: Seq<i16>, k: int) -> int
    decreases d.len(),
{
    if d.len() == 0 || delta_kind(d[0]) != k {
        0
    } else {
        1 + leading_kind_count(d.drop_first(), k)
    }
}

/// Length of the first run an optimal encoder emits for nonempty `d`: the
/// leading values of one kind, capped at 64.
pub open spec fn first_run_len(d: Seq<i16>) -> int {
    let rest = leading_kind_count(d.drop_first(), delta_kind(d[0]));
    if rest > 63 {
        64
    } else {
        1 + rest
    }
}

/// Control byte of a run of `n` values of kind `k`.
pub open spec fn control_byte(k: int, n: int) -> u8 {
    if k == 0 {
        (128 + n - 1) as u8
    } else if k == 2 {
        (64 + n - 1) as u8
    } else {
        (n - 1) as u8
    }
}

/// Payload of a one-byte run: each value as its two's-complement byte.
pub open spec fn byte_payload(d: Seq<i16>) -> Seq<u8> {
    Seq::new(d.len(), |i: int| u8_repr_of_int(d[i] as int) as u8)
}

/// Payload of a two-byte run: each value big-endian, two's complement.
pub open spec fn word_payload(d: Seq<i16>) -> Seq<u8> {
    Seq::new(
        2 * d.len(),
        |t: int|
            if t % 2 == 0 {
                (u16_repr_of_i16(d[t / 2]) / 256) as u8
            } else {
                (u16_repr_of_i16(d[t / 2]) % 256) as u8
            },
    )
}

/// Payload of a run of kind `k` over the values `d`.
pub open spec fn run_payload(d: Seq<i16>, k: int) -> Seq<u8> {
    if k == 0 {
        seq![]
    } else if k == 2 {
        word_payload(d)
    } else {
        byte_payload(d)
    }
}

/// The packed encoding of the whole delta sequence `d`: greedy runs of one
/// kind, each at most 64 values.
pub open spec fn spec_encode_deltas(d: Seq<i16>) -> Seq<u8>
    decreases d.len(),
    via spec_encode_deltas_dec
{
    if d.len() == 0 {
        seq![]
    } else {
        let k = delta_kind(d[0]);
        let n = first_run_len(d);
        seq![control_byte(k, n)] + run_payload(d.take(n), k) + spec_encode_deltas(d.skip(n))
    }
}

#[via_fn]
proof fn spec_encode_deltas_dec(d: Seq<i16>) {
    if d.len() > 0 {
        lemma_leading_kind_count_bounds(d.drop_first(), delta_kind(d[0]));
    }
}

/// The `n` zero values of a zero run.
pub open spec fn zero_run_vals(n: int) -> Seq<i16> {
    Seq::new(n as nat, |i: int| 0i16)
}

/// The `n` values of a one-byte run whose payload starts at `pos` in `b`.
pub open spec fn byte_run_vals(b: Seq<u8>, pos: int, n: int) -> Seq<i16> {
    Seq::new(n as nat, |i: int| int_of_u8_repr(b[pos + i] as int) as i16)
}

/// The `n` values of a two-byte run whose payload starts at `pos` in `b`.
pub open spec fn word_run_vals(b: Seq<u8>, pos: int, n: int) -> Seq<i16> {
    Seq::new(n as nat, |i: int| i16_of_u16_repr(be16(b[pos + 2 * i], b[pos + 2 * i + 1])) as i16)
}

/// Decoding of packed deltas from `b` starting at `pos`, until `count`
/// values are produced. Returns the values and the position one past the
/// last byte consumed. A stream that ends before `count` values are produced
/// is truncated; a run that would overrun `count` is a size mismatch.
pub open spec fn spec_decode_deltas(b: Seq<u8>, pos: int, count: int) -> Result<
    (Seq<i16>, int),
    CodecError,
>
    decreases count,
{
    if count <= 0 {
        Ok((seq![], pos))
    } else if !(0 <= pos < b.len()) {
        Err(CodecError::TruncatedInput)
    } else {
        let c = b[pos];
        let n = c % 64 + 1;
        if n > count {
            Err(CodecError::SizeMismatch)
        } else if c / 64 >= 2 {
            match spec_decode_deltas(b, pos + 1, count - n) {
                Ok((rest, end)) => Ok((zero_run_vals(n as int) + rest, end)),
                Err(e) => Err(e),
            }
        } else if c / 64 == 1 {
            if pos + 1 + 2 * n > b.len() {
                Err(CodecError::TruncatedInput)
            } else {
                match spec_decode_deltas(b, pos + 1 + 2 * n, count - n) {
                    Ok((rest, end)) => Ok((word_run_vals(b, pos + 1, n as int) + rest, end)),
                    Err(e) => Err(e),
                }
            }
        } else {
            if pos + 1 + n > b.len() {
                Err(CodecError::TruncatedInput)
            } else {
                match spec_decode_deltas(b, pos + 1 + n, count - n) {
                    Ok((rest, end)) => Ok((byte_run_vals(b, pos + 1, n as int) + rest, end)),
                    Err(e) => Err(e),
                }
            }
        }
    }
}

/// An ordered sequence of signed deltas, one per affected point and
/// dimension component; the run-length compressed form does not store the
/// count, which the surrounding table implies.
#[derive(Clone, Debug, PartialEq)]
pub struct PackedDeltas {
    pub deltas: Vec<i16>,
}

/// Exec mirror of `delta_kind`.
fn delta_kind_ex(v: i16) -> (k: u8)
    ensures
        k as int == delta_kind(v),
{
    if v == 0 {
        0
    } else if -128 <= v && v <= 127 {
        1
    } else {
        2
    }
}

impl PackedDeltas {
    /// Encodes the delta sequence: greedily, a zero run while values are
    /// zero, a byte run while they fit a signed byte, else a word run, each
    /// run capped at 64 values.
    pub fn encode(&self) -> (r: Vec<u8>)
        ensures
            r@ == spec_encode_deltas(self.deltas@),
    {
        let d = &self.deltas;
        let mut out: Vec<u8> = Vec::new();
        let mut i: usize = 0;
        proof {
            assert(d@.skip(0int) =~= d@);
            assert(out@ + spec_encode_deltas(d@) =~= spec_encode_deltas(d@));
        }
        while i < d.len()
            invariant
                i <= d.len(),
                out@ + spec_encode_deltas(d@.skip(i as int)) == spec_encode_deltas(d@),
            decreases d.len() - i,
        {
            let k = delta_kind_ex(d[i]);
            let mut n: usize = 1;
            while i + n < d.len() && n < 64 && delta_kind_ex(d[i + n]) == k
                invariant
                    i < d.len(),
                    1 <= n,
                    i + n <= d.len(),
                    n <= 64,
                    k as int == delta_kind(d@[i as int]),
                    forall|j: int| i <= j < i + n ==> delta_kind(d@[j]) == k as int,
                decreases d.len() - i - n,
            {
                n = n + 1;
            }
            let ghost s = d@.skip(i as int);
            proof {
                assert forall|j: int| 0 <= j < n implies #[trigger] delta_kind(s[j]) == delta_kind(
                    s[0],
                ) by {
                    assert(s[j] == d@[i + j]);
                    assert(s[0] == d@[i as int]);
                }
                if !(n == 64 || i + n == d.len()) {
                    assert(s[n as int] == d@[i + n]);
                }
                lemma_first_run_len_is(s, n as int);
            }
            let control: u8 = if k == 0 {
                128 + (n as u8 - 1)
            } else if k == 2 {
                64 + (n as u8 - 1)
            } else {
                n as u8 - 1
            };
            let ghost out_before = out@;
            out.push(control);
            proof {
                assert(control == control_byte(k as int, n as int));
            }
            if k == 1 {
                let mut j: usize = 0;
                while j < n
                    invariant
                        j <= n,
                        i + n <= d.len(),
                        forall|t: int| i <= t < i + n ==> delta_kind(d@[t]) == 1,
                        out@ == out_before + seq![control_byte(1, n as int)] + byte_payload(
                            d@.subrange(i as int, i + j),
                        ),
                    decreases n - j,
                {
                    let v = d[i + j];
                    proof {
                        assert(delta_kind(d@[i + j]) == 1);
                    }
                    let byte: u8 = if v < 0 {
                        (v as i32 + 256) as u8
                    } else {
                        v as u8
                    };
                    out.push(byte);
                    proof {
                        assert(byte as int == u8_repr_of_int(d@[i + j] as int));
                        assert(byte_payload(d@.subrange(i as int, i + j + 1)) =~= byte_payload(
                            d@.subrange(i as int, i + j),
                        ).push(byte));
                        assert(out@ =~= out_before + seq![control_byte(1, n as int)]
                            + byte_payload(d@.subrange(i as int, i + j + 1)));
                    }
                    j += 1;
                }
            } else if k == 2 {
                let mut j: usize = 0;
                while j < n
                    invariant
                        j <= n,
                        i + n <= d.len(),
                        out@ == out_before + seq![control_byte(2, n as int)] + word_payload(
                            d@.subrange(i as int, i + j),
                        ),
                    decreases n - j,
                {
                    let v = d[i + j];
                    crate::wire::push_i16(&mut out, v);
                    proof {
                        assert(word_payload(d@.subrange(i as int, i + j + 1)) =~= word_payload(
                            d@.subrange(i as int, i + j),
                        ) + crate::wire::i16_be_bytes(v));
                        assert(out@ =~= out_before + seq![control_byte(2, n as int)]
                            + word_payload(d@.subrange(i as int, i + j + 1)));
                    }
                    j += 1;
                }
            }
            proof {
                let sub = d@.subrange(i as int, i + n);
                assert(sub =~= s.take(n as int));
                if k == 0 {
                    assert(out@ =~= out_before + seq![control_byte(0, n as int)] + run_payload(
                        s.take(n as int),
                        0,
                    ));
                } else {
                    assert(out@ =~= out_before + seq![control_byte(k as int, n as int)]
                        + run_payload(s.take(n as int), k as int));
                }
                assert(s.skip(n as int) =~= d@.skip(i + n));
                assert(out@ + spec_encode_deltas(d@.skip(i + n)) =~= out_before
                    + spec_encode_deltas(s));
            }
            i += n;
        }
        proof {
            assert(d@.skip(i as int) =~= Seq::<i16>::empty());
            assert(spec_encode_deltas(d@.skip(i as int)).len() == 0);
            assert(out@ =~= out@ + spec_encode_deltas(d@.skip(i as int)));
        }
        out
    }

    /// Decodes `count` deltas from `data` starting at `pos`. Returns the
    /// values and the position one past the last byte consumed. Fails with
    /// `TruncatedInput` when the bytes end before `count` values have been
    /// produced, and with `SizeMismatch` when a run overruns `count`.
    pub fn decode(data: &Vec<u8>, pos: usize, count: usize) -> (r: Result<
        (PackedDeltas, usize),
        CodecError,
    >)
        requires
            pos <= data.len(),
        ensures
            match r {
                Ok(p) => {
                    &&& spec_decode_deltas(data@, pos as int, count as int) == Ok::<
                        (Seq<i16>, int),
                        CodecError,
                    >((p.0.deltas@, p.1 as int))
                    &&& pos <= p.1 <= data.len()
                    &&& p.0.deltas@.len() == count
                },
                Err(e) => spec_decode_deltas(data@, pos as int, count as int) == Err::<
                    (Seq<i16>, int),
                    CodecError,
                >(e),
            },
    {
        let mut out: Vec<i16> = Vec::new();
        let mut p = pos;
        while out.len() < count
            invariant
                pos <= p <= data.len(),
                out.len() <= count,
                spec_decode_deltas(data@, pos as int, count as int) == (match spec_decode_deltas(
                    data@,
                    p as int,
                    count - out.len(),
                ) {
                    Ok((rest, end)) => Ok::<(Seq<i16>, int), CodecError>((out@ + rest, end)),
                    Err(e) => Err::<(Seq<i16>, int), CodecError>(e),
                }),
            decreases count - out.len(),
        {
            let ghost rem = count - out.len();
            if p >= data.len() {
                return Err(CodecError::TruncatedInput);
            }
            let c = data[p];
            let n: usize = (c as usize) % 64 + 1;
            if n > count - out.len() {
                return Err(CodecError::SizeMismatch);
            }
            let ghost out_before = out@;
            let mut end_run: usize = p + 1;
            if c / 64 >= 2 {
                let mut j: usize = 0;
                while j < n
                    invariant
                        j <= n,
                        out@ == out_before + zero_run_vals(j as int),
                    decreases n - j,
                {
                    out.push(0i16);
                    proof {
                        assert(zero_run_vals(j + 1) =~= zero_run_vals(j as int).push(0i16));
                    }
                    j += 1;
                }
            } else if c / 64 == 1 {
                if n > (data.len() - p - 1) / 2 {
                    return Err(CodecError::TruncatedInput);
                }
                let mut j: usize = 0;
                while j < n
                    invariant
                        j <= n,
                        p + 1 + 2 * n <= data.len(),
                        out@ == out_before + word_run_vals(data@, p + 1, j as int),
                    decreases n - j,
                {
                    let v = crate::wire::read_i16(data, p + 1 + 2 * j);
                    out.push(v);
                    proof {
                        assert(word_run_vals(data@, p + 1, j + 1) =~= word_run_vals(
                            data@,
                            p + 1,
                            j as int,
                        ).push(v));
                    }
                    j += 1;
                }
                end_run = p + 1 + 2 * n;
            } else {
                if n > data.len() - p - 1 {
                    return Err(CodecError::TruncatedInput);
                }
                let mut j: usize = 0;
                while j < n
                    invariant
                        j <= n,
                        p + 1 + n <= data.len(),
                        out@ == out_before + byte_run_vals(data@, p + 1, j as int),
                    decreases n - j,
                {
                    let b = data[p + 1 + j];
                    let v: i16 = if b >= 128 {
                        (b as i32 - 256) as i16
                    } else {
                        b as i16
                    };
                    out.push(v);
                    proof {
                        assert(byte_run_vals(data@, p + 1, j + 1) =~= byte_run_vals(
                            data@,
                            p + 1,
                            j as int,
                        ).push(v));
                    }
                    j += 1;
                }
                end_run = p + 1 + n;
            }
            proof {
                let inner = spec_decode_deltas(data@, end_run as int, rem - n);
                match inner {
                    Ok((rest, end)) => {
                        if c / 64 >= 2 {
                            assert(out_before + (zero_run_vals(n as int) + rest) =~= out@ + rest);
                        } else if c / 64 == 1 {
                            assert(out_before + (word_run_vals(data@, p + 1, n as int) + rest)
                                =~= out@ + rest);
                        } else {
                            assert(out_before + (byte_run_vals(data@, p + 1, n as int) + rest)
                                =~= out@ + rest);
                        }
                    },
                    Err(_) => {},
                }
            }
            p = end_run;
        }
        proof {
            assert(out@ + Seq::<i16>::empty() =~= out@);
        }
        Ok((PackedDeltas { deltas: out }, p))
    }
}

proof fn lemma_leading_kind_count_bounds(d: Seq<i16>, k: int)
    ensures
        0 <= leading_kind_count(d, k) <= d.len(),
        forall|j: int| 0 <= j < leading_kind_count(d, k) ==> delta_kind(d[j]) == k,
    decreases d.len(),
{
    if d.len() == 0 || delta_kind(d[0]) != k {
    } else {
        lemma_leading_kind_count_bounds(d.drop_first(), k);
        assert forall|j: int| 0 <= j < leading_kind_count(d, k) implies delta_kind(d[j])
            == k by {
            if j > 0 {
                assert(d.drop_first()[j - 1] == d[j]);
            }
        }
    }
}

/// If the first `n` values of `d` all have the kind of `d[0]` and either the
/// sequence or the kind changes right after (or `n` hits the 64 cap), then
/// the first encoded run holds exactly `n` values.
proof fn lemma_first_run_len_is(d: Seq<i16>, n: int)
    requires
        d.len() > 0,
        1 <= n <= d.len(),
        n <= 64,
        forall|j: int| 0 <= j < n ==> #[trigger] delta_kind(d[j]) == delta_kind(d[0]),
        n == 64 || n == d.len() || delta_kind(d[n]) != delta_kind(d[0]),
    ensures
        first_run_len(d) == n,
{
    let k = delta_kind(d[0]);
    let s = d.drop_first();
    assert forall|j: int| 0 <= j < n - 1 implies delta_kind(s[j]) == k by {
        assert(s[j] == d[j + 1]);
    }
    if n == 64 {
        lemma_leading_exact(s, k, 63, 64);
    } else {
        if n < d.len() {
            assert(s[n - 1] == d[n]);
        }
        lemma_leading_exact(s, k, n - 1, 0);
    }
}

/// One step of decoding an encoded stream: wherever the packed encoding of
/// nonempty `d` sits in `b`, decoding unfolds to the first run's values
/// followed by a decode of the remaining runs.
proof fn lemma_decode_first_run(d: Seq<i16>, b: Seq<u8>, pos: int, count: int)
    requires
        d.len() > 0,
        0 <= pos,
        pos + spec_encode_deltas(d).len() <= b.len(),
        b.subrange(pos, pos + spec_encode_deltas(d).len() as int) == spec_encode_deltas(d),
        count >= d.len(),
    ensures
        1 <= first_run_len(d) <= d.len() && first_run_len(d) <= 64,
        ({
            let n = first_run_len(d);
            let pos2 = pos + 1 + run_payload(d.take(n), delta_kind(d[0])).len();
            let enc2 = spec_encode_deltas(d.skip(n));
            &&& pos + spec_encode_deltas(d).len() == pos2 + enc2.len()
            &&& b.subrange(pos2, pos2 + enc2.len() as int) == enc2
            &&& spec_decode_deltas(b, pos, count) == (match spec_decode_deltas(
                b,
                pos2,
                count - n,
            ) {
                Ok((rest, end)) => Ok::<(Seq<i16>, int), CodecError>((d.take(n) + rest, end)),
                Err(e) => Err::<(Seq<i16>, int), CodecError>(e),
            })
        }),
{
    let k = delta_kind(d[0]);
    let n = first_run_len(d);
    let enc = spec_encode_deltas(d);
    lemma_leading_kind_count_bounds(d, k);
    lemma_leading_kind_count_bounds(d.drop_first(), k);
    assert(leading_kind_count(d, k) == 1 + leading_kind_count(d.drop_first(), k));
    assert(1 <= n <= d.len() && n <= 64);
    assert(forall|j: int| 0 <= j < n ==> delta_kind(d[j]) == k);
    let payload = run_payload(d.take(n), k);
    let plen = payload.len();
    let enc2 = spec_encode_deltas(d.skip(n));
    assert(enc == seq![control_byte(k, n)] + payload + enc2);
    let c = b[pos];
    assert(c == enc[0]);
    assert(c == control_byte(k, n));
    if k == 0 {
        lemma_fundamental_div_mod_converse(c as int, 64, 2, n - 1);
    } else if k == 2 {
        lemma_fundamental_div_mod_converse(c as int, 64, 1, n - 1);
    } else {
        lemma_fundamental_div_mod_converse(c as int, 64, 0, n - 1);
    }
    assert(c % 64 + 1 == n);
    assert forall|t: int| 0 <= t < plen implies b[pos + 1 + t] == payload[t] by {
        assert(enc[1 + t] == payload[t]);
        assert(b.subrange(pos, pos + enc.len() as int)[1 + t] == b[pos + 1 + t]);
    }
    let pos2 = pos + 1 + plen;
    assert(b.subrange(pos2, pos2 + enc2.len() as int) =~= enc2) by {
        assert forall|t: int| 0 <= t < enc2.len() implies b[pos2 + t] == enc2[t] by {
            assert(enc[1 + plen + t] == enc2[t]);
            assert(b.subrange(pos, pos + enc.len() as int)[1 + plen + t] == b[pos2 + t]);
        }
    }
    if k == 0 {
        assert(c / 64 >= 2);
        assert(zero_run_vals(n) =~= d.take(n));
    } else if k == 2 {
        assert(c / 64 == 1);
        assert(pos + 1 + 2 * n <= b.len());
        assert(word_run_vals(b, pos + 1, n) =~= d.take(n)) by {
            assert forall|j: int| 0 <= j < n implies word_run_vals(b, pos + 1, n)[j] == d.take(
                n,
            )[j] by {
                let v = d[j];
                let repr = u16_repr_of_i16(v);
                assert(payload[2 * j] == (repr / 256) as u8);
                assert(payload[2 * j + 1] == (repr % 256) as u8);
                assert(b[pos + 1 + 2 * j] == payload[2 * j]);
                assert(b[pos + 1 + 2 * j + 1] == payload[2 * j + 1]);
                lemma_fundamental_div_mod(repr, 256);
                assert(be16((repr / 256) as u8, (repr % 256) as u8) == repr);
                assert(i16_of_u16_repr(repr) == v);
            }
        }
    } else {
        assert(c / 64 == 0);
        assert(pos + 1 + n <= b.len());
        assert(byte_run_vals(b, pos + 1, n) =~= d.take(n)) by {
            assert forall|j: int| 0 <= j < n implies byte_run_vals(b, pos + 1, n)[j] == d.take(
                n,
            )[j] by {
                let v = d[j];
                assert(delta_kind(v) == 1);
                assert(payload[j] == u8_repr_of_int(d.take(n)[j] as int) as u8);
                assert(b[pos + 1 + j] == payload[j]);
                assert(int_of_u8_repr(u8_repr_of_int(v as int)) == v as int);
            }
        }
    }
}

/// Round trip: wherever the packed encoding of a delta sequence `d` sits
/// inside a byte buffer, decoding with that sequence's own length yields
/// exactly `d` back and consumes exactly the encoding's bytes.
pub proof fn lemma_packed_deltas_round_trip(d: Seq<i16>, b: Seq<u8>, pos: int)
    requires
        0 <= pos,
        pos + spec_encode_deltas(d).len() <= b.len(),
        b.subrange(pos, pos + spec_encode_deltas(d).len() as int) == spec_encode_deltas(d),
    ensures
        spec_decode_deltas(b, pos, d.len() as int) == Ok::<(Seq<i16>, int), CodecError>(
            (d, pos + spec_encode_deltas(d).len()),
        ),
    decreases d.len(),
{
    if d.len() == 0 {
        assert(Seq::<i16>::empty() =~= d);
    } else {
        lemma_decode_first_run(d, b, pos, d.len() as int);
        let n = first_run_len(d);
        let pos2 = pos + 1 + run_payload(d.take(n), delta_kind(d[0])).len();
        lemma_packed_deltas_round_trip(d.skip(n), b, pos2);
        assert(d.take(n) + d.skip(n) =~= d);
    }
}

/// Asking the decoder for more values than the encoded stream holds fails
/// with a truncation error rather than returning a short sequence.
pub proof fn lemma_packed_deltas_excess_count_truncates(d: Seq<i16>, b: Seq<u8>, pos: int, count: int)
    requires
        0 <= pos,
        pos + spec_encode_deltas(d).len() == b.len(),
        b.subrange(pos, pos + spec_encode_deltas(d).len() as int) == spec_encode_deltas(d),
        count > d.len(),
    ensures
        spec_decode_deltas(b, pos, count) == Err::<(Seq<i16>, int), CodecError>(
            CodecError::TruncatedInput,
        ),
    decreases d.len(),
{
    if d.len() == 0 {
        assert(pos >= b.len());
    } else {
        lemma_decode_first_run(d, b, pos, count);
        let n = first_run_len(d);
        let pos2 = pos + 1 + run_payload(d.take(n), delta_kind(d[0])).len();
        lemma_packed_deltas_excess_count_truncates(d.skip(n), b, pos2, count - n);
    }
}

/// Helper: pins `leading_kind_count` from a pointwise description. When
/// `cap == 64` only a lower bound `n <= leading` is claimed.
proof fn lemma_leading_exact(s: Seq<i16>, k: int, n: int, cap: int)
    requires
        0 <= n <= s.len(),
        forall|j: int| 0 <= j < n ==> delta_kind(s[j]) == k,
        cap == 64 || n == s.len() || delta_kind(s[n]) != k,
    ensures
        cap == 64 ==> leading_kind_count(s, k) >= n,
        cap != 64 ==> leading_kind_count(s, k) == n,
    decreases n,
{
    lemma_leading_kind_count_bounds(s, k);
    if n == 0 {
        if cap != 64 {
            if s.len() > 0 {
                assert(delta_kind(s[0]) != k);
            }
        }
    } else {
        assert(delta_kind(s[0]) == k);
        assert forall|j: int| 0 <= j < n - 1 implies delta_kind(s.drop_first()[j]) == k by {
            assert(s.drop_first()[j] == s[j + 1]);
        }
        if n < s.len() {
            assert(s.drop_first()[n - 1] == s[n]);
        }
        lemma_leading_exact(s.drop_first(), k, n - 1, cap);
    }
}

} // verus!
