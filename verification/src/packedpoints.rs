//! Packed point numbers: a sparse, ordered set of point indices,
//! run-length compressed.
//!
//! The encoding starts with a count field (one byte for counts up to 127,
//! else two bytes with the high bit set and the count in the low 15 bits; a
//! lone zero byte means "applies to all points"). Runs follow: a control
//! byte whose low seven bits hold the run length minus one (runs are capped
//! at 127 points) and whose high bit selects one- or two-byte differences.
//! Points are stored as successive differences from the previous point
//! index, the first from zero, which is why the set must be ascending.
use crate::wire::be16;
use crate::CodecError;
use vstd::prelude::*;

verus! {

use vstd::arithmetic::div_mod::lemma_fundamental_div_mod;
use vstd::arithmetic::div_mod::lemma_fundamental_div_mod_converse;

/// The point indices are strictly ascending (so unique and sorted).
pub open spec fn points_ascending(s: Seq<u16>) -> bool {
    forall|i: int, j: int| 0 <= i < j < s.len() ==> s[i] < s[j]
}

/// The differences the encoder stores: each point minus its predecessor,
/// the first point minus zero.
pub open spec fn point_deltas(s: Seq<u16>) -> Seq<u16> {
    Seq::new(
        s.len(),
        |i: int|
            if i == 0 {
                s[0]
            } else {
                (s[i] - s[i - 1]) as u16
            },
    )
}

/// A difference needs the two-byte run width when it does not fit a byte.
pub open spec fn point_delta_wide(v: u16) -> bool {
    v > 255
}

/// How many leading differences of `d` have width `wide`.
pub open spec fn leading_width_count(d: Seq<u16>, wide: bool) -> int
    decreases d.len(),
{
    if d.len() == 0 || point_delta_wide(d[0]) != wide {
        0
    } else {
        1 + leading_width_count(d.drop_first(), wide)
    }
}

/// Length of the first run an optimal encoder emits for nonempty `d`: the
/// leading differences of one width, capped at 127.
pub open spec fn first_point_run_len(d: Seq<u16>) -> int {
    let rest = leading_width_count(d.drop_first(), point_delta_wide(d[0]));
    if rest > 126 {
        127
    } else {
        1 + rest
    }
}

/// Control byte of a point run: high bit for two-byte width, low seven bits
/// the run length minus one.
pub open spec fn point_control_byte(wide: bool, n: int) -> u8 {
    if wide {
        (128 + n - 1) as u8
    } else {
        (n - 1) as u8
    }
}

/// Payload of a one-byte run.
pub open spec fn narrow_payload(d: Seq<u16>) -> Seq<u8> {
    Seq::new(d.len(), |i: int| d[i] as u8)
}

/// Payload of a two-byte run, each difference big-endian.
pub open spec fn wide_payload(d: Seq<u16>) -> Seq<u8> {
    Seq::new(
        2 * d.len(),
        |t: int|
            if t % 2 == 0 {
                (d[t / 2] / 256) as u8
            } else {
                (d[t / 2] % 256) as u8
            },
    )
}

/// Payload of a run of width `wide` over the differences `d`.
pub open spec fn point_run_payload(d: Seq<u16>, wide: bool) -> Seq<u8> {
    if wide {
        wide_payload(d)
    } else {
        narrow_payload(d)
    }
}

/// The run-encoded form of the difference sequence `d`.
pub open spec fn spec_encode_point_runs(d: Seq<u16>) -> Seq<u8>
    decreases d.len(),
    via spec_encode_point_runs_dec
{
    if d.len() == 0 {
        seq![]
    } else {
        let w = point_delta_wide(d[0]);
        let n = first_point_run_len(d);
        seq![point_control_byte(w, n)] + point_run_payload(d.take(n), w) + spec_encode_point_runs(
            d.skip(n),
        )
    }
}

#[via_fn]
proof fn spec_encode_point_runs_dec(d: Seq<u16>) {
    if d.len() > 0 {
        lemma_leading_width_count_bounds(d.drop_first(), point_delta_wide(d[0]));
    }
}

/// The count field: one byte for counts up to 127, else two bytes with the
/// high bit set and the count in the low 15 bits.
pub open spec fn count_field(n: int) -> Seq<u8> {
    if n <= 127 {
        seq![n as u8]
    } else {
        seq![(128 + n / 256) as u8, (n % 256) as u8]
    }
}

/// The packed encoding of the ascending point-index set `s`. The empty set
/// encodes as a single zero byte, meaning "applies to all points".
pub open spec fn spec_encode_points(s: Seq<u16>) -> Seq<u8> {
    if s.len() == 0 {
        seq![0u8]
    } else {
        count_field(s.len() as int) + spec_encode_point_runs(point_deltas(s))
    }
}

/// Addition modulo 65536, how a decoder's running point index behaves.
pub open spec fn wrap_add_u16(a: u16, b: int) -> u16 {
    ((a + b) % 65536) as u16
}

/// The `n` differences of a one-byte run whose payload starts at `pos`.
pub open spec fn narrow_run_deltas(b: Seq<u8>, pos: int, n: int) -> Seq<u16> {
    Seq::new(n as nat, |i: int| b[pos + i] as u16)
}

/// The `n` differences of a two-byte run whose payload starts at `pos`.
pub open spec fn wide_run_deltas(b: Seq<u8>, pos: int, n: int) -> Seq<u16> {
    Seq::new(n as nat, |i: int| be16(b[pos + 2 * i], b[pos + 2 * i + 1]) as u16)
}

/// Decoding of point runs from `b` at `pos` into `count` differences.
pub open spec fn spec_decode_point_run_deltas(b: Seq<u8>, pos: int, count: int) -> Result<
    (Seq<u16>, int),
    CodecError,
>
    decreases count,
{
    if count <= 0 {
        Ok((seq![], pos))
    } else if !(0 <= pos < b.len()) {
        Err(CodecError::TruncatedInput)
    } else {
        let c = b[pos];
        let n = c % 128 + 1;
        if n > count {
            Err(CodecError::SizeMismatch)
        } else if c >= 128 {
            if pos + 1 + 2 * n > b.len() {
                Err(CodecError::TruncatedInput)
            } else {
                match spec_decode_point_run_deltas(b, pos + 1 + 2 * n, count - n) {
                    Ok((rest, end)) => Ok((wide_run_deltas(b, pos + 1, n as int) + rest, end)),
                    Err(e) => Err(e),
                }
            }
        } else {
            if pos + 1 + n > b.len() {
                Err(CodecError::TruncatedInput)
            } else {
                match spec_decode_point_run_deltas(b, pos + 1 + n, count - n) {
                    Ok((rest, end)) => Ok((narrow_run_deltas(b, pos + 1, n as int) + rest, end)),
                    Err(e) => Err(e),
                }
            }
        }
    }
}

/// Running sum that turns stored differences back into absolute indices,
/// wrapping modulo 65536 as a 16-bit accumulator does.
pub open spec fn accumulate_points(prev: u16, d: Seq<u16>) -> Seq<u16>
    decreases d.len(),
{
    if d.len() == 0 {
        seq![]
    } else {
        let p = wrap_add_u16(prev, d[0] as int);
        seq![p] + accumulate_points(p, d.drop_first())
    }
}

/// Decoding of a whole packed point set starting at `pos`: the count field,
/// then runs until that many points are produced. An empty result is the
/// "applies to all points" sentinel, whose meaning the caller owns.
pub open spec fn spec_decode_points(b: Seq<u8>, pos: int) -> Result<(Seq<u16>, int), CodecError> {
    if !(0 <= pos < b.len()) {
        Err(CodecError::TruncatedInput)
    } else {
        let b0 = b[pos];
        if b0 == 0 {
            Ok((seq![], pos + 1))
        } else if b0 < 128 {
            match spec_decode_point_run_deltas(b, pos + 1, b0 as int) {
                Ok((ds, end)) => Ok((accumulate_points(0u16, ds), end)),
                Err(e) => Err(e),
            }
        } else {
            if pos + 2 > b.len() {
                Err(CodecError::TruncatedInput)
            } else {
                match spec_decode_point_run_deltas(b, pos + 2, (b0 - 128) * 256 + b[pos + 1]) {
                    Ok((ds, end)) => Ok((accumulate_points(0u16, ds), end)),
                    Err(e) => Err(e),
                }
            }
        }
    }
}

/// A sparse, ordered set of point indices. The empty set is the
/// distinguished "applies to all points" value; what that means belongs to
/// the caller, not to this type.
#[derive(Clone, Debug, PartialEq)]
pub struct PackedPoints {
    pub points: Vec<u16>,
}

impl PackedPoints {
    /// Encodes the point set; see `encode_points`.
    pub fn encode(&self) -> (r: Vec<u8>)
        requires
            points_ascending(self.points@),
            self.points@.len() <= 32767,
        ensures
            r@ == spec_encode_points(self.points@),
    {
        encode_points(&self.points)
    }
}

/// Encodes a point set: the count field, then greedy runs of differences,
/// one byte per difference while every difference in the run fits a byte,
/// two bytes otherwise, capped at 127 points per run. The set must be
/// ascending and duplicate-free; an empty set encodes as the single "all
/// points" byte.
pub fn encode_points(points: &Vec<u16>) -> (r: Vec<u8>)
    requires
        points_ascending(points@),
        points@.len() <= 32767,
    ensures
        r@ == spec_encode_points(points@),
{
    {
        let mut out: Vec<u8> = Vec::new();
        let len = points.len();
        if len == 0 {
            out.push(0u8);
            proof {
                assert(out@ =~= spec_encode_points(points@));
            }
            return out;
        }
        if len <= 127 {
            out.push(len as u8);
        } else {
            out.push(128 + (len / 256) as u8);
            out.push((len % 256) as u8);
        }
        proof {
            assert(out@ =~= count_field(len as int));
        }
        let mut deltas: Vec<u16> = Vec::new();
        let mut i: usize = 0;
        while i < len
            invariant
                len == points@.len(),
                len <= 32767,
                points_ascending(points@),
                i <= len,
                deltas@ == point_deltas(points@).take(i as int),
            decreases len - i,
        {
            let dv: u16 = if i == 0 {
                points[0]
            } else {
                proof {
                    assert(points@[i - 1] < points@[i as int]);
                }
                points[i] - points[i - 1]
            };
            deltas.push(dv);
            proof {
                assert(point_deltas(points@).take(i + 1) =~= point_deltas(
                    points@,
                ).take(i as int).push(dv));
            }
            i += 1;
        }
        proof {
            assert(deltas@ =~= point_deltas(points@));
        }
        let mut i: usize = 0;
        proof {
            assert(deltas@.skip(0int) =~= deltas@);
            assert(out@ + spec_encode_point_runs(deltas@) =~= count_field(
                points@.len() as int,
            ) + spec_encode_point_runs(deltas@));
        }
        while i < deltas.len()
            invariant
                i <= deltas.len(),
                out@ + spec_encode_point_runs(deltas@.skip(i as int)) == count_field(
                    points@.len() as int,
                ) + spec_encode_point_runs(deltas@),
            decreases deltas.len() - i,
        {
            let d = &deltas;
            let wide = d[i] > 255;
            let mut n: usize = 1;
            while i + n < d.len() && n < 127 && (d[i + n] > 255) == wide
                invariant
                    i < d.len(),
                    1 <= n,
                    i + n <= d.len(),
                    n <= 127,
                    wide == point_delta_wide(d@[i as int]),
                    forall|j: int| i <= j < i + n ==> point_delta_wide(d@[j]) == wide,
                decreases d.len() - i - n,
            {
                n = n + 1;
            }
            let ghost s = d@.skip(i as int);
            proof {
                assert forall|j: int| 0 <= j < n implies #[trigger] point_delta_wide(s[j])
                    == point_delta_wide(s[0]) by {
                    assert(s[j] == d@[i + j]);
                    assert(s[0] == d@[i as int]);
                }
                if !(n == 127 || i + n == d.len()) {
                    assert(s[n as int] == d@[i + n]);
                }
                lemma_first_point_run_len_is(s, n as int);
            }
            let control: u8 = if wide {
                128 + (n as u8 - 1)
            } else {
                n as u8 - 1
            };
            let ghost out_before = out@;
            out.push(control);
            proof {
                assert(control == point_control_byte(wide, n as int));
            }
            if wide {
                let mut j: usize = 0;
                while j < n
                    invariant
                        j <= n,
                        i + n <= d.len(),
                        d@ == deltas@,
                        out@ == out_before + seq![point_control_byte(true, n as int)]
                            + wide_payload(d@.subrange(i as int, i + j)),
                    decreases n - j,
                {
                    let v = d[i + j];
                    crate::wire::push_u16(&mut out, v);
                    proof {
                        assert(wide_payload(d@.subrange(i as int, i + j + 1)) =~= wide_payload(
                            d@.subrange(i as int, i + j),
                        ) + crate::wire::be16_bytes(v as int));
                        assert(out@ =~= out_before + seq![point_control_byte(true, n as int)]
                            + wide_payload(d@.subrange(i as int, i + j + 1)));
                    }
                    j += 1;
                }
            } else {
                let mut j: usize = 0;
                while j < n
                    invariant
                        j <= n,
                        i + n <= d.len(),
                        d@ == deltas@,
                        forall|t: int| i <= t < i + n ==> !point_delta_wide(d@[t]),
                        out@ == out_before + seq![point_control_byte(false, n as int)]
                            + narrow_payload(d@.subrange(i as int, i + j)),
                    decreases n - j,
                {
                    let v = d[i + j];
                    proof {
                        assert(!point_delta_wide(d@[i + j]));
                    }
                    out.push(v as u8);
                    proof {
                        assert(narrow_payload(d@.subrange(i as int, i + j + 1)) =~= narrow_payload(
                            d@.subrange(i as int, i + j),
                        ).push(v as u8));
                        assert(out@ =~= out_before + seq![point_control_byte(false, n as int)]
                            + narrow_payload(d@.subrange(i as int, i + j + 1)));
                    }
                    j += 1;
                }
            }
            proof {
                let sub = deltas@.subrange(i as int, i + n);
                assert(sub =~= s.take(n as int));
                assert(out@ =~= out_before + (seq![point_control_byte(wide, n as int)]
                    + point_run_payload(s.take(n as int), wide)));
                assert(s.skip(n as int) =~= deltas@.skip(i + n));
                assert(out@ + spec_encode_point_runs(deltas@.skip(i + n)) =~= out_before
                    + spec_encode_point_runs(s));
            }
            i += n;
        }
        proof {
            assert(deltas@.skip(i as int) =~= Seq::<u16>::empty());
            assert(out@ =~= out@ + spec_encode_point_runs(deltas@.skip(i as int)));
        }
        out
    }
}

impl PackedPoints {
    /// Decodes a packed point set from `data` starting at `pos`. Returns
    /// the points (empty meaning "applies to all points") and the position
    /// one past the last byte consumed.
    pub fn decode(data: &Vec<u8>, pos: usize) -> (r: Result<(PackedPoints, usize), CodecError>)
        ensures
            match r {
                Ok(p) => {
                    &&& spec_decode_points(data@, pos as int) == Ok::<(Seq<u16>, int), CodecError>(
                        (p.0.points@, p.1 as int),
                    )
                    &&& pos <= p.1 <= data.len()
                    &&& p.0.points@.len() <= 32767
                },
                Err(e) => spec_decode_points(data@, pos as int) == Err::<
                    (Seq<u16>, int),
                    CodecError,
                >(e),
            },
    {
        if pos >= data.len() {
            return Err(CodecError::TruncatedInput);
        }
        let b0 = data[pos];
        if b0 == 0 {
            let empty: Vec<u16> = Vec::new();
            proof {
                let e: Seq<u16> = seq![];
                assert(empty@ =~= e);
            }
            return Ok((PackedPoints { points: empty }, pos + 1));
        }
        let count: usize;
        let mut p: usize;
        if b0 < 128 {
            count = b0 as usize;
            p = pos + 1;
        } else {
            if pos + 1 >= data.len() {
                return Err(CodecError::TruncatedInput);
            }
            count = ((b0 - 128) as usize) * 256 + (data[pos + 1] as usize);
            p = pos + 2;
        }
        let ghost pos1 = p as int;
        let mut out: Vec<u16> = Vec::new();
        let ghost mut ds: Seq<u16> = Seq::empty();
        let mut prev: u16 = 0;
        while out.len() < count
            invariant
                pos1 <= p <= data.len(),
                out.len() <= count,
                out.len() == ds.len(),
                out@ == accumulate_points(0u16, ds),
                prev == if ds.len() == 0 {
                    0u16
                } else {
                    out@.last()
                },
                spec_decode_point_run_deltas(data@, pos1, count as int) == (
                match spec_decode_point_run_deltas(data@, p as int, count - out.len()) {
                    Ok((rest, end)) => Ok::<(Seq<u16>, int), CodecError>((ds + rest, end)),
                    Err(e) => Err::<(Seq<u16>, int), CodecError>(e),
                }),
                spec_decode_points(data@, pos as int) == (
                match spec_decode_point_run_deltas(data@, pos1, count as int) {
                    Ok((ds2, end)) => Ok::<(Seq<u16>, int), CodecError>(
                        (accumulate_points(0u16, ds2), end),
                    ),
                    Err(e) => Err::<(Seq<u16>, int), CodecError>(e),
                }),
            decreases count - out.len(),
        {
            let ghost rem = count - out.len();
            if p >= data.len() {
                return Err(CodecError::TruncatedInput);
            }
            let c = data[p];
            let n: usize = (c as usize) % 128 + 1;
            if n > count - out.len() {
                return Err(CodecError::SizeMismatch);
            }
            let ghost ds_before = ds;
            let mut end_run: usize = p + 1;
            if c >= 128 {
                if n > (data.len() - p - 1) / 2 {
                    return Err(CodecError::TruncatedInput);
                }
                let mut j: usize = 0;
                while j < n
                    invariant
                        j <= n,
                        p + 1 + 2 * n <= data.len(),
                        ds == ds_before + wide_run_deltas(data@, p + 1, j as int),
                        out.len() == ds.len(),
                        out@ == accumulate_points(0u16, ds),
                        prev == if ds.len() == 0 {
                            0u16
                        } else {
                            out@.last()
                        },
                    decreases n - j,
                {
                    let dv = crate::wire::read_u16(data, p + 1 + 2 * j);
                    let np: u16 = (((prev as u32) + (dv as u32)) % 65536) as u16;
                    proof {
                        lemma_accumulate_push(0u16, ds, dv);
                        assert(np == wrap_add_u16(prev, dv as int));
                        assert(wide_run_deltas(data@, p + 1, j + 1) =~= wide_run_deltas(
                            data@,
                            p + 1,
                            j as int,
                        ).push(dv));
                        assert(ds_before + wide_run_deltas(data@, p + 1, j + 1) =~= ds.push(dv));
                        ds = ds.push(dv);
                    }
                    out.push(np);
                    prev = np;
                    j += 1;
                }
                end_run = p + 1 + 2 * n;
            } else {
                if n > data.len() - p - 1 {
                    return Err(CodecError::TruncatedInput);
                }
                let mut j: usize = 0;
                while j < n
                    invariant
                        j <= n,
                        p + 1 + n <= data.len(),
                        ds == ds_before + narrow_run_deltas(data@, p + 1, j as int),
                        out.len() == ds.len(),
                        out@ == accumulate_points(0u16, ds),
                        prev == if ds.len() == 0 {
                            0u16
                        } else {
                            out@.last()
                        },
                    decreases n - j,
                {
                    let dv = data[p + 1 + j] as u16;
                    let np: u16 = (((prev as u32) + (dv as u32)) % 65536) as u16;
                    proof {
                        lemma_accumulate_push(0u16, ds, dv);
                        assert(np == wrap_add_u16(prev, dv as int));
                        assert(narrow_run_deltas(data@, p + 1, j + 1) =~= narrow_run_deltas(
                            data@,
                            p + 1,
                            j as int,
                        ).push(dv));
                        assert(ds_before + narrow_run_deltas(data@, p + 1, j + 1) =~= ds.push(dv));
                        ds = ds.push(dv);
                    }
                    out.push(np);
                    prev = np;
                    j += 1;
                }
                end_run = p + 1 + n;
            }
            proof {
                let inner = spec_decode_point_run_deltas(data@, end_run as int, rem - n);
                match inner {
                    Ok((rest, end)) => {
                        if c >= 128 {
                            assert(ds_before + (wide_run_deltas(data@, p + 1, n as int) + rest)
                                =~= ds + rest);
                        } else {
                            assert(ds_before + (narrow_run_deltas(data@, p + 1, n as int) + rest)
                                =~= ds + rest);
                        }
                    },
                    Err(_) => {},
                }
            }
            p = end_run;
        }
        proof {
            assert(ds + Seq::<u16>::empty() =~= ds);
        }
        Ok((PackedPoints { points: out }, p))
    }
}

proof fn lemma_leading_width_count_bounds(d: Seq<u16>, wide: bool)
    ensures
        0 <= leading_width_count(d, wide) <= d.len(),
        forall|j: int| 0 <= j < leading_width_count(d, wide) ==> point_delta_wide(d[j]) == wide,
    decreases d.len(),
{
    if d.len() == 0 || point_delta_wide(d[0]) != wide {
    } else {
        lemma_leading_width_count_bounds(d.drop_first(), wide);
        assert forall|j: int| 0 <= j < leading_width_count(d, wide) implies point_delta_wide(d[j])
            == wide by {
            if j > 0 {
                assert(d.drop_first()[j - 1] == d[j]);
            }
        }
    }
}

/// Helper: pins `leading_width_count` from a pointwise description. When
/// `cap == 127` only a lower bound is claimed.
proof fn lemma_leading_width_exact(s: Seq<u16>, wide: bool, n: int, cap: int)
    requires
        0 <= n <= s.len(),
        forall|j: int| 0 <= j < n ==> point_delta_wide(s[j]) == wide,
        cap == 127 || n == s.len() || point_delta_wide(s[n]) != wide,
    ensures
        cap == 127 ==> leading_width_count(s, wide) >= n,
        cap != 127 ==> leading_width_count(s, wide) == n,
    decreases n,
{
    lemma_leading_width_count_bounds(s, wide);
    if n == 0 {
        if cap != 127 {
            if s.len() > 0 {
                assert(point_delta_wide(s[0]) != wide);
            }
        }
    } else {
        assert(point_delta_wide(s[0]) == wide);
        assert forall|j: int| 0 <= j < n - 1 implies point_delta_wide(s.drop_first()[j])
            == wide by {
            assert(s.drop_first()[j] == s[j + 1]);
        }
        if n < s.len() {
            assert(s.drop_first()[n - 1] == s[n]);
        }
        lemma_leading_width_exact(s.drop_first(), wide, n - 1, cap);
    }
}

/// If the first `n` differences of `d` share the width of `d[0]` and the
/// width changes right after (or the sequence ends, or `n` hits the cap),
/// then the first run holds exactly `n` differences.
proof fn lemma_first_point_run_len_is(d: Seq<u16>, n: int)
    requires
        d.len() > 0,
        1 <= n <= d.len(),
        n <= 127,
        forall|j: int| 0 <= j < n ==> #[trigger] point_delta_wide(d[j]) == point_delta_wide(d[0]),
        n == 127 || n == d.len() || point_delta_wide(d[n]) != point_delta_wide(d[0]),
    ensures
        first_point_run_len(d) == n,
{
    let w = point_delta_wide(d[0]);
    let s = d.drop_first();
    assert forall|j: int| 0 <= j < n - 1 implies point_delta_wide(s[j]) == w by {
        assert(s[j] == d[j + 1]);
    }
    if n == 127 {
        lemma_leading_width_exact(s, w, 126, 127);
    } else {
        if n < d.len() {
            assert(s[n - 1] == d[n]);
        }
        lemma_leading_width_exact(s, w, n - 1, 0);
    }
}

/// Appending one difference to a running sum appends one absolute index.
proof fn lemma_accumulate_push(prev: u16, d: Seq<u16>, v: u16)
    ensures
        accumulate_points(prev, d.push(v)) == accumulate_points(prev, d).push(
            wrap_add_u16(
                if d.len() == 0 {
                    prev
                } else {
                    accumulate_points(prev, d).last()
                },
                v as int,
            ),
        ),
    decreases d.len(),
{
    reveal_with_fuel(accumulate_points, 3);
    if d.len() == 0 {
        assert(d.push(v)[0] == v);
        assert(d.push(v).drop_first() =~= Seq::<u16>::empty());
        assert(accumulate_points(prev, d.push(v)) =~= accumulate_points(prev, d).push(
            wrap_add_u16(prev, v as int),
        ));
    } else {
        let p = wrap_add_u16(prev, d[0] as int);
        assert(d.push(v)[0] == d[0]);
        assert(d.push(v).drop_first() =~= d.drop_first().push(v));
        lemma_accumulate_push(p, d.drop_first(), v);
        assert(accumulate_points(prev, d.push(v)) =~= accumulate_points(prev, d).push(
            wrap_add_u16(
                if d.len() == 0 {
                    prev
                } else {
                    accumulate_points(prev, d).last()
                },
                v as int,
            ),
        ));
    }
}

/// The running sum inverts the difference form of an ascending point set.
proof fn lemma_accumulate_inverts(s: Seq<u16>, m: int)
    requires
        points_ascending(s),
        0 <= m <= s.len(),
    ensures
        accumulate_points(
            if m == 0 {
                0u16
            } else {
                s[m - 1]
            },
            point_deltas(s).skip(m),
        ) == s.skip(m),
    decreases s.len() - m,
{
    let d = point_deltas(s).skip(m);
    let prev: u16 = if m == 0 {
        0u16
    } else {
        s[m - 1]
    };
    if m == s.len() {
        assert(d =~= Seq::<u16>::empty());
        assert(s.skip(m) =~= Seq::<u16>::empty());
    } else {
        assert(d[0] == point_deltas(s)[m]);
        assert(wrap_add_u16(prev, d[0] as int) == s[m]);
        lemma_accumulate_inverts(s, m + 1);
        assert(d.drop_first() =~= point_deltas(s).skip(m + 1));
        assert(accumulate_points(prev, d) =~= seq![s[m]] + accumulate_points(
            s[m],
            point_deltas(s).skip(m + 1),
        ));
        assert(s.skip(m) =~= seq![s[m]] + s.skip(m + 1));
    }
}

/// One step of decoding an encoded run stream: wherever the run encoding of
/// nonempty `d` sits in `b`, decoding unfolds to the first run's
/// differences followed by a decode of the remaining runs.
proof fn lemma_decode_first_point_run(d: Seq<u16>, b: Seq<u8>, pos: int, count: int)
    requires
        d.len() > 0,
        0 <= pos,
        pos + spec_encode_point_runs(d).len() <= b.len(),
        b.subrange(pos, pos + spec_encode_point_runs(d).len() as int) == spec_encode_point_runs(d),
        count >= d.len(),
    ensures
        1 <= first_point_run_len(d) <= d.len() && first_point_run_len(d) <= 127,
        ({
            let n = first_point_run_len(d);
            let pos2 = pos + 1 + point_run_payload(d.take(n), point_delta_wide(d[0])).len();
            let enc2 = spec_encode_point_runs(d.skip(n));
            &&& pos + spec_encode_point_runs(d).len() == pos2 + enc2.len()
            &&& b.subrange(pos2, pos2 + enc2.len() as int) == enc2
            &&& spec_decode_point_run_deltas(b, pos, count) == (match spec_decode_point_run_deltas(
                b,
                pos2,
                count - n,
            ) {
                Ok((rest, end)) => Ok::<(Seq<u16>, int), CodecError>((d.take(n) + rest, end)),
                Err(e) => Err::<(Seq<u16>, int), CodecError>(e),
            })
        }),
{
    let w = point_delta_wide(d[0]);
    let n = first_point_run_len(d);
    let enc = spec_encode_point_runs(d);
    lemma_leading_width_count_bounds(d, w);
    lemma_leading_width_count_bounds(d.drop_first(), w);
    assert(leading_width_count(d, w) == 1 + leading_width_count(d.drop_first(), w));
    assert(1 <= n <= d.len() && n <= 127);
    assert(forall|j: int| 0 <= j < n ==> point_delta_wide(d[j]) == w);
    let payload = point_run_payload(d.take(n), w);
    let plen = payload.len();
    let enc2 = spec_encode_point_runs(d.skip(n));
    assert(enc == seq![point_control_byte(w, n)] + payload + enc2);
    let c = b[pos];
    assert(c == enc[0]);
    assert(c == point_control_byte(w, n));
    if w {
        lemma_fundamental_div_mod_converse(c as int, 128, 1, n - 1);
    } else {
        lemma_fundamental_div_mod_converse(c as int, 128, 0, n - 1);
    }
    assert(c % 128 + 1 == n);
    assert((c >= 128) == w);
    assert forall|t: int| 0 <= t < plen implies b[pos + 1 + t] == payload[t] by {
        assert(enc[1 + t] == payload[t]);
        assert(b.subrange(pos, pos + enc.len() as int)[1 + t] == b[pos + 1 + t]);
    }
    let pos2 = pos + 1 + plen;
    assert(b.subrange(pos2, pos2 + enc2.len() as int) =~= enc2) by {
        assert forall|t: int| 0 <= t < enc2.len() implies b[pos2 + t] == enc2[t] by {
            assert(enc[1 + plen + t] == enc2[t]);
            assert(b.subrange(pos, pos + enc.len() as int)[1 + plen + t] == b[pos2 + t]);
        }
    }
    if w {
        assert(pos + 1 + 2 * n <= b.len());
        assert(wide_run_deltas(b, pos + 1, n) =~= d.take(n)) by {
            assert forall|j: int| 0 <= j < n implies wide_run_deltas(b, pos + 1, n)[j] == d.take(
                n,
            )[j] by {
                let v = d[j];
                assert(payload[2 * j] == (v / 256) as u8);
                assert(payload[2 * j + 1] == (v % 256) as u8);
                assert(b[pos + 1 + 2 * j] == payload[2 * j]);
                assert(b[pos + 1 + 2 * j + 1] == payload[2 * j + 1]);
                lemma_fundamental_div_mod(v as int, 256);
                assert(be16((v / 256) as u8, (v % 256) as u8) == v as int);
            }
        }
    } else {
        assert(pos + 1 + n <= b.len());
        assert(narrow_run_deltas(b, pos + 1, n) =~= d.take(n)) by {
            assert forall|j: int| 0 <= j < n implies narrow_run_deltas(b, pos + 1, n)[j] == d.take(
                n,
            )[j] by {
                assert(!point_delta_wide(d[j]));
                assert(payload[j] == d.take(n)[j] as u8);
                assert(b[pos + 1 + j] == payload[j]);
            }
        }
    }
}

/// Run-level round trip: decoding the run encoding of a difference
/// sequence with its own count yields the differences back.
proof fn lemma_point_runs_round_trip(d: Seq<u16>, b: Seq<u8>, pos: int)
    requires
        0 <= pos,
        pos + spec_encode_point_runs(d).len() <= b.len(),
        b.subrange(pos, pos + spec_encode_point_runs(d).len() as int) == spec_encode_point_runs(d),
    ensures
        spec_decode_point_run_deltas(b, pos, d.len() as int) == Ok::<(Seq<u16>, int), CodecError>(
            (d, pos + spec_encode_point_runs(d).len()),
        ),
    decreases d.len(),
{
    if d.len() == 0 {
        assert(Seq::<u16>::empty() =~= d);
    } else {
        lemma_decode_first_point_run(d, b, pos, d.len() as int);
        let n = first_point_run_len(d);
        let pos2 = pos + 1 + point_run_payload(d.take(n), point_delta_wide(d[0])).len();
        lemma_point_runs_round_trip(d.skip(n), b, pos2);
        assert(d.take(n) + d.skip(n) =~= d);
    }
}

/// Round trip: wherever the packed encoding of a valid point-index set `s`
/// sits inside a byte buffer, decoding yields exactly `s` back and consumes
/// exactly the encoding's bytes. The empty set comes back as the empty
/// "applies to all points" sentinel.
pub proof fn lemma_packed_points_round_trip(s: Seq<u16>, b: Seq<u8>, pos: int)
    requires
        points_ascending(s),
        s.len() <= 32767,
        0 <= pos,
        pos + spec_encode_points(s).len() <= b.len(),
        b.subrange(pos, pos + spec_encode_points(s).len() as int) == spec_encode_points(s),
    ensures
        spec_decode_points(b, pos) == Ok::<(Seq<u16>, int), CodecError>(
            (s, pos + spec_encode_points(s).len()),
        ),
{
    let enc = spec_encode_points(s);
    let len = s.len() as int;
    assert(b[pos] == enc[0]);
    if s.len() == 0 {
        assert(b[pos] == 0);
        assert(Seq::<u16>::empty() =~= s);
    } else {
        let d = point_deltas(s);
        let runs = spec_encode_point_runs(d);
        let cf = count_field(len);
        assert(enc == cf + runs);
        let cflen = cf.len();
        assert forall|t: int| 0 <= t < cflen implies b[pos + t] == cf[t] by {
            assert(enc[t] == cf[t]);
            assert(b.subrange(pos, pos + enc.len() as int)[t] == b[pos + t]);
        }
        assert(b.subrange(pos + cflen, pos + cflen + runs.len() as int) =~= runs) by {
            assert forall|t: int| 0 <= t < runs.len() implies b[pos + cflen + t] == runs[t] by {
                assert(enc[cflen + t] == runs[t]);
                assert(b.subrange(pos, pos + enc.len() as int)[cflen + t] == b[pos + cflen + t]);
            }
        }
        lemma_point_runs_round_trip(d, b, pos + cflen);
        lemma_accumulate_inverts(s, 0);
        assert(point_deltas(s).skip(0) =~= d);
        assert(s.skip(0) =~= s);
        if len <= 127 {
            assert(b[pos] == len as u8);
            assert(b[pos] != 0 && b[pos] < 128);
        } else {
            let b0 = b[pos];
            assert(b0 == (128 + len / 256) as u8);
            lemma_fundamental_div_mod(len, 256);
            assert(0 <= len / 256 <= 127);
            assert(b0 >= 128);
            assert(b[pos + 1] == (len % 256) as u8);
            assert((b0 - 128) * 256 + b[pos + 1] == len);
        }
    }
}

} // verus!
