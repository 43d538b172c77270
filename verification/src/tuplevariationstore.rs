//! The tuple variation store: the ordered set of (header, point-set,
//! delta-set) triples that makes up one glyph's (or the CVT table's)
//! variation record, plus the up-front shared point numbers optimization.
//!
//! The serialized form is a count word (top bit: shared point numbers
//! follow; low twelve bits: the tuple count), the offset of the serialized
//! data from the start of the structure, the headers back-patched with
//! their payload sizes, then the data: the shared point set if any,
//! followed by each tuple's private points and packed deltas.
use crate::packeddeltas::{spec_decode_deltas, spec_encode_deltas, PackedDeltas};
use crate::packedpoints::{
    encode_points, points_ascending, spec_decode_points, spec_encode_points, PackedPoints,
};
use crate::tuplevariationheader::{
    flag_private_points, opt_view, spec_decode_tvh, spec_encode_tvh, tvh_model, tvh_wf, TvhModel,
    TupleVariationHeader,
};
use crate::wire::be16;
use crate::wire::be16_bytes;
use crate::CodecError;
use crate::Delta;
use vstd::prelude::*;

verus! {

/// One tuple variation: a header, the point indices it affects (empty
/// meaning "applies to all points"), and one delta per affected point.
#[derive(Clone, Debug, PartialEq)]
pub struct TupleVariation {
    pub header: TupleVariationHeader,
    pub points: Vec<u16>,
    pub deltas: Vec<Delta>,
}

/// The store: an ordered sequence of tuple variations plus one optional
/// shared point set, the single point blob that tuples reference instead
/// of repeating it. `point_count` is the owning glyph's point count (or
/// the CVT count), which sizes the deltas of an "all points" tuple;
/// `vector_deltas` says whether deltas are two-dimensional (glyph
/// outlines) or scalar (CVT).
#[derive(Clone, Debug, PartialEq)]
pub struct TupleVariationStore {
    pub axis_count: u16,
    pub point_count: u16,
    pub vector_deltas: bool,
    pub shared_points: Option<Vec<u16>>,
    pub variations: Vec<TupleVariation>,
}

/// The X component of a delta (or the scalar itself).
pub open spec fn delta_x(d: Delta) -> i16 {
    match d {
        Delta::Delta1D(v) => v,
        Delta::Delta2D(x, _) => x,
    }
}

/// The Y component of a two-dimensional delta.
pub open spec fn delta_y(d: Delta) -> i16 {
    match d {
        Delta::Delta1D(v) => v,
        Delta::Delta2D(_, y) => y,
    }
}

/// How many points a tuple affects: its own set, or every point of the
/// owner when the set is empty.
pub open spec fn tv_affected_count(points: Seq<u16>, point_count: u16) -> int {
    if points.len() == 0 {
        point_count as int
    } else {
        points.len() as int
    }
}

/// The scalars handed to the packed-delta coder: for two-dimensional
/// deltas all X offsets then all Y offsets, else the scalar values.
pub open spec fn tv_scalars(ds: Seq<Delta>, vector: bool) -> Seq<i16> {
    if vector {
        Seq::new(ds.len(), |i: int| delta_x(ds[i])) + Seq::new(ds.len(), |i: int| delta_y(ds[i]))
    } else {
        Seq::new(ds.len(), |i: int| delta_x(ds[i]))
    }
}

/// Whether a tuple's point set is served by the store's shared point set
/// (or, with no shared set, by the "all points" default).
pub open spec fn uses_shared(points: Seq<u16>, sh: Option<Vec<u16>>) -> bool {
    match sh {
        Some(s) => points == s@,
        None => points.len() == 0,
    }
}

/// One tuple's serialized data: its private point set when the shared one
/// does not serve it, then its packed deltas.
pub open spec fn tv_payload(tv: TupleVariation, sh: Option<Vec<u16>>, vector: bool) -> Seq<u8> {
    (if uses_shared(tv.points@, sh) {
        seq![]
    } else {
        spec_encode_points(tv.points@)
    }) + spec_encode_deltas(tv_scalars(tv.deltas@, vector))
}

/// The header flags as serialized: the private-point-numbers bit is set
/// exactly when the tuple's own points go into its payload.
pub open spec fn with_private(flags: u16, p: bool) -> u16 {
    ((flags / 16384) * 16384 + flags % 8192 + if p {
        8192int
    } else {
        0int
    }) as u16
}

/// The header a store writes for one tuple: the user's header with the
/// payload size and the private-points bit back-patched.
pub open spec fn tv_header_model(tv: TupleVariation, sh: Option<Vec<u16>>, vector: bool) -> TvhModel {
    TvhModel {
        size: tv_payload(tv, sh, vector).len() as u16,
        flags: with_private(tv.header.flags, !uses_shared(tv.points@, sh)),
        peak: opt_view(tv.header.peak_tuple),
        start: opt_view(tv.header.intermediate_start),
        end: opt_view(tv.header.intermediate_end),
    }
}

/// The concatenated headers from tuple `i` on.
pub open spec fn tvs_headers(
    tvs: Seq<TupleVariation>,
    i: int,
    sh: Option<Vec<u16>>,
    vector: bool,
) -> Seq<u8>
    decreases tvs.len() - i,
{
    if i < 0 || i >= tvs.len() {
        seq![]
    } else {
        spec_encode_tvh(tv_header_model(tvs[i], sh, vector)) + tvs_headers(tvs, i + 1, sh, vector)
    }
}

/// The concatenated payloads from tuple `i` on.
pub open spec fn tvs_payloads(
    tvs: Seq<TupleVariation>,
    i: int,
    sh: Option<Vec<u16>>,
    vector: bool,
) -> Seq<u8>
    decreases tvs.len() - i,
{
    if i < 0 || i >= tvs.len() {
        seq![]
    } else {
        tv_payload(tvs[i], sh, vector) + tvs_payloads(tvs, i + 1, sh, vector)
    }
}

/// The shared point blob, when the store has one.
pub open spec fn shared_blob(sh: Option<Vec<u16>>) -> Seq<u8> {
    match sh {
        Some(s) => spec_encode_points(s@),
        None => seq![],
    }
}

/// The encoding of the whole store.
pub open spec fn spec_encode_tvs(s: TupleVariationStore) -> Seq<u8> {
    let headers = tvs_headers(s.variations@, 0, s.shared_points, s.vector_deltas);
    be16_bytes(
        (if s.shared_points is Some {
            32768int
        } else {
            0int
        }) + s.variations@.len(),
    ) + be16_bytes(4 + headers.len() as int) + headers + shared_blob(s.shared_points)
        + tvs_payloads(s.variations@, 0, s.shared_points, s.vector_deltas)
}

/// Well-formed tuple within a store: a well-formed header, an ascending
/// point set, one delta per affected point with the store's
/// dimensionality, and a payload that fits the header's 16-bit size field.
pub open spec fn tv_wf(tv: TupleVariation, s: TupleVariationStore) -> bool {
    &&& tvh_wf(tv.header, s.axis_count)
    &&& points_ascending(tv.points@)
    &&& tv.points@.len() <= 32767
    &&& tv.deltas@.len() == tv_affected_count(tv.points@, s.point_count)
    &&& forall|i: int|
        0 <= i < tv.deltas@.len() ==> ((#[trigger] tv.deltas@[i]) is Delta2D) == s.vector_deltas
    &&& tv_payload(tv, s.shared_points, s.vector_deltas).len() <= 65535
}

/// Well-formed store: the count fits the twelve-bit field, a shared point
/// set is a valid point set, every tuple is well formed, and the header
/// block ends within the 16-bit data offset.
pub open spec fn tvs_wf(s: TupleVariationStore) -> bool {
    &&& s.variations@.len() <= 4095
    &&& (s.shared_points matches Some(sp) ==> points_ascending(sp@) && sp@.len() <= 32767)
    &&& forall|i: int| 0 <= i < s.variations@.len() ==> tv_wf(#[trigger] s.variations@[i], s)
    &&& 4 + tvs_headers(s.variations@, 0, s.shared_points, s.vector_deltas).len() <= 65535
}

/// The headers of `n` tuples decoded in sequence from `pos`.
pub open spec fn dec_tvs_headers(b: Seq<u8>, pos: int, n: int, axis_count: u16) -> Result<
    (Seq<TvhModel>, int),
    CodecError,
>
    decreases n,
{
    if n <= 0 {
        Ok((seq![], pos))
    } else {
        match spec_decode_tvh(b, pos, axis_count) {
            Err(e) => Err(e),
            Ok((m, end)) => match dec_tvs_headers(b, end, n - 1, axis_count) {
                Ok((rest, e2)) => Ok((seq![m] + rest, e2)),
                Err(e) => Err(e),
            },
        }
    }
}

/// One tuple's data, decoded at `pos` under its header: the resolved point
/// set and the raw delta scalars. The header's declared size is checked
/// against the bytes actually consumed; a disagreement is a size mismatch,
/// never silently tolerated.
pub open spec fn dec_tv_data(
    b: Seq<u8>,
    pos: int,
    h: TvhModel,
    shared: Seq<u16>,
    has_shared: bool,
    point_count: u16,
    vector: bool,
) -> Result<((Seq<u16>, Seq<i16>), int), CodecError> {
    let ptsr: Result<(Seq<u16>, int), CodecError> = if flag_private_points(h.flags) {
        spec_decode_points(b, pos)
    } else if has_shared {
        Ok((shared, pos))
    } else {
        Ok((seq![], pos))
    };
    match ptsr {
        Err(e) => Err(e),
        Ok((pts, mid)) => {
            let n = tv_affected_count(pts, point_count) * (
            if vector {
                2int
            } else {
                1int
            });
            match spec_decode_deltas(b, mid, n) {
                Err(e) => Err(e),
                Ok((scalars, end)) => if end - pos != h.size {
                    Err(CodecError::SizeMismatch)
                } else {
                    Ok(((pts, scalars), end))
                },
            }
        },
    }
}

/// The data of the tuples from `i` on, walked in tuple order.
pub open spec fn dec_tvs_data(
    b: Seq<u8>,
    pos: int,
    hs: Seq<TvhModel>,
    i: int,
    shared: Seq<u16>,
    has_shared: bool,
    point_count: u16,
    vector: bool,
) -> Result<(Seq<(Seq<u16>, Seq<i16>)>, int), CodecError>
    decreases hs.len() - i,
{
    if i < 0 || i >= hs.len() {
        Ok((seq![], pos))
    } else {
        match dec_tv_data(b, pos, hs[i], shared, has_shared, point_count, vector) {
            Err(e) => Err(e),
            Ok((td, end)) => match dec_tvs_data(
                b,
                end,
                hs,
                i + 1,
                shared,
                has_shared,
                point_count,
                vector,
            ) {
                Ok((rest, e2)) => Ok((seq![td] + rest, e2)),
                Err(e) => Err(e),
            },
        }
    }
}

/// The mathematical content of a decoded store: the header models and, for
/// each tuple, its resolved point set and raw delta scalars.
pub struct TvsModel {
    pub has_shared: bool,
    pub shared: Seq<u16>,
    pub headers: Seq<TvhModel>,
    pub tuples: Seq<(Seq<u16>, Seq<i16>)>,
}

/// Decoding of a whole store at `pos` for the given context: axis count,
/// the owner's point count, and the delta dimensionality.
pub open spec fn spec_decode_tvs(
    b: Seq<u8>,
    pos: int,
    axis_count: u16,
    point_count: u16,
    vector: bool,
) -> Result<TvsModel, CodecError> {
    if pos < 0 || pos + 4 > b.len() {
        Err(CodecError::TruncatedInput)
    } else {
        let cw = be16(b[pos], b[pos + 1]);
        let has_shared = cw >= 32768;
        let n = cw % 4096;
        let doff = be16(b[pos + 2], b[pos + 3]);
        if pos + doff > b.len() {
            Err(CodecError::TruncatedInput)
        } else {
            match dec_tvs_headers(b, pos + 4, n, axis_count) {
                Err(e) => Err(e),
                Ok((hs, _hend)) => {
                    let sr: Result<(Seq<u16>, int), CodecError> = if has_shared {
                        spec_decode_points(b, pos + doff)
                    } else {
                        Ok((seq![], pos + doff))
                    };
                    match sr {
                        Err(e) => Err(e),
                        Ok((sp, dstart)) => match dec_tvs_data(
                            b,
                            dstart,
                            hs,
                            0,
                            sp,
                            has_shared,
                            point_count,
                            vector,
                        ) {
                            Ok((tds, _end)) => Ok(
                                TvsModel {
                                    has_shared: has_shared,
                                    shared: sp,
                                    headers: hs,
                                    tuples: tds,
                                },
                            ),
                            Err(e) => Err(e),
                        },
                    }
                },
            }
        }
    }
}

/// The point sequence of an optional shared point set.
pub open spec fn opt_points_seq(o: Option<Vec<u16>>) -> Seq<u16> {
    match o {
        Some(v) => v@,
        None => seq![],
    }
}

/// The header models of a sequence of tuple variations.
pub open spec fn hmodels(v: Seq<TupleVariationHeader>) -> Seq<TvhModel> {
    Seq::new(v.len(), |t: int| tvh_model(v[t]))
}

/// The data models of a sequence of tuple variations.
pub open spec fn tuples_models(v: Seq<TupleVariation>, vector: bool) -> Seq<(Seq<u16>, Seq<i16>)> {
    Seq::new(v.len(), |t: int| (v[t].points@, tv_scalars(v[t].deltas@, vector)))
}

/// The model of a store value: what a decode of its encoding recovers.
pub open spec fn tvs_model(s: TupleVariationStore) -> TvsModel {
    TvsModel {
        has_shared: s.shared_points is Some,
        shared: match s.shared_points {
            Some(v) => v@,
            None => seq![],
        },
        headers: Seq::new(s.variations@.len(), |i: int| tvh_model(s.variations@[i].header)),
        tuples: tuples_models(s.variations@, s.vector_deltas),
    }
}

/// Exec comparison of two point sets.
fn points_eq(a: &Vec<u16>, b: &Vec<u16>) -> (r: bool)
    ensures
        r == (a@ == b@),
{
    if a.len() != b.len() {
        return false;
    }
    let mut i: usize = 0;
    while i < a.len()
        invariant
            i <= a.len(),
            a@.len() == b@.len(),
            forall|t: int| 0 <= t < i ==> a@[t] == b@[t],
        decreases a.len() - i,
    {
        if a[i] != b[i] {
            return false;
        }
        i += 1;
    }
    proof {
        assert(a@ =~= b@);
    }
    true
}

/// Exec mirror of `uses_shared`.
fn uses_shared_ex(points: &Vec<u16>, sh: &Option<Vec<u16>>) -> (r: bool)
    ensures
        r == uses_shared(points@, *sh),
{
    match sh {
        Some(s) => points_eq(points, s),
        None => points.len() == 0,
    }
}

/// Exec extraction of the packed-delta scalars of one tuple.
fn tv_scalars_ex(deltas: &Vec<Delta>, vector: bool) -> (r: Vec<i16>)
    ensures
        r@ == tv_scalars(deltas@, vector),
{
    let mut out: Vec<i16> = Vec::new();
    let mut i: usize = 0;
    while i < deltas.len()
        invariant
            i <= deltas.len(),
            out@ == Seq::new(deltas@.len(), |t: int| delta_x(deltas@[t])).take(i as int),
        decreases deltas.len() - i,
    {
        let x = match &deltas[i] {
            Delta::Delta1D(v) => *v,
            Delta::Delta2D(x, _) => *x,
        };
        out.push(x);
        proof {
            assert(Seq::new(deltas@.len(), |t: int| delta_x(deltas@[t])).take(i + 1) =~= Seq::new(
                deltas@.len(),
                |t: int| delta_x(deltas@[t]),
            ).take(i as int).push(x));
        }
        i += 1;
    }
    proof {
        assert(Seq::new(deltas@.len(), |t: int| delta_x(deltas@[t])).take(deltas@.len() as int)
            =~= Seq::new(deltas@.len(), |t: int| delta_x(deltas@[t])));
    }
    if vector {
        let ghost xs = Seq::new(deltas@.len(), |t: int| delta_x(deltas@[t]));
        let ghost ys = Seq::new(deltas@.len(), |t: int| delta_y(deltas@[t]));
        let mut i: usize = 0;
        while i < deltas.len()
            invariant
                i <= deltas.len(),
                xs == Seq::new(deltas@.len(), |t: int| delta_x(deltas@[t])),
                ys == Seq::new(deltas@.len(), |t: int| delta_y(deltas@[t])),
                out@ == xs + ys.take(i as int),
            decreases deltas.len() - i,
        {
            let y = match &deltas[i] {
                Delta::Delta1D(v) => *v,
                Delta::Delta2D(_, y) => *y,
            };
            out.push(y);
            proof {
                assert(xs + ys.take(i + 1) =~= (xs + ys.take(i as int)).push(y));
            }
            i += 1;
        }
        proof {
            assert(out@ =~= xs + ys);
        }
    }
    out
}

/// Decodes one tuple's data at `p` under its header: the resolved point
/// set, the deltas rebuilt from the scalar stream, and the end position.
fn decode_tuple_data(
    data: &Vec<u8>,
    p: usize,
    h: &TupleVariationHeader,
    shared: &Option<Vec<u16>>,
    point_count: u16,
    vector: bool,
) -> (r: Result<(Vec<u16>, Vec<Delta>, usize), CodecError>)
    requires
        p <= data.len(),
        *shared matches Some(v) ==> v@.len() <= 32767,
    ensures
        match r {
            Ok(t) => {
                &&& dec_tv_data(
                    data@,
                    p as int,
                    tvh_model(*h),
                    opt_points_seq(*shared),
                    *shared is Some,
                    point_count,
                    vector,
                ) == Ok::<((Seq<u16>, Seq<i16>), int), CodecError>(
                    ((t.0@, tv_scalars(t.1@, vector)), t.2 as int),
                )
                &&& p <= t.2 <= data.len()
            },
            Err(e) => dec_tv_data(
                data@,
                p as int,
                tvh_model(*h),
                opt_points_seq(*shared),
                *shared is Some,
                point_count,
                vector,
            ) == Err::<((Seq<u16>, Seq<i16>), int), CodecError>(e),
        },
{
    let private = (h.flags / 8192) % 2 == 1;
    proof {
        assert(private == flag_private_points(tvh_model(*h).flags));
    }
    let points: Vec<u16>;
    let mid: usize;
    if private {
        match PackedPoints::decode(data, p) {
            Ok((pp, e2)) => {
                points = pp.points;
                mid = e2;
            },
            Err(e) => {
                return Err(e);
            },
        }
    } else {
        match shared {
            Some(v) => {
                points = copy_points(v);
            },
            None => {
                points = Vec::new();
                proof {
                    assert(points@ =~= Seq::<u16>::empty());
                }
            },
        }
        mid = p;
    }
    let pcount: usize = if points.len() == 0 {
        point_count as usize
    } else {
        points.len()
    };
    let count: usize = if vector {
        2 * pcount
    } else {
        pcount
    };
    proof {
        assert(count as int == tv_affected_count(points@, point_count) * (
        if vector {
            2int
        } else {
            1int
        }));
    }
    let scalars: Vec<i16>;
    let end: usize;
    match PackedDeltas::decode(data, mid, count) {
        Ok((pd, e2)) => {
            scalars = pd.deltas;
            end = e2;
        },
        Err(e) => {
            return Err(e);
        },
    }
    if end - p != h.variation_data_size as usize {
        return Err(CodecError::SizeMismatch);
    }
    let mut deltas: Vec<Delta> = Vec::new();
    if vector {
        let mut t: usize = 0;
        while t < pcount
            invariant
                t <= pcount,
                count == 2 * pcount,
                scalars@.len() == count,
                deltas@.len() == t,
                forall|u: int|
                    0 <= u < t ==> #[trigger] deltas@[u] == Delta::Delta2D(
                        scalars@[u],
                        scalars@[pcount + u],
                    ),
            decreases pcount - t,
        {
            deltas.push(Delta::Delta2D(scalars[t], scalars[pcount + t]));
            t += 1;
        }
    } else {
        let mut t: usize = 0;
        while t < pcount
            invariant
                t <= pcount,
                scalars@.len() == pcount,
                deltas@.len() == t,
                forall|u: int| 0 <= u < t ==> #[trigger] deltas@[u] == Delta::Delta1D(scalars@[u]),
            decreases pcount - t,
        {
            deltas.push(Delta::Delta1D(scalars[t]));
            t += 1;
        }
    }
    proof {
        assert(tv_scalars(deltas@, vector) =~= scalars@);
    }
    Ok((points, deltas, end))
}

impl TupleVariationStore {
    /// Encodes the store: the count word, the data offset, the headers
    /// carrying their back-patched payload sizes and private-points flags,
    /// then the serialized data in the same tuple order.
    pub fn encode(&self) -> (r: Vec<u8>)
        requires
            tvs_wf(*self),
        ensures
            r@ == spec_encode_tvs(*self),
    {
        let ghost tvs = self.variations@;
        let ghost sh = self.shared_points;
        let vector = self.vector_deltas;
        let count = self.variations.len();
        // First pass: each tuple's payload and back-patched header.
        let mut payloads: Vec<Vec<u8>> = Vec::new();
        let mut headers: Vec<Vec<u8>> = Vec::new();
        let mut i: usize = 0;
        while i < count
            invariant
                i <= count,
                count == tvs.len(),
                tvs == self.variations@,
                sh == self.shared_points,
                vector == self.vector_deltas,
                tvs_wf(*self),
                payloads@.len() == i,
                headers@.len() == i,
                forall|t: int|
                    0 <= t < i ==> (#[trigger] payloads@[t])@ == tv_payload(tvs[t], sh, vector),
                forall|t: int|
                    0 <= t < i ==> (#[trigger] headers@[t])@ == spec_encode_tvh(
                        tv_header_model(tvs[t], sh, vector),
                    ),
            decreases count - i,
        {
            let tv = &self.variations[i];
            proof {
                assert(tv_wf(tvs[i as int], *self));
            }
            let scalars = tv_scalars_ex(&tv.deltas, vector);
            let packed = PackedDeltas { deltas: scalars };
            let delta_bytes = packed.encode();
            let shared_serves = uses_shared_ex(&tv.points, &self.shared_points);
            let mut payload: Vec<u8> = Vec::new();
            if !shared_serves {
                let ptbytes = encode_points(&tv.points);
                crate::itemvariationstore::append_bytes(&mut payload, &ptbytes);
            }
            crate::itemvariationstore::append_bytes(&mut payload, &delta_bytes);
            proof {
                assert(payload@ =~= tv_payload(tvs[i as int], sh, vector));
            }
            let flags = (tv.header.flags / 16384) * 16384 + tv.header.flags % 8192 + (
            if shared_serves {
                0u16
            } else {
                8192u16
            });
            proof {
                assert(flags == with_private(tv.header.flags, !uses_shared(tvs[i as int].points@, sh)));
            }
            let hbytes = tv.header.encode_with(payload.len() as u16, flags);
            proof {
                assert(hbytes@ =~= spec_encode_tvh(tv_header_model(tvs[i as int], sh, vector)));
            }
            payloads.push(payload);
            headers.push(hbytes);
            i += 1;
        }
        // Second pass: assemble.
        let mut hlen: usize = 0;
        let mut i: usize = 0;
        while i < count
            invariant
                i <= count,
                count == tvs.len(),
                headers@.len() == count,
                forall|t: int|
                    0 <= t < count ==> (#[trigger] headers@[t])@ == spec_encode_tvh(
                        tv_header_model(tvs[t], sh, vector),
                    ),
                hlen + tvs_headers(tvs, i as int, sh, vector).len() == tvs_headers(
                    tvs,
                    0,
                    sh,
                    vector,
                ).len(),
                hlen <= tvs_headers(tvs, 0, sh, vector).len(),
                tvs_headers(tvs, 0, sh, vector).len() + 4 <= 65535,
            decreases count - i,
        {
            hlen = hlen + headers[i].len();
            i += 1;
        }
        proof {
            assert(tvs_headers(tvs, count as int, sh, vector).len() == 0);
        }
        let mut out: Vec<u8> = Vec::new();
        let cword: u16 = (if self.shared_points.is_some() {
            32768u16
        } else {
            0u16
        }) + (count as u16);
        crate::wire::push_u16(&mut out, cword);
        crate::wire::push_u16(&mut out, 4 + (hlen as u16));
        proof {
            assert(out@ =~= be16_bytes(
                (if sh is Some {
                    32768int
                } else {
                    0int
                }) + tvs.len() as int,
            ) + be16_bytes(4 + tvs_headers(tvs, 0, sh, vector).len() as int));
        }
        let ghost hdr2 = out@;
        let mut i: usize = 0;
        while i < count
            invariant
                i <= count,
                count == tvs.len(),
                headers@.len() == count,
                forall|t: int|
                    0 <= t < count ==> (#[trigger] headers@[t])@ == spec_encode_tvh(
                        tv_header_model(tvs[t], sh, vector),
                    ),
                out@ + tvs_headers(tvs, i as int, sh, vector) == hdr2 + tvs_headers(
                    tvs,
                    0,
                    sh,
                    vector,
                ),
            decreases count - i,
        {
            let ghost before = out@;
            crate::itemvariationstore::append_bytes(&mut out, &headers[i]);
            proof {
                assert(out@ + tvs_headers(tvs, i + 1, sh, vector) =~= before + tvs_headers(
                    tvs,
                    i as int,
                    sh,
                    vector,
                ));
            }
            i += 1;
        }
        proof {
            assert(tvs_headers(tvs, count as int, sh, vector) =~= Seq::<u8>::empty());
            assert(out@ =~= hdr2 + tvs_headers(tvs, 0, sh, vector));
        }
        if let Some(spv) = &self.shared_points {
            let spbytes = encode_points(spv);
            crate::itemvariationstore::append_bytes(&mut out, &spbytes);
        }
        proof {
            assert(out@ =~= hdr2 + tvs_headers(tvs, 0, sh, vector) + shared_blob(sh));
        }
        let ghost upto_payloads = out@;
        let mut i: usize = 0;
        while i < count
            invariant
                i <= count,
                count == tvs.len(),
                payloads@.len() == count,
                forall|t: int|
                    0 <= t < count ==> (#[trigger] payloads@[t])@ == tv_payload(tvs[t], sh, vector),
                out@ + tvs_payloads(tvs, i as int, sh, vector) == upto_payloads + tvs_payloads(
                    tvs,
                    0,
                    sh,
                    vector,
                ),
            decreases count - i,
        {
            let ghost before = out@;
            crate::itemvariationstore::append_bytes(&mut out, &payloads[i]);
            proof {
                assert(out@ + tvs_payloads(tvs, i + 1, sh, vector) =~= before + tvs_payloads(
                    tvs,
                    i as int,
                    sh,
                    vector,
                ));
            }
            i += 1;
        }
        proof {
            assert(tvs_payloads(tvs, count as int, sh, vector) =~= Seq::<u8>::empty());
            assert(out@ =~= upto_payloads + tvs_payloads(tvs, 0, sh, vector));
            assert(out@ =~= spec_encode_tvs(*self));
        }
        out
    }

    /// Decodes a store at `pos` for the given context: axis count, the
    /// owner's point count (which sizes "all points" tuples), and whether
    /// deltas are two-dimensional. Each tuple's consumed bytes are checked
    /// against its header's declared size.
    #[verifier::rlimit(100)]
    #[verifier::spinoff_prover]
    pub fn decode(
        data: &Vec<u8>,
        pos: usize,
        axis_count: u16,
        point_count: u16,
        vector_deltas: bool,
    ) -> (r: Result<TupleVariationStore, CodecError>)
        ensures
            match r {
                Ok(s) => {
                    &&& spec_decode_tvs(data@, pos as int, axis_count, point_count, vector_deltas)
                        == Ok::<TvsModel, CodecError>(tvs_model(s))
                    &&& s.axis_count == axis_count
                    &&& s.point_count == point_count
                    &&& s.vector_deltas == vector_deltas
                },
                Err(e) => spec_decode_tvs(
                    data@,
                    pos as int,
                    axis_count,
                    point_count,
                    vector_deltas,
                ) == Err::<TvsModel, CodecError>(e),
            },
    {
        let vector = vector_deltas;
        if data.len() < 4 || pos > data.len() - 4 {
            return Err(CodecError::TruncatedInput);
        }
        let cw = crate::wire::read_u16(data, pos);
        let has_shared = cw >= 32768;
        let n = (cw % 4096) as usize;
        let doff = crate::wire::read_u16(data, pos + 2) as usize;
        if doff > data.len() - pos {
            return Err(CodecError::TruncatedInput);
        }
        // The headers.
        let mut headers: Vec<TupleVariationHeader> = Vec::new();
        let mut p: usize = pos + 4;
        let mut i: usize = 0;
        while i < n
            invariant
                i <= n,
                pos + 4 <= data.len(),
                p <= data.len(),
                headers@.len() == i,
                dec_tvs_headers(data@, pos + 4, n as int, axis_count) == (match dec_tvs_headers(
                    data@,
                    p as int,
                    n - i,
                    axis_count,
                ) {
                    Ok((rest, e2)) => Ok::<(Seq<TvhModel>, int), CodecError>(
                        (hmodels(headers@) + rest, e2),
                    ),
                    Err(e) => Err::<(Seq<TvhModel>, int), CodecError>(e),
                }),
                cw == be16(data@[pos as int], data@[pos as int + 1]),
                doff == be16(data@[pos as int + 2], data@[pos as int + 3]),
                has_shared == (cw >= 32768),
                n == cw % 4096,
                pos + doff <= data.len(),
            decreases n - i,
        {
            let ghost hs_before = headers@;
            match TupleVariationHeader::decode(data, p, axis_count) {
                Ok((h, end)) => {
                    headers.push(h);
                    proof {
                        let inner = dec_tvs_headers(data@, end as int, n - i - 1, axis_count);
                        match inner {
                            Ok((rest, e2)) => {
                                assert(hmodels(hs_before) + (seq![tvh_model(h)] + rest) =~= hmodels(
                                    headers@,
                                ) + rest);
                            },
                            Err(_) => {},
                        }
                    }
                    p = end;
                },
                Err(e) => {
                    return Err(e);
                },
            }
            i += 1;
        }
        let ghost hs0 = hmodels(headers@);
        proof {
            assert(hs0 + Seq::<TvhModel>::empty() =~= hs0);
            assert(dec_tvs_headers(data@, pos + 4, n as int, axis_count) == Ok::<
                (Seq<TvhModel>, int),
                CodecError,
            >((hs0, p as int)));
        }
        // The shared point set, if the count word flags one.
        let mut dstart: usize = pos + doff;
        let shared_vec: Option<Vec<u16>> = if has_shared {
            match PackedPoints::decode(data, dstart) {
                Ok((pp, end)) => {
                    dstart = end;
                    Some(pp.points)
                },
                Err(e) => {
                    return Err(e);
                },
            }
        } else {
            None
        };
        let ghost sp: Seq<u16> = match &shared_vec {
            Some(v) => v@,
            None => seq![],
        };
        // The per-tuple data, in the same tuple order as the headers.
        let mut variations: Vec<TupleVariation> = Vec::new();
        let mut headers_left = headers;
        let ghost dstart0 = dstart as int;
        let mut p: usize = dstart;
        let mut i: usize = 0;
        while i < n
            invariant
                i <= n,
                p <= data.len(),
                hs0.len() == n,
                variations@.len() == i,
                headers_left@.len() == n - i,
                forall|t: int|
                    0 <= t < n - i ==> tvh_model(#[trigger] headers_left@[t]) == hs0[i + t],
                match shared_vec {
                    Some(v) => has_shared && v@ == sp && v@.len() <= 32767,
                    None => !has_shared && sp == Seq::<u16>::empty(),
                },
                vector == vector_deltas,
                forall|t: int|
                    0 <= t < i ==> tvh_model((#[trigger] variations@[t]).header) == hs0[t],
                dec_tvs_data(data@, dstart0, hs0, 0, sp, has_shared, point_count, vector) == (
                match dec_tvs_data(data@, p as int, hs0, i as int, sp, has_shared, point_count, vector) {
                    Ok((rest, e2)) => Ok::<(Seq<(Seq<u16>, Seq<i16>)>, int), CodecError>(
                        (tuples_models(variations@, vector) + rest, e2),
                    ),
                    Err(e) => Err::<(Seq<(Seq<u16>, Seq<i16>)>, int), CodecError>(e),
                }),
                cw == be16(data@[pos as int], data@[pos as int + 1]),
                doff == be16(data@[pos as int + 2], data@[pos as int + 3]),
                has_shared == (cw >= 32768),
                n == cw % 4096,
                pos + 4 <= data.len(),
                pos + doff <= data.len(),
                dec_tvs_headers(data@, pos + 4, n as int, axis_count) == Ok::<
                    (Seq<TvhModel>, int),
                    CodecError,
                >((hs0, p as int)) || dec_tvs_headers(data@, pos + 4, n as int, axis_count) is Ok,
                (dec_tvs_headers(data@, pos + 4, n as int, axis_count) matches Ok(pr) && pr.0
                    == hs0),
                has_shared ==> spec_decode_points(data@, pos + doff) == Ok::<
                    (Seq<u16>, int),
                    CodecError,
                >((sp, dstart0)),
                !has_shared ==> dstart0 == pos + doff,
            decreases n - i,
        {
            let h = headers_left.remove(0);
            proof {
                assert(tvh_model(h) == hs0[i as int]);
                assert forall|t: int| 0 <= t < n - i - 1 implies tvh_model(
                    #[trigger] headers_left@[t],
                ) == hs0[i + 1 + t] by {}
                assert(opt_points_seq(shared_vec) == sp);
                assert((shared_vec is Some) == has_shared);
            }
            let (points, deltas, end) = match decode_tuple_data(
                data,
                p,
                &h,
                &shared_vec,
                point_count,
                vector,
            ) {
                Ok(t) => t,
                Err(e) => {
                    return Err(e);
                },
            };
            let ghost vars_before = variations@;
            variations.push(TupleVariation { header: h, points, deltas });
            proof {
                let inner = dec_tvs_data(
                    data@,
                    end as int,
                    hs0,
                    i + 1,
                    sp,
                    has_shared,
                    point_count,
                    vector,
                );
                match inner {
                    Ok((rest, e2)) => {
                        assert(tuples_models(vars_before, vector) + (seq![
                            (
                                variations@[i as int].points@,
                                tv_scalars(variations@[i as int].deltas@, vector),
                            ),
                        ] + rest) =~= tuples_models(variations@, vector) + rest);
                    },
                    Err(_) => {},
                }
            }
            p = end;
            i += 1;
        }
        let s = TupleVariationStore {
            axis_count,
            point_count,
            vector_deltas,
            shared_points: shared_vec,
            variations,
        };
        proof {
            assert(tuples_models(s.variations@, vector) + Seq::<(Seq<u16>, Seq<i16>)>::empty()
                =~= tvs_model(s).tuples);
            assert(tvs_model(s).headers =~= hs0);
        }
        Ok(s)
    }
}

/// How many of the first `k` tuples use exactly the point set `s`.
pub open spec fn occ_upto(tvs: Seq<TupleVariation>, s: Seq<u16>, k: int) -> int
    decreases k,
{
    if k <= 0 {
        0
    } else {
        occ_upto(tvs, s, k - 1) + (if tvs[k - 1].points@ == s {
            1int
        } else {
            0int
        })
    }
}

/// How many tuples use exactly the point set `s`.
pub open spec fn occ(tvs: Seq<TupleVariation>, s: Seq<u16>) -> int {
    occ_upto(tvs, s, tvs.len() as int)
}

/// Index `i` carries the first explicit point set of maximal occurrence:
/// no explicit set occurs more often, and every earlier explicit set
/// occurs strictly less often.
pub open spec fn is_best_shared(tvs: Seq<TupleVariation>, i: int) -> bool {
    &&& 0 <= i < tvs.len()
    &&& tvs[i].points@.len() > 0
    &&& forall|j: int|
        0 <= j < tvs.len() && (#[trigger] tvs[j].points@).len() > 0 ==> occ(tvs, tvs[j].points@)
            <= occ(tvs, tvs[i].points@)
    &&& forall|j: int|
        0 <= j < i && (#[trigger] tvs[j].points@).len() > 0 ==> occ(tvs, tvs[j].points@) < occ(
            tvs,
            tvs[i].points@,
        )
}

impl TupleVariationStore {
    /// The space-optimal shared point set: the most common explicit point
    /// set across the tuples (the earliest on a tie), when it is reused by
    /// more than one tuple; none otherwise. Sharing is an encoder-side
    /// size optimization, not a requirement of the format.
    pub fn choose_shared_points(&self) -> (r: Option<Vec<u16>>)
        ensures
            match r {
                Some(v) => {
                    &&& exists|i: int|
                        is_best_shared(self.variations@, i) && v@ == (
                        #[trigger] self.variations@[i]).points@
                    &&& occ(self.variations@, v@) >= 2
                },
                None => forall|i: int|
                    #[trigger] is_best_shared(self.variations@, i) ==> occ(
                        self.variations@,
                        self.variations@[i].points@,
                    ) < 2,
            },
    {
        let ghost tvs = self.variations@;
        let n = self.variations.len();
        let mut best: usize = 0;
        let mut have_best: bool = false;
        let mut best_occ: usize = 0;
        let mut i: usize = 0;
        while i < n
            invariant
                i <= n,
                n == tvs.len(),
                tvs == self.variations@,
                have_best ==> best < i && tvs[best as int].points@.len() > 0 && best_occ == occ(
                    tvs,
                    tvs[best as int].points@,
                ),
                !have_best ==> best_occ == 0,
                forall|j: int|
                    0 <= j < i && (#[trigger] tvs[j].points@).len() > 0 ==> occ(tvs, tvs[j].points@)
                        <= best_occ,
                have_best ==> forall|j: int|
                    0 <= j < best && (#[trigger] tvs[j].points@).len() > 0 ==> occ(
                        tvs,
                        tvs[j].points@,
                    ) < best_occ,
            decreases n - i,
        {
            if self.variations[i].points.len() > 0 {
                let mut c: usize = 0;
                let mut j: usize = 0;
                while j < n
                    invariant
                        j <= n,
                        i < n,
                        n == tvs.len(),
                        tvs == self.variations@,
                        c == occ_upto(tvs, tvs[i as int].points@, j as int),
                        c <= j,
                    decreases n - j,
                {
                    if points_eq(&self.variations[j].points, &self.variations[i].points) {
                        c += 1;
                    }
                    j += 1;
                }
                if c > best_occ {
                    best = i;
                    have_best = true;
                    best_occ = c;
                } else {
                    proof {
                        assert(occ(tvs, tvs[i as int].points@) <= best_occ);
                    }
                }
            }
            i += 1;
        }
        if have_best && best_occ >= 2 {
            proof {
                assert(is_best_shared(tvs, best as int));
            }
            Some(copy_points(&self.variations[best].points))
        } else {
            proof {
                assert forall|t: int| #[trigger] is_best_shared(tvs, t) implies occ(
                    tvs,
                    tvs[t].points@,
                ) < 2 by {
                    assert(occ(tvs, tvs[t].points@) <= best_occ);
                }
            }
            None
        }
    }
}

/// Exec copy of a point set.
fn copy_points(src: &Vec<u16>) -> (r: Vec<u16>)
    ensures
        r@ == src@,
{
    let mut out: Vec<u16> = Vec::new();
    let mut i: usize = 0;
    while i < src.len()
        invariant
            i <= src.len(),
            out@ == src@.take(i as int),
        decreases src.len() - i,
    {
        out.push(src[i]);
        proof {
            assert(src@.take(i + 1) =~= src@.take(i as int).push(src@[i as int]));
        }
        i += 1;
    }
    proof {
        assert(src@.take(src@.len() as int) =~= src@);
    }
    out
}

} // verus!
