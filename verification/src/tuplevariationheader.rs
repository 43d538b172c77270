//! Tuple variation headers: the per-tuple record that gives the serialized
//! payload size, a peak location in design space (embedded, or shared by
//! index), an optional intermediate start/end region, and the flag that says
//! whether the tuple carries private point numbers.
use crate::wire::{be16, be16_bytes, i16_be_bytes, i16_of_u16_repr};
use crate::CodecError;
use vstd::prelude::*;

verus! {

/// Flag bit: the peak tuple is embedded in the header.
pub const EMBEDDED_PEAK_TUPLE: u16 = 0x8000;

/// Flag bit: an intermediate start/end region follows the peak.
pub const INTERMEDIATE_REGION: u16 = 0x4000;

/// Flag bit: the tuple has private point numbers in its serialized data.
pub const PRIVATE_POINT_NUMBERS: u16 = 0x2000;

/// Mask of the shared tuple index, used when the peak is not embedded.
pub const TUPLE_INDEX_MASK: u16 = 0x0FFF;

/// Whether the embedded-peak flag bit is set.
pub open spec fn flag_embedded_peak(flags: u16) -> bool {
    flags / 32768 % 2 == 1
}

/// Whether the intermediate-region flag bit is set.
pub open spec fn flag_intermediate(flags: u16) -> bool {
    flags / 16384 % 2 == 1
}

/// Whether the private-point-numbers flag bit is set.
pub open spec fn flag_private_points(flags: u16) -> bool {
    flags / 8192 % 2 == 1
}

/// One tuple variation header. Coordinates are raw F2Dot14 bits (16384 is
/// 1.0). `peak_tuple` is present exactly when the embedded-peak flag is
/// set; the intermediate pair is present exactly when the intermediate
/// flag is set; otherwise the low twelve flag bits index a store-level
/// shared tuple table that is outside this header's own state.
#[derive(Clone, Debug, PartialEq)]
pub struct TupleVariationHeader {
    pub variation_data_size: u16,
    pub flags: u16,
    pub peak_tuple: Option<Vec<i16>>,
    pub intermediate_start: Option<Vec<i16>>,
    pub intermediate_end: Option<Vec<i16>>,
}

/// View of an optional coordinate tuple.
pub open spec fn opt_view(o: Option<Vec<i16>>) -> Option<Seq<i16>> {
    match o {
        Some(v) => Some(v@),
        None => None,
    }
}

/// The mathematical content of a header.
pub struct TvhModel {
    pub size: u16,
    pub flags: u16,
    pub peak: Option<Seq<i16>>,
    pub start: Option<Seq<i16>>,
    pub end: Option<Seq<i16>>,
}

/// The model of a header value.
pub open spec fn tvh_model(h: TupleVariationHeader) -> TvhModel {
    TvhModel {
        size: h.variation_data_size,
        flags: h.flags,
        peak: opt_view(h.peak_tuple),
        start: opt_view(h.intermediate_start),
        end: opt_view(h.intermediate_end),
    }
}

/// Well-formed header for a given axis count: optional fields present
/// exactly as the flags say, each spanning every axis.
pub open spec fn tvh_wf(h: TupleVariationHeader, axis_count: u16) -> bool {
    &&& (h.peak_tuple is Some) == flag_embedded_peak(h.flags)
    &&& (h.intermediate_start is Some) == flag_intermediate(h.flags)
    &&& (h.intermediate_end is Some) == flag_intermediate(h.flags)
    &&& (h.peak_tuple is Some ==> h.peak_tuple->0@.len() == axis_count)
    &&& (h.intermediate_start is Some ==> h.intermediate_start->0@.len() == axis_count)
    &&& (h.intermediate_end is Some ==> h.intermediate_end->0@.len() == axis_count)
}

/// The bytes of a coordinate tuple, each F2Dot14 big-endian.
pub open spec fn enc_i16s(s: Seq<i16>, i: int) -> Seq<u8>
    decreases s.len() - i,
{
    if i < 0 || i >= s.len() {
        seq![]
    } else {
        i16_be_bytes(s[i]) + enc_i16s(s, i + 1)
    }
}

/// The bytes of an optional coordinate tuple.
pub open spec fn enc_opt_tuple(o: Option<Seq<i16>>) -> Seq<u8> {
    match o {
        Some(s) => enc_i16s(s, 0),
        None => seq![],
    }
}

/// The encoding of a header: size, flags, then the optional embedded peak
/// and intermediate start/end tuples.
pub open spec fn spec_encode_tvh(m: TvhModel) -> Seq<u8> {
    be16_bytes(m.size as int) + be16_bytes(m.flags as int) + enc_opt_tuple(m.peak) + enc_opt_tuple(
        m.start,
    ) + enc_opt_tuple(m.end)
}

/// One decoded coordinate tuple of `n` axes starting at `pos`.
pub open spec fn dec_i16s(b: Seq<u8>, pos: int, n: int) -> Seq<i16> {
    Seq::new(n as nat, |j: int| i16_of_u16_repr(be16(b[pos + 2 * j], b[pos + 2 * j + 1])) as i16)
}

/// Decoding of a header at `pos` for a given axis count: returns the model
/// and the position one past the header.
pub open spec fn spec_decode_tvh(b: Seq<u8>, pos: int, axis_count: u16) -> Result<
    (TvhModel, int),
    CodecError,
> {
    if pos < 0 || pos + 4 > b.len() {
        Err(CodecError::TruncatedInput)
    } else {
        let size = be16(b[pos], b[pos + 1]);
        let flags = be16(b[pos + 2], b[pos + 3]) as u16;
        let npeak: int = if flag_embedded_peak(flags) {
            axis_count as int
        } else {
            0
        };
        let ninter: int = if flag_intermediate(flags) {
            axis_count as int
        } else {
            0
        };
        if pos + 4 + 2 * npeak + 4 * ninter > b.len() {
            Err(CodecError::TruncatedInput)
        } else {
            Ok(
                (
                    TvhModel {
                        size: size as u16,
                        flags: flags,
                        peak: if flag_embedded_peak(flags) {
                            Some(dec_i16s(b, pos + 4, npeak))
                        } else {
                            None
                        },
                        start: if flag_intermediate(flags) {
                            Some(dec_i16s(b, pos + 4 + 2 * npeak, ninter))
                        } else {
                            None
                        },
                        end: if flag_intermediate(flags) {
                            Some(dec_i16s(b, pos + 4 + 2 * npeak + 2 * ninter, ninter))
                        } else {
                            None
                        },
                    },
                    pos + 4 + 2 * npeak + 4 * ninter,
                ),
            )
        }
    }
}

/// Appends one coordinate tuple.
fn push_i16s(out: &mut Vec<u8>, s: &Vec<i16>)
    ensures
        final(out)@ == old(out)@ + enc_i16s(s@, 0),
{
    let mut j: usize = 0;
    while j < s.len()
        invariant
            j <= s.len(),
            out@ + enc_i16s(s@, j as int) == old(out)@ + enc_i16s(s@, 0),
        decreases s.len() - j,
    {
        let ghost before = out@;
        crate::wire::push_i16(out, s[j]);
        proof {
            assert(out@ + enc_i16s(s@, j + 1) =~= before + enc_i16s(s@, j as int));
        }
        j += 1;
    }
    proof {
        assert(enc_i16s(s@, s@.len() as int) =~= Seq::<u8>::empty());
        assert(out@ =~= out@ + enc_i16s(s@, s@.len() as int));
    }
}

/// Reads one coordinate tuple of `n` axes.
fn read_i16s(data: &Vec<u8>, pos: usize, n: usize) -> (r: Vec<i16>)
    requires
        pos + 2 * n <= data.len(),
    ensures
        r@ == dec_i16s(data@, pos as int, n as int),
{
    let mut out: Vec<i16> = Vec::new();
    let mut j: usize = 0;
    while j < n
        invariant
            j <= n,
            pos + 2 * n <= data.len(),
            out@ == dec_i16s(data@, pos as int, n as int).take(j as int),
        decreases n - j,
    {
        let v = crate::wire::read_i16(data, pos + 2 * j);
        out.push(v);
        proof {
            assert(dec_i16s(data@, pos as int, n as int).take(j + 1) =~= dec_i16s(
                data@,
                pos as int,
                n as int,
            ).take(j as int).push(v));
        }
        j += 1;
    }
    proof {
        assert(dec_i16s(data@, pos as int, n as int).take(n as int) =~= dec_i16s(
            data@,
            pos as int,
            n as int,
        ));
    }
    out
}

impl TupleVariationHeader {
    /// Encodes the header. `variation_data_size` is whatever the header
    /// holds; the store, not the header, is responsible for computing it
    /// from the serialized point and delta payload.
    pub fn encode(&self, axis_count: u16) -> (r: Vec<u8>)
        requires
            tvh_wf(*self, axis_count),
        ensures
            r@ == spec_encode_tvh(tvh_model(*self)),
    {
        self.encode_with(self.variation_data_size, self.flags)
    }

    /// Encodes the header with a back-patched size and flag word, as the
    /// store does once it has serialized the tuple's payload.
    pub fn encode_with(&self, size: u16, flags: u16) -> (r: Vec<u8>)
        ensures
            r@ == spec_encode_tvh(
                TvhModel {
                    size: size,
                    flags: flags,
                    peak: opt_view(self.peak_tuple),
                    start: opt_view(self.intermediate_start),
                    end: opt_view(self.intermediate_end),
                },
            ),
    {
        let mut out: Vec<u8> = Vec::new();
        crate::wire::push_u16(&mut out, size);
        crate::wire::push_u16(&mut out, flags);
        proof {
            assert(out@ =~= be16_bytes(size as int) + be16_bytes(flags as int));
        }
        if let Some(peak) = &self.peak_tuple {
            push_i16s(&mut out, peak);
        }
        if let Some(start) = &self.intermediate_start {
            push_i16s(&mut out, start);
        }
        if let Some(end) = &self.intermediate_end {
            push_i16s(&mut out, end);
        }
        proof {
            assert(out@ =~= spec_encode_tvh(
                TvhModel {
                    size: size,
                    flags: flags,
                    peak: opt_view(self.peak_tuple),
                    start: opt_view(self.intermediate_start),
                    end: opt_view(self.intermediate_end),
                },
            ));
        }
        out
    }

    /// Decodes a header at `pos`, resolving the optional fields from the
    /// flags. Returns the header and the position one past it.
    pub fn decode(data: &Vec<u8>, pos: usize, axis_count: u16) -> (r: Result<
        (TupleVariationHeader, usize),
        CodecError,
    >)
        ensures
            match r {
                Ok(p) => {
                    &&& spec_decode_tvh(data@, pos as int, axis_count) == Ok::<
                        (TvhModel, int),
                        CodecError,
                    >((tvh_model(p.0), p.1 as int))
                    &&& pos <= p.1 <= data.len()
                    &&& tvh_wf(p.0, axis_count)
                },
                Err(e) => spec_decode_tvh(data@, pos as int, axis_count) == Err::<
                    (TvhModel, int),
                    CodecError,
                >(e),
            },
    {
        if data.len() < 4 || pos > data.len() - 4 {
            return Err(CodecError::TruncatedInput);
        }
        let size = crate::wire::read_u16(data, pos);
        let flags = crate::wire::read_u16(data, pos + 2);
        let embedded = flags >= 32768;
        let intermediate = (flags / 16384) % 2 == 1;
        proof {
            assert(embedded == flag_embedded_peak(flags));
            assert(intermediate == flag_intermediate(flags));
        }
        let ac = axis_count as usize;
        let npeak: usize = if embedded {
            ac
        } else {
            0
        };
        let ninter: usize = if intermediate {
            ac
        } else {
            0
        };
        if (data.len() - (pos + 4)) / 2 < npeak + 2 * ninter {
            return Err(CodecError::TruncatedInput);
        }
        let peak_tuple = if embedded {
            Some(read_i16s(data, pos + 4, ac))
        } else {
            None
        };
        let intermediate_start = if intermediate {
            Some(read_i16s(data, pos + 4 + 2 * npeak, ac))
        } else {
            None
        };
        let intermediate_end = if intermediate {
            Some(read_i16s(data, pos + 4 + 2 * npeak + 2 * ninter, ac))
        } else {
            None
        };
        let h = TupleVariationHeader {
            variation_data_size: size,
            flags,
            peak_tuple,
            intermediate_start,
            intermediate_end,
        };
        Ok((h, pos + 4 + 2 * npeak + 4 * ninter))
    }
}

} // verus!
