//! The shared item variation store used by variable positioning values: a
//! deduplicated region list plus per-item delta rows that mix word-width and
//! byte-width columns for compactness.
//!
//! An `ItemVariationData` block stores its rows at one width class: the low
//! 15 bits of its `wordDeltaCount` field give the number of leading columns
//! stored wide, and the top bit (long words) upgrades wide columns to 32
//! bits and narrow ones to 16. Data blocks reference regions by index into
//! the store's shared region list; the indirection is the store's main
//! space saving and is preserved symmetrically on decode.
use crate::wire::{
    be16, be16_bytes, be32, be32_bytes, i16_be_bytes, i16_of_u16_repr, i32_be_bytes,
    i32_of_u32_repr, int_of_u8_repr, u16_repr_of_i16, u32_repr_of_i32, u8_repr_of_int,
};
use crate::CodecError;
use vstd::prelude::*;

verus! {

/// Two's-complement 16-bit representative of a value in `[-32768, 32767]`.
pub open spec fn u16_repr_of_int(v: int) -> int {
    if v >= 0 {
        v
    } else {
        v + 65536
    }
}

/// The per-row delta columns of a data block, one inner sequence per item.
pub open spec fn rows_view(v: Seq<Vec<i32>>) -> Seq<Seq<i32>> {
    Seq::new(v.len(), |i: int| v[i]@)
}

/// Well-formed data block: every row has one delta per region index, and
/// the counts fit their fields.
pub open spec fn ivd_wf(regions: Seq<u16>, rows: Seq<Seq<i32>>) -> bool {
    &&& regions.len() <= 32767
    &&& rows.len() <= 65535
    &&& forall|i: int| 0 <= i < rows.len() ==> (#[trigger] rows[i]).len() == regions.len()
}

/// Whether any delta in the block lies outside the 16-bit range, forcing
/// the long-words width class.
pub open spec fn ivd_long_words(rows: Seq<Seq<i32>>) -> bool {
    exists|i: int, j: int|
        0 <= i < rows.len() && 0 <= j < rows[i].len() && !(-32768 <= #[trigger] rows[i][j]
            <= 32767)
}

/// Whether `v` fits the narrow column width of the chosen class.
pub open spec fn fits_narrow(v: i32, long: bool) -> bool {
    if long {
        -32768 <= v <= 32767
    } else {
        -128 <= v <= 127
    }
}

/// Whether column `j` holds some value that needs the wide width.
pub open spec fn col_needs_wide(rows: Seq<Seq<i32>>, j: int, long: bool) -> bool {
    exists|i: int| 0 <= i < rows.len() && !fits_narrow(#[trigger] rows[i][j], long)
}

/// The number of leading wide columns a minimal encoder stores: the
/// smallest prefix covering every column that needs the wide width.
pub open spec fn ivd_word_count(rows: Seq<Seq<i32>>, ncols: int, long: bool) -> int
    decreases ncols,
{
    if ncols <= 0 {
        0
    } else if col_needs_wide(rows, ncols - 1, long) {
        ncols
    } else {
        ivd_word_count(rows, ncols - 1, long)
    }
}

/// The bytes of one wide column value.
pub open spec fn wide_field(v: i32, long: bool) -> Seq<u8> {
    if long {
        i32_be_bytes(v)
    } else {
        be16_bytes(u16_repr_of_int(v as int))
    }
}

/// The bytes of one narrow column value.
pub open spec fn narrow_field(v: i32, long: bool) -> Seq<u8> {
    if long {
        be16_bytes(u16_repr_of_int(v as int))
    } else {
        seq![u8_repr_of_int(v as int) as u8]
    }
}

/// The bytes of one row from column `j` on: wide columns first.
pub open spec fn enc_row_cols(row: Seq<i32>, j: int, wc: int, long: bool) -> Seq<u8>
    decreases row.len() - j,
{
    if j < 0 || j >= row.len() {
        seq![]
    } else {
        (if j < wc {
            wide_field(row[j], long)
        } else {
            narrow_field(row[j], long)
        }) + enc_row_cols(row, j + 1, wc, long)
    }
}

/// The bytes of the rows from row `i` on.
pub open spec fn enc_rows(rows: Seq<Seq<i32>>, i: int, wc: int, long: bool) -> Seq<u8>
    decreases rows.len() - i,
{
    if i < 0 || i >= rows.len() {
        seq![]
    } else {
        enc_row_cols(rows[i], 0, wc, long) + enc_rows(rows, i + 1, wc, long)
    }
}

/// The bytes of a run of big-endian 16-bit fields from index `i` on.
pub open spec fn enc_u16s(s: Seq<u16>, i: int) -> Seq<u8>
    decreases s.len() - i,
{
    if i < 0 || i >= s.len() {
        seq![]
    } else {
        be16_bytes(s[i] as int) + enc_u16s(s, i + 1)
    }
}

/// The encoding of one data block: item count, the word-delta-count field
/// (top bit long words, low 15 bits the wide column count), region index
/// count, the region indexes, then the rows. The width class is the
/// minimal one that loses no precision anywhere in the block.
pub open spec fn spec_encode_ivd(regions: Seq<u16>, rows: Seq<Seq<i32>>) -> Seq<u8> {
    let long = ivd_long_words(rows);
    let wc = ivd_word_count(rows, regions.len() as int, long);
    be16_bytes(rows.len() as int) + be16_bytes(
        (if long {
            32768int
        } else {
            0int
        }) + wc,
    ) + be16_bytes(regions.len() as int) + enc_u16s(regions, 0) + enc_rows(rows, 0, wc, long)
}

/// Byte length of one encoded row.
pub open spec fn ivd_row_len(ncols: int, wc: int, long: bool) -> int {
    if long {
        4 * wc + 2 * (ncols - wc)
    } else {
        2 * wc + (ncols - wc)
    }
}

/// Byte offset of column `j` inside an encoded row.
pub open spec fn ivd_col_off(j: int, wc: int, long: bool) -> int {
    if long {
        if j < wc {
            4 * j
        } else {
            4 * wc + 2 * (j - wc)
        }
    } else {
        if j < wc {
            2 * j
        } else {
            2 * wc + (j - wc)
        }
    }
}

/// The value decoded from one column position.
pub open spec fn dec_col(b: Seq<u8>, pos: int, wide: bool, long: bool) -> i32 {
    if wide {
        if long {
            i32_of_u32_repr(be32(b[pos], b[pos + 1], b[pos + 2], b[pos + 3])) as i32
        } else {
            i16_of_u16_repr(be16(b[pos], b[pos + 1])) as i32
        }
    } else {
        if long {
            i16_of_u16_repr(be16(b[pos], b[pos + 1])) as i32
        } else {
            int_of_u8_repr(b[pos] as int) as i32
        }
    }
}

/// One decoded row starting at `pos`.
pub open spec fn dec_row(b: Seq<u8>, pos: int, ncols: int, wc: int, long: bool) -> Seq<i32> {
    Seq::new(ncols as nat, |j: int| dec_col(b, pos + ivd_col_off(j, wc, long), j < wc, long))
}

/// Decoding of a data block starting at `pos`: returns the region indexes,
/// the rows, and the position one past the block.
pub open spec fn spec_decode_ivd(b: Seq<u8>, pos: int) -> Result<
    (Seq<u16>, Seq<Seq<i32>>, int),
    CodecError,
> {
    if pos < 0 || pos + 6 > b.len() {
        Err(CodecError::TruncatedInput)
    } else {
        let item_count = be16(b[pos], b[pos + 1]);
        let word_info = be16(b[pos + 2], b[pos + 3]);
        let long = word_info >= 32768;
        let wc = word_info % 32768;
        let ncols = be16(b[pos + 4], b[pos + 5]);
        if wc > ncols {
            Err(CodecError::SizeMismatch)
        } else if pos + 6 + 2 * ncols > b.len() {
            Err(CodecError::TruncatedInput)
        } else {
            let regions = Seq::new(
                ncols as nat,
                |k: int| be16(b[pos + 6 + 2 * k], b[pos + 7 + 2 * k]) as u16,
            );
            let rows_pos = pos + 6 + 2 * ncols;
            let rl = ivd_row_len(ncols, wc, long);
            if rows_pos + item_count * rl > b.len() {
                Err(CodecError::TruncatedInput)
            } else {
                Ok(
                    (
                        regions,
                        Seq::new(
                            item_count as nat,
                            |i: int| dec_row(b, rows_pos + i * rl, ncols, wc, long),
                        ),
                        rows_pos + item_count * rl,
                    ),
                )
            }
        }
    }
}

/// One data block of the item variation store: delta rows over a subset of
/// the store's shared regions, referenced by index.
#[derive(Clone, Debug, PartialEq)]
pub struct ItemVariationData {
    pub region_indexes: Vec<u16>,
    pub delta_values: Vec<Vec<i32>>,
}

/// Exec scan for any value outside the 16-bit range.
fn compute_long_words(rows: &Vec<Vec<i32>>) -> (r: bool)
    ensures
        r == ivd_long_words(rows_view(rows@)),
{
    let ghost rv = rows_view(rows@);
    let mut i: usize = 0;
    while i < rows.len()
        invariant
            i <= rows.len(),
            rv == rows_view(rows@),
            forall|a: int, b: int|
                0 <= a < i && 0 <= b < rv[a].len() ==> -32768 <= #[trigger] rv[a][b] <= 32767,
        decreases rows.len() - i,
    {
        let row = &rows[i];
        let mut j: usize = 0;
        while j < row.len()
            invariant
                i < rows.len(),
                j <= row.len(),
                rv == rows_view(rows@),
                row@ == rv[i as int],
                forall|a: int, b: int|
                    0 <= a < i && 0 <= b < rv[a].len() ==> -32768 <= #[trigger] rv[a][b] <= 32767,
                forall|b: int| 0 <= b < j ==> -32768 <= #[trigger] rv[i as int][b] <= 32767,
            decreases row.len() - j,
        {
            let v = row[j];
            if v < -32768 || v > 32767 {
                proof {
                    assert(rv[i as int][j as int] == v);
                    assert(ivd_long_words(rv));
                }
                return true;
            }
            j += 1;
        }
        i += 1;
    }
    proof {
        if ivd_long_words(rv) {
            let (a, b) = choose|a: int, b: int|
                0 <= a < rv.len() && 0 <= b < rv[a].len() && !(-32768 <= #[trigger] rv[a][b]
                    <= 32767);
            assert(-32768 <= rv[a][b] <= 32767);
        }
    }
    false
}

/// Exec scan for a value in column `j` that needs the wide width.
fn col_needs_wide_ex(rows: &Vec<Vec<i32>>, j: usize, long: bool) -> (r: bool)
    requires
        forall|i: int| 0 <= i < rows@.len() ==> j < (#[trigger] rows@[i])@.len(),
    ensures
        r == col_needs_wide(rows_view(rows@), j as int, long),
{
    let ghost rv = rows_view(rows@);
    let mut i: usize = 0;
    while i < rows.len()
        invariant
            i <= rows.len(),
            rv == rows_view(rows@),
            forall|a: int| 0 <= a < rows@.len() ==> j < (#[trigger] rows@[a])@.len(),
            forall|a: int| 0 <= a < i ==> fits_narrow(#[trigger] rv[a][j as int], long),
        decreases rows.len() - i,
    {
        let row = &rows[i];
        let v = row[j];
        let narrow_ok = if long {
            -32768 <= v && v <= 32767
        } else {
            -128 <= v && v <= 127
        };
        if !narrow_ok {
            proof {
                assert(rv[i as int][j as int] == v);
                assert(!fits_narrow(rv[i as int][j as int], long));
                assert(col_needs_wide(rv, j as int, long));
            }
            return true;
        }
        i += 1;
    }
    proof {
        if col_needs_wide(rv, j as int, long) {
            let a = choose|a: int|
                0 <= a < rv.len() && !fits_narrow(#[trigger] rv[a][j as int], long);
            assert(fits_narrow(rv[a][j as int], long));
        }
    }
    false
}

/// The minimal word count covers every column at or past it with the
/// narrow width, and no more.
proof fn lemma_word_count_minimal(rows: Seq<Seq<i32>>, m: int, long: bool)
    requires
        m >= 0,
    ensures
        0 <= ivd_word_count(rows, m, long) <= m,
        forall|j: int|
            ivd_word_count(rows, m, long) <= j < m ==> !col_needs_wide(rows, j, long),
    decreases m,
{
    if m > 0 && !col_needs_wide(rows, m - 1, long) {
        lemma_word_count_minimal(rows, m - 1, long);
    }
}

/// A column that needs the wide width lies below the chosen word count.
proof fn lemma_word_count_at_least(rows: Seq<Seq<i32>>, m: int, long: bool, j: int)
    requires
        0 <= j < m,
        col_needs_wide(rows, j, long),
    ensures
        ivd_word_count(rows, m, long) > j,
    decreases m,
{
    if !col_needs_wide(rows, m - 1, long) {
        lemma_word_count_at_least(rows, m - 1, long, j);
    }
}

/// Width escalation: a delta outside the one-byte range in some column
/// forces the whole block out of the byte width — either the long-words
/// class is chosen or that column is stored wide; a delta outside the
/// 16-bit range forces the long-words class.
pub proof fn lemma_ivd_width_escalation(regions: Seq<u16>, rows: Seq<Seq<i32>>, i: int, j: int)
    requires
        ivd_wf(regions, rows),
        0 <= i < rows.len(),
        0 <= j < regions.len(),
        !(-128 <= rows[i][j] <= 127),
    ensures
        ivd_long_words(rows) || j < ivd_word_count(
            rows,
            regions.len() as int,
            ivd_long_words(rows),
        ),
        !(-32768 <= rows[i][j] <= 32767) ==> ivd_long_words(rows),
{
    if !(-32768 <= rows[i][j] <= 32767) {
        assert(ivd_long_words(rows));
    }
    if !ivd_long_words(rows) {
        assert(!fits_narrow(rows[i][j], false));
        assert(col_needs_wide(rows, j, false));
        lemma_word_count_at_least(rows, regions.len() as int, false, j);
    }
}

/// When no value needs long words, every value fits a signed 16-bit field.
proof fn lemma_not_long_all_fit(rows: Seq<Seq<i32>>, i: int, j: int)
    requires
        !ivd_long_words(rows),
        0 <= i < rows.len(),
        0 <= j < rows[i].len(),
    ensures
        -32768 <= rows[i][j] <= 32767,
{
    if !(-32768 <= rows[i][j] <= 32767) {
        assert(ivd_long_words(rows));
    }
}

impl ItemVariationData {
    /// Encodes the data block. The width class is chosen per block: long
    /// words when any delta exceeds the 16-bit range, and the smallest
    /// leading wide-column count that loses no precision in any row.
    pub fn encode(&self) -> (r: Vec<u8>)
        requires
            ivd_wf(self.region_indexes@, rows_view(self.delta_values@)),
        ensures
            r@ == spec_encode_ivd(self.region_indexes@, rows_view(self.delta_values@)),
    {
        let ghost rows = rows_view(self.delta_values@);
        let ghost regions = self.region_indexes@;
        let long = compute_long_words(&self.delta_values);
        let ncols = self.region_indexes.len();
        proof {
            assert forall|a: int| 0 <= a < self.delta_values@.len() implies ncols < (
            #[trigger] self.delta_values@[a])@.len() + 1 by {
                assert(rows[a].len() == regions.len());
            }
        }
        let mut wc: usize = 0;
        let mut j: usize = 0;
        while j < ncols
            invariant
                j <= ncols,
                wc <= j,
                ncols == regions.len(),
                rows == rows_view(self.delta_values@),
                regions == self.region_indexes@,
                ivd_wf(regions, rows),
                wc as int == ivd_word_count(rows, j as int, long),
            decreases ncols - j,
        {
            proof {
                assert forall|a: int| 0 <= a < self.delta_values@.len() implies j < (
                #[trigger] self.delta_values@[a])@.len() by {
                    assert(rows[a].len() == regions.len());
                }
            }
            if col_needs_wide_ex(&self.delta_values, j, long) {
                wc = j + 1;
            }
            j += 1;
        }
        let item_count = self.delta_values.len();
        let mut out: Vec<u8> = Vec::new();
        crate::wire::push_u16(&mut out, item_count as u16);
        crate::wire::push_u16(
            &mut out,
            (if long {
                32768u16
            } else {
                0u16
            }) + (wc as u16),
        );
        crate::wire::push_u16(&mut out, ncols as u16);
        let ghost hdr = be16_bytes(rows.len() as int) + be16_bytes(
            (if long {
                32768int
            } else {
                0int
            }) + wc as int,
        ) + be16_bytes(regions.len() as int);
        proof {
            assert(out@ =~= hdr);
        }
        let mut k: usize = 0;
        while k < ncols
            invariant
                k <= ncols,
                ncols == regions.len(),
                regions == self.region_indexes@,
                out@ + enc_u16s(regions, k as int) == hdr + enc_u16s(regions, 0),
            decreases ncols - k,
        {
            let ghost before = out@;
            crate::wire::push_u16(&mut out, self.region_indexes[k]);
            proof {
                assert(out@ + enc_u16s(regions, k + 1) =~= before + enc_u16s(regions, k as int));
            }
            k += 1;
        }
        proof {
            assert(enc_u16s(regions, ncols as int) =~= Seq::<u8>::empty());
            assert(out@ =~= hdr + enc_u16s(regions, 0));
        }
        let ghost upto_rows = out@;
        let mut i: usize = 0;
        while i < item_count
            invariant
                i <= item_count,
                item_count == self.delta_values.len(),
                ncols == regions.len(),
                rows == rows_view(self.delta_values@),
                regions == self.region_indexes@,
                ivd_wf(regions, rows),
                wc <= ncols,
                long == ivd_long_words(rows),
                wc as int == ivd_word_count(rows, ncols as int, long),
                out@ + enc_rows(rows, i as int, wc as int, long) == upto_rows + enc_rows(
                    rows,
                    0,
                    wc as int,
                    long,
                ),
            decreases item_count - i,
        {
            let row = &self.delta_values[i];
            proof {
                assert(rows[i as int] == row@);
                assert(rows[i as int].len() == regions.len());
            }
            let ghost row_base = out@;
            let mut j: usize = 0;
            while j < ncols
                invariant
                    j <= ncols,
                    i < item_count,
                    item_count == self.delta_values.len(),
                    ncols == regions.len(),
                    rows == rows_view(self.delta_values@),
                    regions == self.region_indexes@,
                    ivd_wf(regions, rows),
                    row@ == rows[i as int],
                    wc <= ncols,
                    long == ivd_long_words(rows),
                    wc as int == ivd_word_count(rows, ncols as int, long),
                    out@ + enc_row_cols(rows[i as int], j as int, wc as int, long) == row_base
                        + enc_row_cols(rows[i as int], 0, wc as int, long),
                decreases ncols - j,
            {
                let v = row[j];
                let ghost before = out@;
                if j < wc {
                    if long {
                        crate::wire::push_i32(&mut out, v);
                        proof {
                            assert(out@ =~= before + wide_field(rows[i as int][j as int], long));
                        }
                    } else {
                        proof {
                            lemma_not_long_all_fit(rows, i as int, j as int);
                        }
                        crate::wire::push_i16(&mut out, v as i16);
                        proof {
                            assert(u16_repr_of_i16(v as i16) == u16_repr_of_int(v as int));
                            assert(out@ =~= before + wide_field(rows[i as int][j as int], long));
                        }
                    }
                } else {
                    proof {
                        lemma_word_count_minimal(rows, ncols as int, long);
                        assert(!col_needs_wide(rows, j as int, long));
                        if !fits_narrow(rows[i as int][j as int], long) {
                            assert(col_needs_wide(rows, j as int, long));
                        }
                        assert(fits_narrow(rows[i as int][j as int], long));
                    }
                    if long {
                        crate::wire::push_i16(&mut out, v as i16);
                        proof {
                            assert(u16_repr_of_i16(v as i16) == u16_repr_of_int(v as int));
                            assert(out@ =~= before + narrow_field(rows[i as int][j as int], long));
                        }
                    } else {
                        let byte: u8 = if v < 0 {
                            (v + 256) as u8
                        } else {
                            v as u8
                        };
                        out.push(byte);
                        proof {
                            assert(byte as int == u8_repr_of_int(v as int));
                            assert(out@ =~= before + narrow_field(rows[i as int][j as int], long));
                        }
                    }
                }
                proof {
                    assert(out@ + enc_row_cols(rows[i as int], j + 1, wc as int, long) =~= before
                        + enc_row_cols(rows[i as int], j as int, wc as int, long));
                }
                j += 1;
            }
            proof {
                assert(enc_row_cols(rows[i as int], ncols as int, wc as int, long) =~= Seq::<
                    u8,
                >::empty());
                assert(out@ =~= row_base + enc_row_cols(rows[i as int], 0, wc as int, long));
                assert(out@ + enc_rows(rows, i + 1, wc as int, long) =~= row_base + enc_rows(
                    rows,
                    i as int,
                    wc as int,
                    long,
                ));
            }
            i += 1;
        }
        proof {
            assert(enc_rows(rows, item_count as int, wc as int, long) =~= Seq::<u8>::empty());
            assert(out@ =~= upto_rows + enc_rows(rows, 0, wc as int, long));
            assert(out@ =~= spec_encode_ivd(regions, rows));
        }
        out
    }
}

impl ItemVariationData {
    /// Decodes a data block from `data` starting at `pos`. Returns the
    /// block and the position one past its last row.
    pub fn decode(data: &Vec<u8>, pos: usize) -> (r: Result<(ItemVariationData, usize), CodecError>)
        ensures
            match r {
                Ok(p) => {
                    &&& spec_decode_ivd(data@, pos as int) == Ok::<
                        (Seq<u16>, Seq<Seq<i32>>, int),
                        CodecError,
                    >((p.0.region_indexes@, rows_view(p.0.delta_values@), p.1 as int))
                    &&& pos <= p.1 <= data.len()
                },
                Err(e) => spec_decode_ivd(data@, pos as int) == Err::<
                    (Seq<u16>, Seq<Seq<i32>>, int),
                    CodecError,
                >(e),
            },
    {
        if data.len() < 6 || pos > data.len() - 6 {
            return Err(CodecError::TruncatedInput);
        }
        let item_count = crate::wire::read_u16(data, pos) as usize;
        let word_info = crate::wire::read_u16(data, pos + 2);
        let long = word_info >= 32768;
        let wc = (if long {
            word_info - 32768
        } else {
            word_info
        }) as usize;
        proof {
            assert(wc as int == be16(data@[pos + 2], data@[pos + 3]) % 32768);
        }
        let ncols = crate::wire::read_u16(data, pos + 4) as usize;
        if wc > ncols {
            return Err(CodecError::SizeMismatch);
        }
        if (data.len() - (pos + 6)) / 2 < ncols {
            return Err(CodecError::TruncatedInput);
        }
        let mut regions: Vec<u16> = Vec::new();
        let ghost spec_regions = Seq::new(
            ncols as nat,
            |k: int| be16(data@[pos + 6 + 2 * k], data@[pos + 7 + 2 * k]) as u16,
        );
        let mut k: usize = 0;
        while k < ncols
            invariant
                k <= ncols,
                pos + 6 + 2 * ncols <= data.len(),
                spec_regions == Seq::new(
                    ncols as nat,
                    |t: int| be16(data@[pos + 6 + 2 * t], data@[pos + 7 + 2 * t]) as u16,
                ),
                regions@ == spec_regions.take(k as int),
            decreases ncols - k,
        {
            let v = crate::wire::read_u16(data, pos + 6 + 2 * k);
            regions.push(v);
            proof {
                assert(spec_regions.take(k + 1) =~= spec_regions.take(k as int).push(v));
            }
            k += 1;
        }
        proof {
            assert(regions@ =~= spec_regions);
        }
        let rows_pos = pos + 6 + 2 * ncols;
        let rl: usize = if long {
            4 * wc + 2 * (ncols - wc)
        } else {
            2 * wc + (ncols - wc)
        };
        proof {
            assert(rl as int == ivd_row_len(ncols as int, wc as int, long));
        }
        proof {
            assert(rl <= 262140);
            assert((item_count as u64) * (rl as u64) <= 65535u64 * 262140u64) by (nonlinear_arith)
                requires
                    item_count <= 65535,
                    rl <= 262140,
            ;
        }
        if (item_count as u64) * (rl as u64) > (data.len() - rows_pos) as u64 {
            return Err(CodecError::TruncatedInput);
        }
        let total: usize = item_count * rl;
        let ghost spec_rows = Seq::new(
            item_count as nat,
            |i: int| dec_row(data@, rows_pos + i * rl, ncols as int, wc as int, long),
        );
        let mut rows: Vec<Vec<i32>> = Vec::new();
        let mut i: usize = 0;
        let mut rp: usize = rows_pos;
        while i < item_count
            invariant
                i <= item_count,
                rp == rows_pos + i * rl,
                rl as int == ivd_row_len(ncols as int, wc as int, long),
                wc <= ncols,
                rows_pos + item_count * rl <= data.len(),
                rows_pos + total <= data.len(),
                spec_rows == Seq::new(
                    item_count as nat,
                    |t: int| dec_row(data@, rows_pos + t * rl, ncols as int, wc as int, long),
                ),
                rows@.len() == i,
                forall|t: int| 0 <= t < i ==> (#[trigger] rows@[t])@ == spec_rows[t],
            decreases item_count - i,
        {
            proof {
                assert(i * rl + rl <= item_count * rl) by (nonlinear_arith)
                    requires
                        i < item_count,
                        rl >= 0,
                        i >= 0,
                ;
                assert((i + 1) * rl == i * rl + rl) by (nonlinear_arith);
            }
            let mut row: Vec<i32> = Vec::new();
            let mut j: usize = 0;
            while j < ncols
                invariant
                    j <= ncols,
                    wc <= ncols,
                    rl as int == ivd_row_len(ncols as int, wc as int, long),
                    rp + rl <= data.len(),
                    row@.len() == j,
                    forall|t: int|
                        0 <= t < j ==> #[trigger] row@[t] == dec_col(
                            data@,
                            rp + ivd_col_off(t, wc as int, long),
                            t < wc,
                            long,
                        ),
                decreases ncols - j,
            {
                let v: i32;
                if j < wc {
                    if long {
                        v = crate::wire::read_i32(data, rp + 4 * j);
                    } else {
                        v = crate::wire::read_i16(data, rp + 2 * j) as i32;
                    }
                } else {
                    if long {
                        v = crate::wire::read_i16(data, rp + 4 * wc + 2 * (j - wc)) as i32;
                    } else {
                        let b = data[rp + 2 * wc + (j - wc)];
                        v = if b >= 128 {
                            b as i32 - 256
                        } else {
                            b as i32
                        };
                    }
                }
                proof {
                    assert(v == dec_col(
                        data@,
                        rp + ivd_col_off(j as int, wc as int, long),
                        (j as int) < wc,
                        long,
                    ));
                }
                row.push(v);
                j += 1;
            }
            proof {
                assert(row@ =~= dec_row(data@, rp as int, ncols as int, wc as int, long));
            }
            rows.push(row);
            i += 1;
            rp = rp + rl;
        }
        proof {
            assert(rows_view(rows@) =~= spec_rows);
        }
        Ok((ItemVariationData { region_indexes: regions, delta_values: rows }, rows_pos + total))
    }
}

/// The coordinates of one axis of a variation region, raw F2Dot14 bits
/// (16384 is 1.0). The spec expects start <= peak <= end, but a malformed
/// record is preserved on decode, not rejected, to match permissive binary
/// readers.
#[derive(Clone, Copy, Debug, PartialEq, Eq, Structural)]
pub struct RegionAxisCoordinates {
    pub start_coord: i16,
    pub peak_coord: i16,
    pub end_coord: i16,
}

/// The variation store: the shared region list plus the data blocks that
/// reference it by index. `axis_count` is redundant (it equals each
/// region's length) but is stored in the binary form.
#[derive(Clone, Debug, PartialEq)]
pub struct ItemVariationStore {
    pub format: u16,
    pub axis_count: u16,
    pub variation_regions: Vec<Vec<RegionAxisCoordinates>>,
    pub variation_data: Vec<ItemVariationData>,
}

/// View of the region list as sequences.
pub open spec fn regions_view(v: Seq<Vec<RegionAxisCoordinates>>) -> Seq<
    Seq<RegionAxisCoordinates>,
> {
    Seq::new(v.len(), |i: int| v[i]@)
}

/// The bytes of one region's axis records from axis `j` on.
pub open spec fn enc_region_axes(r: Seq<RegionAxisCoordinates>, j: int) -> Seq<u8>
    decreases r.len() - j,
{
    if j < 0 || j >= r.len() {
        seq![]
    } else {
        i16_be_bytes(r[j].start_coord) + i16_be_bytes(r[j].peak_coord) + i16_be_bytes(
            r[j].end_coord,
        ) + enc_region_axes(r, j + 1)
    }
}

/// The bytes of the regions from region `i` on.
pub open spec fn enc_regions(rs: Seq<Seq<RegionAxisCoordinates>>, i: int) -> Seq<u8>
    decreases rs.len() - i,
{
    if i < 0 || i >= rs.len() {
        seq![]
    } else {
        enc_region_axes(rs[i], 0) + enc_regions(rs, i + 1)
    }
}

/// The encoding of the shared region list.
pub open spec fn spec_encode_region_list(
    axis_count: u16,
    rs: Seq<Seq<RegionAxisCoordinates>>,
) -> Seq<u8> {
    be16_bytes(axis_count as int) + be16_bytes(rs.len() as int) + enc_regions(rs, 0)
}

/// The encoding of one data block, from the struct.
pub open spec fn spec_encode_ivd_struct(d: ItemVariationData) -> Seq<u8> {
    spec_encode_ivd(d.region_indexes@, rows_view(d.delta_values@))
}

/// The concatenated data blocks from block `i` on.
pub open spec fn enc_ivds(ds: Seq<ItemVariationData>, i: int) -> Seq<u8>
    decreases ds.len() - i,
{
    if i < 0 || i >= ds.len() {
        seq![]
    } else {
        spec_encode_ivd_struct(ds[i]) + enc_ivds(ds, i + 1)
    }
}

/// The offset table from entry `i` on: each block's byte offset from the
/// start of the store, computed from the lengths of the blocks before it.
pub open spec fn enc_offsets(ds: Seq<ItemVariationData>, i: int, base: int) -> Seq<u8>
    decreases ds.len() - i,
{
    if i < 0 || i >= ds.len() {
        seq![]
    } else {
        be32_bytes(base) + enc_offsets(ds, i + 1, base + spec_encode_ivd_struct(ds[i]).len())
    }
}

/// The encoding of the whole store: header, offset table, the region list,
/// then the data blocks, with every offset measured from the store's start.
pub open spec fn spec_encode_ivs(s: ItemVariationStore) -> Seq<u8> {
    let dcount = s.variation_data@.len() as int;
    let rl = spec_encode_region_list(s.axis_count, regions_view(s.variation_regions@));
    be16_bytes(s.format as int) + be32_bytes(8 + 4 * dcount) + be16_bytes(dcount) + enc_offsets(
        s.variation_data@,
        0,
        8 + 4 * dcount + rl.len(),
    ) + rl + enc_ivds(s.variation_data@, 0)
}

/// Well-formed store: counts fit their fields, every region spans every
/// axis, every data block is well formed, and the whole encoding fits the
/// 32-bit offsets.
pub open spec fn ivs_wf(s: ItemVariationStore) -> bool {
    &&& s.variation_data@.len() <= 65535
    &&& s.variation_regions@.len() <= 65535
    &&& forall|i: int|
        0 <= i < s.variation_regions@.len() ==> (#[trigger] s.variation_regions@[i])@.len()
            == s.axis_count
    &&& forall|i: int|
        0 <= i < s.variation_data@.len() ==> ivd_wf(
            (#[trigger] s.variation_data@[i]).region_indexes@,
            rows_view(s.variation_data@[i].delta_values@),
        )
    &&& spec_encode_ivs(s).len() <= 0xFFFFFFFF
}

/// One axis-coordinate record decoded at `q`.
pub open spec fn rac_at(b: Seq<u8>, q: int) -> RegionAxisCoordinates {
    RegionAxisCoordinates {
        start_coord: i16_of_u16_repr(be16(b[q], b[q + 1])) as i16,
        peak_coord: i16_of_u16_repr(be16(b[q + 2], b[q + 3])) as i16,
        end_coord: i16_of_u16_repr(be16(b[q + 4], b[q + 5])) as i16,
    }
}

/// Decoding of the shared region list at `pos`.
pub open spec fn spec_decode_region_list(b: Seq<u8>, pos: int) -> Result<
    (u16, Seq<Seq<RegionAxisCoordinates>>),
    CodecError,
> {
    if pos < 0 || pos + 4 > b.len() {
        Err(CodecError::TruncatedInput)
    } else {
        let ac = be16(b[pos], b[pos + 1]);
        let rc = be16(b[pos + 2], b[pos + 3]);
        if pos + 4 + rc * (ac * 6) > b.len() {
            Err(CodecError::TruncatedInput)
        } else {
            Ok(
                (
                    ac as u16,
                    Seq::new(
                        rc as nat,
                        |i: int|
                            Seq::new(
                                ac as nat,
                                |j: int| rac_at(b, pos + 4 + (i * ac + j) * 6),
                            ),
                    ),
                ),
            )
        }
    }
}

/// Decoding of `n` data blocks whose offset-table entries start at `offp`,
/// each offset measured from `store`.
pub open spec fn dec_ivd_blocks(b: Seq<u8>, store: int, offp: int, n: int) -> Result<
    Seq<(Seq<u16>, Seq<Seq<i32>>)>,
    CodecError,
>
    decreases n,
{
    if n <= 0 {
        Ok(seq![])
    } else if offp < 0 || offp + 4 > b.len() {
        Err(CodecError::TruncatedInput)
    } else {
        let off = be32(b[offp], b[offp + 1], b[offp + 2], b[offp + 3]);
        match spec_decode_ivd(b, store + off) {
            Err(e) => Err(e),
            Ok((ri, rows, _end)) => match dec_ivd_blocks(b, store, offp + 4, n - 1) {
                Ok(rest) => Ok(seq![(ri, rows)] + rest),
                Err(e) => Err(e),
            },
        }
    }
}

/// The models of a sequence of data blocks.
pub open spec fn ivd_models(ds: Seq<ItemVariationData>) -> Seq<(Seq<u16>, Seq<Seq<i32>>)> {
    Seq::new(ds.len(), |t: int| (ds[t].region_indexes@, rows_view(ds[t].delta_values@)))
}

/// The mathematical content of a decoded store.
pub struct IvsModel {
    pub format: u16,
    pub axis_count: u16,
    pub regions: Seq<Seq<RegionAxisCoordinates>>,
    pub data: Seq<(Seq<u16>, Seq<Seq<i32>>)>,
}

/// The model of a store value.
pub open spec fn ivs_model(s: ItemVariationStore) -> IvsModel {
    IvsModel {
        format: s.format,
        axis_count: s.axis_count,
        regions: regions_view(s.variation_regions@),
        data: ivd_models(s.variation_data@),
    }
}

/// Appends every byte of `src`.
pub(crate) fn append_bytes(out: &mut Vec<u8>, src: &Vec<u8>)
    ensures
        final(out)@ == old(out)@ + src@,
{
    let mut t: usize = 0;
    while t < src.len()
        invariant
            t <= src.len(),
            out@ == old(out)@ + src@.take(t as int),
        decreases src.len() - t,
    {
        out.push(src[t]);
        proof {
            assert(src@.take(t + 1) =~= src@.take(t as int).push(src@[t as int]));
            assert(out@ =~= old(out)@ + src@.take(t + 1));
        }
        t += 1;
    }
    proof {
        assert(src@.take(src@.len() as int) =~= src@);
    }
}

impl ItemVariationStore {
    /// Encodes the store with the classic two-pass layout: every data block
    /// is serialized first to learn its size, the offsets are computed from
    /// the lengths alone, then the parts are concatenated.
    pub fn encode(&self) -> (r: Vec<u8>)
        requires
            ivs_wf(*self),
        ensures
            r@ == spec_encode_ivs(*self),
    {
        let ghost ds = self.variation_data@;
        let ghost rs = regions_view(self.variation_regions@);
        let dcount = self.variation_data.len();
        // First pass: serialize each data block.
        let mut blocks: Vec<Vec<u8>> = Vec::new();
        let mut i: usize = 0;
        while i < dcount
            invariant
                i <= dcount,
                dcount == self.variation_data@.len(),
                ds == self.variation_data@,
                ivs_wf(*self),
                blocks@.len() == i,
                forall|t: int| 0 <= t < i ==> (#[trigger] blocks@[t])@ == spec_encode_ivd_struct(ds[t]),
            decreases dcount - i,
        {
            let b = self.variation_data[i].encode();
            blocks.push(b);
            i += 1;
        }
        // The region list.
        let mut rlist: Vec<u8> = Vec::new();
        crate::wire::push_u16(&mut rlist, self.axis_count);
        crate::wire::push_u16(&mut rlist, self.variation_regions.len() as u16);
        proof {
            assert(rlist@ =~= be16_bytes(self.axis_count as int) + be16_bytes(rs.len() as int));
        }
        let mut i: usize = 0;
        while i < self.variation_regions.len()
            invariant
                i <= self.variation_regions@.len(),
                rs == regions_view(self.variation_regions@),
                rlist@ + enc_regions(rs, i as int) == spec_encode_region_list(self.axis_count, rs),
            decreases self.variation_regions@.len() - i,
        {
            let region = &self.variation_regions[i];
            proof {
                assert(rs[i as int] == region@);
            }
            let ghost region_base = rlist@;
            let mut j: usize = 0;
            while j < region.len()
                invariant
                    j <= region@.len(),
                    i < self.variation_regions@.len(),
                    rs == regions_view(self.variation_regions@),
                    region@ == rs[i as int],
                    rlist@ + enc_region_axes(rs[i as int], j as int) == region_base
                        + enc_region_axes(rs[i as int], 0),
                decreases region@.len() - j,
            {
                let c = region[j];
                let ghost before = rlist@;
                crate::wire::push_i16(&mut rlist, c.start_coord);
                crate::wire::push_i16(&mut rlist, c.peak_coord);
                crate::wire::push_i16(&mut rlist, c.end_coord);
                proof {
                    assert(rlist@ + enc_region_axes(rs[i as int], j + 1) =~= before
                        + enc_region_axes(rs[i as int], j as int));
                }
                j += 1;
            }
            proof {
                assert(enc_region_axes(rs[i as int], region@.len() as int) =~= Seq::<u8>::empty());
                assert(rlist@ =~= region_base + enc_region_axes(rs[i as int], 0));
                assert(rlist@ + enc_regions(rs, i + 1) =~= region_base + enc_regions(rs, i as int));
            }
            i += 1;
        }
        proof {
            assert(enc_regions(rs, self.variation_regions@.len() as int) =~= Seq::<u8>::empty());
            assert(rlist@ =~= spec_encode_region_list(self.axis_count, rs));
        }
        // Second pass: header, offsets backfilled from the lengths, parts.
        let ghost total = spec_encode_ivs(*self);
        let mut out: Vec<u8> = Vec::new();
        crate::wire::push_u16(&mut out, self.format);
        crate::wire::push_u32(&mut out, 8 + 4 * (dcount as u32));
        crate::wire::push_u16(&mut out, dcount as u16);
        let ghost hdr = be16_bytes(self.format as int) + be32_bytes(8 + 4 * ds.len() as int)
            + be16_bytes(ds.len() as int);
        proof {
            assert(out@ =~= hdr);
            assert(total == hdr + enc_offsets(ds, 0, 8 + 4 * ds.len() + rlist@.len() as int) + rlist@
                + enc_ivds(ds, 0));
        }
        let hdr_len: u32 = 8 + 4 * (dcount as u32);
        proof {
            assert(total.len() <= 0xFFFFFFFF);
            lemma_enc_offsets_len(ds, 0, hdr_len + rlist@.len() as int);
            assert(hdr.len() + enc_offsets(ds, 0, hdr_len + rlist@.len() as int).len()
                + rlist@.len() + enc_ivds(ds, 0).len() == total.len());
            assert(hdr_len + rlist@.len() + enc_ivds(ds, 0).len() <= total.len());
        }
        let mut base: u32 = hdr_len + (rlist.len() as u32);
        let mut i: usize = 0;
        while i < dcount
            invariant
                i <= dcount,
                dcount == ds.len(),
                ds == self.variation_data@,
                blocks@.len() == dcount,
                forall|t: int| 0 <= t < dcount ==> (#[trigger] blocks@[t])@ == spec_encode_ivd_struct(ds[t]),
                base + enc_ivds(ds, i as int).len() <= 0xFFFFFFFF,
                out@ + enc_offsets(ds, i as int, base as int) == hdr + enc_offsets(
                    ds,
                    0,
                    hdr_len + rlist@.len() as int,
                ),
            decreases dcount - i,
        {
            let ghost before = out@;
            crate::wire::push_u32(&mut out, base);
            proof {
                assert(out@ + enc_offsets(ds, i + 1, base + spec_encode_ivd_struct(ds[i as int]).len())
                    =~= before + enc_offsets(ds, i as int, base as int));
            }
            base = base + (blocks[i].len() as u32);
            i += 1;
        }
        proof {
            assert(enc_offsets(ds, ds.len() as int, base as int) =~= Seq::<u8>::empty());
            assert(out@ =~= hdr + enc_offsets(ds, 0, hdr_len + rlist@.len() as int));
        }
        append_bytes(&mut out, &rlist);
        let ghost upto_blocks = out@;
        let mut i: usize = 0;
        while i < dcount
            invariant
                i <= dcount,
                dcount == ds.len(),
                blocks@.len() == dcount,
                forall|t: int| 0 <= t < dcount ==> (#[trigger] blocks@[t])@ == spec_encode_ivd_struct(ds[t]),
                out@ + enc_ivds(ds, i as int) == upto_blocks + enc_ivds(ds, 0),
            decreases dcount - i,
        {
            let ghost before = out@;
            append_bytes(&mut out, &blocks[i]);
            proof {
                assert(out@ + enc_ivds(ds, i + 1) =~= before + enc_ivds(ds, i as int));
            }
            i += 1;
        }
        proof {
            assert(enc_ivds(ds, ds.len() as int) =~= Seq::<u8>::empty());
            assert(out@ =~= upto_blocks + enc_ivds(ds, 0));
            assert(out@ =~= spec_encode_ivs(*self));
        }
        out
    }
}

impl ItemVariationStore {
    /// Decodes a whole store from `data` starting at `pos`: the shared
    /// region list is decoded once and each data block is resolved at the
    /// offset the header gives for it.
    #[verifier::rlimit(100)]
    #[verifier::spinoff_prover]
    pub fn decode(data: &Vec<u8>, pos: usize) -> (r: Result<ItemVariationStore, CodecError>)
        ensures
            match r {
                Ok(s) => spec_decode_ivs(data@, pos as int) == Ok::<IvsModel, CodecError>(
                    ivs_model(s),
                ),
                Err(e) => spec_decode_ivs(data@, pos as int) == Err::<IvsModel, CodecError>(e),
            },
    {
        if data.len() < 8 || pos > data.len() - 8 {
            return Err(CodecError::TruncatedInput);
        }
        let format = crate::wire::read_u16(data, pos);
        let rloff = crate::wire::read_u32(data, pos + 2);
        let dcount = crate::wire::read_u16(data, pos + 6) as usize;
        if (data.len() - (pos + 8)) / 4 < dcount {
            return Err(CodecError::TruncatedInput);
        }
        // The region list.
        if (rloff as u64) + 4 > (data.len() - pos) as u64 {
            return Err(CodecError::TruncatedInput);
        }
        let rlpos: usize = pos + (rloff as usize);
        let axis_count = crate::wire::read_u16(data, rlpos);
        let rcount = crate::wire::read_u16(data, rlpos + 2) as usize;
        let ac = axis_count as usize;
        proof {
            assert((rcount as u64) * ((ac * 6) as u64) <= 65535u64 * 393210u64)
                by (nonlinear_arith)
                requires
                    rcount <= 65535,
                    ac <= 65535,
            ;
        }
        if (rcount as u64) * ((ac * 6) as u64) > (data.len() - (rlpos + 4)) as u64 {
            return Err(CodecError::TruncatedInput);
        }
        let ghost spec_rs = Seq::new(
            rcount as nat,
            |i: int|
                Seq::new(ac as nat, |j: int| rac_at(data@, rlpos + 4 + (i * ac + j) * 6)),
        );
        let mut regions: Vec<Vec<RegionAxisCoordinates>> = Vec::new();
        let mut i: usize = 0;
        let mut q: usize = rlpos + 4;
        while i < rcount
            invariant
                i <= rcount,
                q == rlpos + 4 + i * (ac * 6),
                rlpos + 4 + rcount * (ac * 6) <= data.len(),
                spec_rs == Seq::new(
                    rcount as nat,
                    |t: int|
                        Seq::new(
                            ac as nat,
                            |j: int| rac_at(data@, rlpos + 4 + (t * ac + j) * 6),
                        ),
                ),
                regions@.len() == i,
                forall|t: int| 0 <= t < i ==> (#[trigger] regions@[t])@ == spec_rs[t],
            decreases rcount - i,
        {
            proof {
                assert(i * (ac * 6) + (ac * 6) <= rcount * (ac * 6)) by (nonlinear_arith)
                    requires
                        i < rcount,
                        ac >= 0,
                ;
                assert((i + 1) * (ac * 6) == i * (ac * 6) + (ac * 6)) by (nonlinear_arith);
                assert(i * (ac * 6) == (i * ac) * 6) by (nonlinear_arith);
            }
            let mut row: Vec<RegionAxisCoordinates> = Vec::new();
            let mut j: usize = 0;
            while j < ac
                invariant
                    j <= ac,
                    i < rcount,
                    q == rlpos + 4 + i * (ac * 6),
                    q + ac * 6 <= data.len(),
                    i * (ac * 6) == (i * ac) * 6,
                    row@.len() == j,
                    forall|t: int|
                        0 <= t < j ==> #[trigger] row@[t] == rac_at(
                            data@,
                            rlpos + 4 + (i * ac + t) * 6,
                        ),
                decreases ac - j,
            {
                let base = q + 6 * j;
                let start_coord = crate::wire::read_i16(data, base);
                let peak_coord = crate::wire::read_i16(data, base + 2);
                let end_coord = crate::wire::read_i16(data, base + 4);
                let c = RegionAxisCoordinates { start_coord, peak_coord, end_coord };
                proof {
                    assert(base as int == rlpos + 4 + (i * ac + j) * 6);
                    assert(c == rac_at(data@, rlpos + 4 + (i * ac + j) * 6));
                }
                row.push(c);
                j += 1;
            }
            proof {
                assert(row@ =~= spec_rs[i as int]);
            }
            regions.push(row);
            i += 1;
            q = q + 6 * ac;
        }
        proof {
            assert(regions_view(regions@) =~= spec_rs);
        }
        // The data blocks, each at its own offset from the store start.
        let mut ivds: Vec<ItemVariationData> = Vec::new();
        let mut i: usize = 0;
        proof {
            assert(spec_decode_region_list(data@, pos + rloff) == Ok::<
                (u16, Seq<Seq<RegionAxisCoordinates>>),
                CodecError,
            >((axis_count, regions_view(regions@))));
        }
        while i < dcount
            invariant
                i <= dcount,
                pos + 8 + 4 * dcount <= data.len(),
                ivds@.len() == i,
                spec_decode_ivs(data@, pos as int) == (match dec_ivd_blocks(
                    data@,
                    pos as int,
                    pos + 8,
                    dcount as int,
                ) {
                    Ok(blocks) => Ok::<IvsModel, CodecError>(
                        IvsModel {
                            format: format,
                            axis_count: axis_count,
                            regions: regions_view(regions@),
                            data: blocks,
                        },
                    ),
                    Err(e) => Err::<IvsModel, CodecError>(e),
                }),
                dec_ivd_blocks(data@, pos as int, pos + 8, dcount as int) == (
                match dec_ivd_blocks(data@, pos as int, pos + 8 + 4 * i, dcount - i) {
                    Ok(rest) => Ok::<Seq<(Seq<u16>, Seq<Seq<i32>>)>, CodecError>(
                        ivd_models(ivds@) + rest,
                    ),
                    Err(e) => Err::<Seq<(Seq<u16>, Seq<Seq<i32>>)>, CodecError>(e),
                }),
            decreases dcount - i,
        {
            let off = crate::wire::read_u32(data, pos + 8 + 4 * i);
            if (off as u64) + 6 > (data.len() - pos) as u64 {
                proof {
                    assert(spec_decode_ivd(data@, pos + off) == Err::<
                        (Seq<u16>, Seq<Seq<i32>>, int),
                        CodecError,
                    >(CodecError::TruncatedInput));
                }
                return Err(CodecError::TruncatedInput);
            }
            let blockpos: usize = pos + (off as usize);
            let ghost ivds_before = ivds@;
            match ItemVariationData::decode(data, blockpos) {
                Ok((d, _end)) => {
                    ivds.push(d);
                },
                Err(e) => {
                    return Err(e);
                },
            }
            proof {
                let inner = dec_ivd_blocks(data@, pos as int, pos + 8 + 4 * (i + 1), dcount - i - 1);
                match inner {
                    Ok(rest) => {
                        assert(ivd_models(ivds_before) + (seq![
                            (
                                ivds@[i as int].region_indexes@,
                                rows_view(ivds@[i as int].delta_values@),
                            ),
                        ] + rest) =~= ivd_models(ivds@) + rest);
                    },
                    Err(_) => {},
                }
            }
            i += 1;
        }
        let s = ItemVariationStore {
            format,
            axis_count,
            variation_regions: regions,
            variation_data: ivds,
        };
        proof {
            assert(ivd_models(ivds@) + Seq::<(Seq<u16>, Seq<Seq<i32>>)>::empty() =~= ivs_model(
                s,
            ).data);
        }
        Ok(s)
    }
}

/// The offset table holds four bytes per remaining block, whatever base
/// offset it starts from.
proof fn lemma_enc_offsets_len(ds: Seq<ItemVariationData>, i: int, base: int)
    requires
        0 <= i <= ds.len(),
    ensures
        enc_offsets(ds, i, base).len() == 4 * (ds.len() - i),
    decreases ds.len() - i,
{
    if i < ds.len() {
        lemma_enc_offsets_len(ds, i + 1, base + spec_encode_ivd_struct(ds[i]).len() as int);
    }
}

/// Decoding of a whole store at `pos`: the header, then the region list and
/// each data block at the offsets the header gives, resolved once and
/// shared, never inlined.
pub open spec fn spec_decode_ivs(b: Seq<u8>, pos: int) -> Result<IvsModel, CodecError> {
    if pos < 0 || pos + 8 > b.len() {
        Err(CodecError::TruncatedInput)
    } else {
        let format = be16(b[pos], b[pos + 1]);
        let rloff = be32(b[pos + 2], b[pos + 3], b[pos + 4], b[pos + 5]);
        let dcount = be16(b[pos + 6], b[pos + 7]);
        if pos + 8 + 4 * dcount > b.len() {
            Err(CodecError::TruncatedInput)
        } else {
            match spec_decode_region_list(b, pos + rloff) {
                Err(e) => Err(e),
                Ok((ac, rs)) => match dec_ivd_blocks(b, pos, pos + 8, dcount) {
                    Ok(blocks) => Ok(
                        IvsModel {
                            format: format as u16,
                            axis_count: ac,
                            regions: rs,
                            data: blocks,
                        },
                    ),
                    Err(e) => Err(e),
                },
            }
        }
    }
}

} // verus!
