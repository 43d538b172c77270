use fonticulus::itemvariationstore::{
    ItemVariationData, ItemVariationStore, RegionAxisCoordinates,
};
use fonticulus::packeddeltas::PackedDeltas;
use fonticulus::packedpoints::PackedPoints;
use fonticulus::tuplevariationheader::{
    TupleVariationHeader, EMBEDDED_PEAK_TUPLE, INTERMEDIATE_REGION, PRIVATE_POINT_NUMBERS,
};
use fonticulus::tuplevariationstore::{TupleVariation, TupleVariationStore};
use fonticulus::CodecError;
use fonticulus::Delta;

fn peak_header(peak: Vec<i16>) -> TupleVariationHeader {
    TupleVariationHeader {
        variation_data_size: 0,
        flags: EMBEDDED_PEAK_TUPLE,
        peak_tuple: Some(peak),
        intermediate_start: None,
        intermediate_end: None,
    }
}

#[test]
fn tuple_store_round_trip_shared_and_private() {
    // Two tuples use the shared point set; a third carries private points.
    let store = TupleVariationStore {
        axis_count: 1,
        point_count: 4,
        vector_deltas: true,
        shared_points: Some(vec![1, 3]),
        variations: vec![
            TupleVariation {
                header: peak_header(vec![16384]),
                points: vec![1, 3],
                deltas: vec![Delta::Delta2D(10, -4), Delta::Delta2D(300, 0)],
            },
            TupleVariation {
                header: peak_header(vec![-16384]),
                points: vec![1, 3],
                deltas: vec![Delta::Delta2D(0, 0), Delta::Delta2D(-1, 2)],
            },
            TupleVariation {
                header: peak_header(vec![8192]),
                points: vec![2],
                deltas: vec![Delta::Delta2D(7, 7)],
            },
        ],
    };
    let enc = store.encode();
    let dec = TupleVariationStore::decode(&enc, 0, 1, 4, true).unwrap();
    assert_eq!(dec.shared_points, Some(vec![1, 3]));
    assert_eq!(dec.variations.len(), 3);
    for (d, o) in dec.variations.iter().zip(store.variations.iter()) {
        assert_eq!(d.points, o.points);
        assert_eq!(d.deltas, o.deltas);
        assert_eq!(d.header.peak_tuple, o.header.peak_tuple);
    }
    // The encoder back-patched the private-points flag per tuple.
    assert_eq!(dec.variations[0].header.flags & PRIVATE_POINT_NUMBERS, 0);
    assert_eq!(
        dec.variations[2].header.flags & PRIVATE_POINT_NUMBERS,
        PRIVATE_POINT_NUMBERS
    );
    // Re-encoding the decoded store reproduces the bytes.
    assert_eq!(dec.encode(), enc);
}

#[test]
fn tuple_store_all_points_scalar() {
    // One scalar tuple applying to all points: no point bytes at all.
    let store = TupleVariationStore {
        axis_count: 2,
        point_count: 3,
        vector_deltas: false,
        shared_points: None,
        variations: vec![TupleVariation {
            header: peak_header(vec![16384, 0]),
            points: vec![],
            deltas: vec![
                Delta::Delta1D(5),
                Delta::Delta1D(0),
                Delta::Delta1D(-1),
            ],
        }],
    };
    let enc = store.encode();
    let dec = TupleVariationStore::decode(&enc, 0, 2, 3, false).unwrap();
    assert!(dec.shared_points.is_none());
    assert_eq!(dec.variations[0].points, Vec::<u16>::new());
    assert_eq!(dec.variations[0].deltas, store.variations[0].deltas);
    assert_eq!(dec.encode(), enc);
}

#[test]
fn tuple_store_empty() {
    // Zero tuples is legal: an empty table entry.
    let store = TupleVariationStore {
        axis_count: 1,
        point_count: 0,
        vector_deltas: true,
        shared_points: None,
        variations: vec![],
    };
    let enc = store.encode();
    assert_eq!(enc, vec![0x00, 0x00, 0x00, 0x04]);
    let dec = TupleVariationStore::decode(&enc, 0, 1, 0, true).unwrap();
    assert!(dec.variations.is_empty());
}

#[test]
fn tuple_store_size_mismatch() {
    let store = TupleVariationStore {
        axis_count: 1,
        point_count: 2,
        vector_deltas: false,
        shared_points: None,
        variations: vec![TupleVariation {
            header: peak_header(vec![16384]),
            points: vec![],
            deltas: vec![Delta::Delta1D(1), Delta::Delta1D(2)],
        }],
    };
    let mut enc = store.encode();
    // Corrupt the first header's declared data size (bytes 4..6).
    enc[5] = enc[5].wrapping_add(1);
    let r = TupleVariationStore::decode(&enc, 0, 1, 2, false);
    assert_eq!(r, Err(CodecError::SizeMismatch));
}

#[test]
fn choose_shared_points_picks_most_common() {
    let store = TupleVariationStore {
        axis_count: 1,
        point_count: 8,
        vector_deltas: true,
        shared_points: None,
        variations: vec![
            TupleVariation {
                header: peak_header(vec![16384]),
                points: vec![5],
                deltas: vec![Delta::Delta2D(1, 1)],
            },
            TupleVariation {
                header: peak_header(vec![8192]),
                points: vec![2, 4],
                deltas: vec![Delta::Delta2D(2, 2), Delta::Delta2D(3, 3)],
            },
            TupleVariation {
                header: peak_header(vec![-8192]),
                points: vec![2, 4],
                deltas: vec![Delta::Delta2D(4, 4), Delta::Delta2D(5, 5)],
            },
        ],
    };
    assert_eq!(store.choose_shared_points(), Some(vec![2, 4]));
}

#[test]
fn choose_shared_points_none_when_not_reused() {
    let store = TupleVariationStore {
        axis_count: 1,
        point_count: 8,
        vector_deltas: true,
        shared_points: None,
        variations: vec![
            TupleVariation {
                header: peak_header(vec![16384]),
                points: vec![5],
                deltas: vec![Delta::Delta2D(1, 1)],
            },
            TupleVariation {
                header: peak_header(vec![8192]),
                points: vec![2, 4],
                deltas: vec![Delta::Delta2D(2, 2), Delta::Delta2D(3, 3)],
            },
        ],
    };
    assert_eq!(store.choose_shared_points(), None);
}

#[test]
fn tuple_header_round_trip_intermediate() {
    let h = TupleVariationHeader {
        variation_data_size: 9,
        flags: EMBEDDED_PEAK_TUPLE | INTERMEDIATE_REGION,
        peak_tuple: Some(vec![8192, -8192]),
        intermediate_start: Some(vec![0, -16384]),
        intermediate_end: Some(vec![16384, 0]),
    };
    let enc = h.encode(2);
    let (dec, consumed) = TupleVariationHeader::decode(&enc, 0, 2).unwrap();
    assert_eq!(dec, h);
    assert_eq!(consumed, enc.len());
}

#[test]
fn otvar_de_ivd() {
    let binary_ivd = vec![
        0x00, 0x04, 0x00, 0x01, 0x00, 0x01, 0x00, 0x00, 0xFF, 0x38, 0xFF, 0xCE, 0x00, 0x64, 0x00,
        0xC8,
    ];
    let fivd = ItemVariationData {
        region_indexes: vec![0],
        delta_values: vec![vec![-200], vec![-50], vec![100], vec![200]],
    };
    let (deserialized, consumed) = ItemVariationData::decode(&binary_ivd, 0).unwrap();
    assert_eq!(deserialized, fivd);
    assert_eq!(consumed, 16);
}

#[test]
fn otvar_de_ivs() {
    let binary_ivs = vec![
        0x00, 0x01, 0x00, 0x00, 0x00, 0x0C, 0x00, 0x01, 0x00, 0x00, 0x00, 0x16, 0x00, 0x01, 0x00,
        0x01, 0x00, 0x00, 0x40, 0x00, 0x40, 0x00, 0x00, 0x04, 0x00, 0x01, 0x00, 0x01, 0x00, 0x00,
        0xFF, 0x38, 0xFF, 0xCE, 0x00, 0x64, 0x00, 0xC8,
    ];
    let deserialized = ItemVariationStore::decode(&binary_ivs, 0).unwrap();
    let fivd = ItemVariationData {
        region_indexes: vec![0],
        delta_values: vec![vec![-200], vec![-50], vec![100], vec![200]],
    };
    // Coordinates are raw F2Dot14 bits: 0x4000 is 1.0.
    let fivs = ItemVariationStore {
        format: 1,
        axis_count: 1,
        variation_regions: vec![vec![RegionAxisCoordinates {
            start_coord: 0,
            peak_coord: 16384,
            end_coord: 16384,
        }]],
        variation_data: vec![fivd],
    };
    assert_eq!(deserialized, fivs);
}

#[test]
fn ivd_reencode_is_byte_identical() {
    let binary_ivd = vec![
        0x00, 0x04, 0x00, 0x01, 0x00, 0x01, 0x00, 0x00, 0xFF, 0x38, 0xFF, 0xCE, 0x00, 0x64, 0x00,
        0xC8,
    ];
    let (ivd, _) = ItemVariationData::decode(&binary_ivd, 0).unwrap();
    assert_eq!(ivd.encode(), binary_ivd);
}

#[test]
fn ivs_reencode_is_byte_identical() {
    let binary_ivs = vec![
        0x00, 0x01, 0x00, 0x00, 0x00, 0x0C, 0x00, 0x01, 0x00, 0x00, 0x00, 0x16, 0x00, 0x01, 0x00,
        0x01, 0x00, 0x00, 0x40, 0x00, 0x40, 0x00, 0x00, 0x04, 0x00, 0x01, 0x00, 0x01, 0x00, 0x00,
        0xFF, 0x38, 0xFF, 0xCE, 0x00, 0x64, 0x00, 0xC8,
    ];
    let ivs = ItemVariationStore::decode(&binary_ivs, 0).unwrap();
    assert_eq!(ivs.encode(), binary_ivs);
}

#[test]
fn packed_points_round_trip() {
    let pp = PackedPoints {
        points: vec![1, 5, 300, 301, 65535],
    };
    let enc = pp.encode();
    let (dec, consumed) = PackedPoints::decode(&enc, 0).unwrap();
    assert_eq!(dec.points, pp.points);
    assert_eq!(consumed, enc.len());
}

#[test]
fn packed_points_empty_is_all_points() {
    let pp = PackedPoints { points: vec![] };
    let enc = pp.encode();
    assert_eq!(enc, vec![0x00]);
    let (dec, consumed) = PackedPoints::decode(&enc, 0).unwrap();
    assert!(dec.points.is_empty());
    assert_eq!(consumed, 1);
}

#[test]
fn packed_points_128_split_into_two_runs() {
    // 128 consecutive points: the first run holds 127, the second the rest.
    let points: Vec<u16> = (0..128).collect();
    let pp = PackedPoints { points };
    let enc = pp.encode();
    // Two-byte count field (128 needs the extended form), then the runs.
    assert_eq!(enc[0], 0x80);
    assert_eq!(enc[1], 128);
    assert_eq!(enc[2], 126); // first run: 127 one-byte differences
    assert_eq!(enc[3 + 127], 0); // second run: 1 one-byte difference
    assert_eq!(enc.len(), 2 + 1 + 127 + 1 + 1);
    let (dec, consumed) = PackedPoints::decode(&enc, 0).unwrap();
    assert_eq!(dec.points, pp.points);
    assert_eq!(consumed, enc.len());
}

#[test]
fn packed_deltas_round_trip() {
    let pd = PackedDeltas {
        deltas: vec![0, 0, 7, -7, 300, -300, 0, 127, -128, 128],
    };
    let enc = pd.encode();
    let (dec, consumed) = PackedDeltas::decode(&enc, 0, pd.deltas.len()).unwrap();
    assert_eq!(dec.deltas, pd.deltas);
    assert_eq!(consumed, enc.len());
}

#[test]
fn packed_deltas_zero_run() {
    let pd = PackedDeltas {
        deltas: vec![0, 0, 0, 0],
    };
    // A zero run carries no payload: one control byte.
    assert_eq!(pd.encode(), vec![0x83]);
}

#[test]
fn packed_deltas_run_cap_splits() {
    // 65 identical non-zero byte-sized values overflow the 64-value cap
    // and split into a full run and a run of one.
    let pd = PackedDeltas { deltas: vec![5; 65] };
    let enc = pd.encode();
    assert_eq!(enc[0], 63); // first run: 64 one-byte values
    assert_eq!(enc[1 + 64], 0); // second run: 1 one-byte value
    assert_eq!(enc.len(), 1 + 64 + 1 + 1);
    let (dec, _) = PackedDeltas::decode(&enc, 0, 65).unwrap();
    assert_eq!(dec.deltas, pd.deltas);
}

#[test]
fn packed_deltas_excess_count_is_truncation() {
    // One byte run with a single value; asking for two values must fail
    // with a truncation error, not return a short sequence.
    let bytes = vec![0x00, 0x05];
    let r = PackedDeltas::decode(&bytes, 0, 2);
    assert_eq!(r, Err(CodecError::TruncatedInput));
}

#[test]
fn packed_deltas_overrun_is_size_mismatch() {
    // A run that declares more values than the expected count remain.
    let bytes = vec![0x01, 0x05, 0x06];
    let r = PackedDeltas::decode(&bytes, 0, 1);
    assert_eq!(r, Err(CodecError::SizeMismatch));
}

#[test]
fn ivd_width_escalation_to_words() {
    // A value outside [-128, 127] forces the whole block to word width.
    let ivd = ItemVariationData {
        region_indexes: vec![0, 1],
        delta_values: vec![vec![1, 300], vec![2, -2]],
    };
    let enc = ivd.encode();
    // wordDeltaCount covers both columns' widths: column 1 needs words.
    assert_eq!(&enc[2..4], &[0x00, 0x02]);
    let (dec, _) = ItemVariationData::decode(&enc, 0).unwrap();
    assert_eq!(dec, ivd);
}

#[test]
fn ivd_width_escalation_to_long_words() {
    // A value outside the 16-bit range forces the long-words class.
    let ivd = ItemVariationData {
        region_indexes: vec![0],
        delta_values: vec![vec![70000], vec![-3]],
    };
    let enc = ivd.encode();
    assert_eq!(enc[2] & 0x80, 0x80);
    let (dec, _) = ItemVariationData::decode(&enc, 0).unwrap();
    assert_eq!(dec, ivd);
}

#[test]
fn ivd_byte_width_when_all_small() {
    let ivd = ItemVariationData {
        region_indexes: vec![0, 1],
        delta_values: vec![vec![1, -1], vec![127, -128]],
    };
    let enc = ivd.encode();
    assert_eq!(&enc[2..4], &[0x00, 0x00]); // no wide columns
    let (dec, _) = ItemVariationData::decode(&enc, 0).unwrap();
    assert_eq!(dec, ivd);
}

#[test]
fn delta_get_2d() {
    let d = Delta::Delta2D(3, -4);
    assert_eq!(d.get_2d(), (3, -4));
}

#[test]
fn ivd_truncated_input() {
    let bytes = vec![0x00, 0x04, 0x00];
    let r = ItemVariationData::decode(&bytes, 0);
    assert_eq!(r, Err(CodecError::TruncatedInput));
}
