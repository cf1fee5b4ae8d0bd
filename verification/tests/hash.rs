use datafusion_ext_functions::bytes::signed_le_bytes;
use datafusion_ext_functions::column::{Column, IntWidth};
use datafusion_ext_functions::error::ExtFunctionError;
use datafusion_ext_functions::spark_murmur3_hash::{murmur3, spark_murmur3_hash};

fn signed(h: u32) -> Option<i64> {
    Some(h as i32 as i64)
}

fn ints(width: IntWidth, values: Vec<Option<i64>>) -> Column {
    Column::Int { width, values }
}

fn hashes(cols: &Vec<Column>, seed: i32) -> Vec<Option<i64>> {
    match spark_murmur3_hash(cols, seed) {
        Ok(Column::Int { width: IntWidth::W32, values }) => values,
        other => panic!("unexpected result {:?}", other),
    }
}

fn mix_k1(k: u32) -> u32 {
    k.wrapping_mul(0xcc9e2d51).rotate_left(15).wrapping_mul(0x1b873593)
}

fn mix_h1(h: u32, k: u32) -> u32 {
    (h ^ k).rotate_left(13).wrapping_mul(5).wrapping_add(0xe6546b64)
}

fn reference(data: &[u8], seed: u32) -> u32 {
    let mut h = seed;
    let mut blocks = data.chunks_exact(4);
    for block in &mut blocks {
        h = mix_h1(h, mix_k1(u32::from_le_bytes([block[0], block[1], block[2], block[3]])));
    }
    for b in blocks.remainder() {
        h = mix_h1(h, mix_k1(*b as i8 as i32 as u32));
    }
    h ^= data.len() as u32;
    h ^= h >> 16;
    h = h.wrapping_mul(0x85ebca6b);
    h ^= h >> 13;
    h = h.wrapping_mul(0xc2b2ae35);
    h ^ (h >> 16)
}

#[test]
fn murmur3_of_32_bit_integers() {
    let col = ints(
        IntWidth::W32,
        vec![Some(1), Some(0), Some(-1), Some(i32::MAX as i64), Some(i32::MIN as i64)],
    );
    assert_eq!(
        hashes(&vec![col], 42),
        vec![
            signed(0xdea578e3),
            signed(0x379fae8f),
            signed(0xa0590e3d),
            signed(0x07fb67e7),
            signed(0x2b1f0fc6),
        ]
    );
}

#[test]
fn murmur3_of_64_bit_integers() {
    let col = ints(IntWidth::W64, vec![Some(1), Some(0), Some(-1), Some(i64::MAX), Some(i64::MIN)]);
    assert_eq!(
        hashes(&vec![col], 42),
        vec![
            signed(0x99f0149d),
            signed(0x9c67b85d),
            signed(0xc8008529),
            signed(0xa05b5d7b),
            signed(0xcd1e64fb),
        ]
    );
}

#[test]
fn murmur3_of_strings() {
    let col = Column::Utf8(
        ["hello", "bar", "", "\u{1F601}", "\u{5929}\u{5730}"]
            .iter()
            .map(|s| Some(s.to_string()))
            .collect(),
    );
    assert_eq!(
        hashes(&vec![col], 42),
        vec![
            signed(3286402344),
            signed(2486176763),
            signed(142593372),
            signed(885025535),
            signed(2395000894),
        ]
    );
}

#[test]
fn murmur3_of_bytes_matches_the_algorithm() {
    let data: Vec<u8> = (0u16..300).map(|i| (i * 7 + 3) as u8).collect();
    for len in 0..data.len() {
        for seed in [0u32, 42, 0xffff_ffff, 0x8000_0000] {
            assert_eq!(murmur3(&data[..len], seed), reference(&data[..len], seed));
        }
    }
    assert_eq!(murmur3(&[], 0), 0);
    assert_eq!(murmur3(&[], 1), 0x514e28b7);
}

#[test]
fn integers_are_hashed_at_their_own_width() {
    for (width, bytes) in [(IntWidth::W8, 1), (IntWidth::W16, 2), (IntWidth::W32, 4), (IntWidth::W64, 8)]
    {
        for v in [0i64, 1, -1, 100, -128, 127] {
            let expected = reference(&v.to_le_bytes()[..bytes], 7) as i32 as i64;
            assert_eq!(hashes(&vec![ints(width, vec![Some(v)])], 7), vec![Some(expected)]);
        }
    }
}

#[test]
fn decimals_are_hashed_by_their_unscaled_integer() {
    let values = vec![Some(0i128), Some(12345), Some(-1), Some(i128::MAX), Some(i128::MIN)];
    let expected: Vec<Option<i64>> = values
        .iter()
        .map(|v| Some(reference(&v.unwrap().to_le_bytes(), 42) as i32 as i64))
        .collect();
    let col = Column::Decimal { precision: 38, scale: 2, values: values.clone() };
    assert_eq!(hashes(&vec![col], 42), expected);
    let other_scale = Column::Decimal { precision: 20, scale: 10, values };
    assert_eq!(hashes(&vec![other_scale], 42), expected);
}

#[test]
fn nulls_are_hashed_as_a_marker_and_not_skipped() {
    let marker = reference(&[0xff, 0xff, 0xff], 42) as i32 as i64;
    assert_ne!(marker, 42);
    assert_eq!(hashes(&vec![ints(IntWidth::W32, vec![None])], 42), vec![Some(marker)]);
    assert_eq!(hashes(&vec![Column::Utf8(vec![None])], 42), vec![Some(marker)]);
    assert_eq!(
        hashes(&vec![Column::Decimal { precision: 5, scale: 0, values: vec![None] }], 42),
        vec![Some(marker)]
    );
}

#[test]
fn columns_fold_in_order() {
    let a = || ints(IntWidth::W32, vec![Some(1), None]);
    let b = || Column::Utf8(vec![Some("x".to_string()), Some("y".to_string())]);
    let first = reference(&1i32.to_le_bytes(), 42);
    let expected_ab = reference(b"x", first) as i32 as i64;
    let first_b = reference(b"x", 42);
    let expected_ba = reference(&1i32.to_le_bytes(), first_b) as i32 as i64;
    let ab = hashes(&vec![a(), b()], 42);
    let ba = hashes(&vec![b(), a()], 42);
    assert_eq!(ab[0], Some(expected_ab));
    assert_eq!(ba[0], Some(expected_ba));
    assert_ne!(ab[0], ba[0]);
    let null_then_y = reference(b"y", reference(&[0xff, 0xff, 0xff], 42)) as i32 as i64;
    assert_eq!(ab[1], Some(null_then_y));
}

#[test]
fn a_row_hashes_alone_as_in_its_batch() {
    let ids: Vec<Option<i64>> = (0..10).map(|i| if i == 3 { None } else { Some(i * 1000 - 7) }).collect();
    let names: Vec<Option<String>> = (0..10).map(|i| Some(format!("row{}", i))).collect();
    let whole = hashes(
        &vec![ints(IntWidth::W64, ids.clone()), Column::Utf8(names.clone())],
        42,
    );
    for i in 0..10 {
        let alone = hashes(
            &vec![
                ints(IntWidth::W64, vec![ids[i]]),
                Column::Utf8(vec![names[i].clone()]),
            ],
            42,
        );
        assert_eq!(alone, vec![whole[i]]);
    }
    let part = hashes(
        &vec![ints(IntWidth::W64, ids[4..8].to_vec()), Column::Utf8(names[4..8].to_vec())],
        42,
    );
    assert_eq!(part, whole[4..8].to_vec());
    let again = hashes(&vec![ints(IntWidth::W64, ids), Column::Utf8(names)], 42);
    assert_eq!(again, whole);
}

#[test]
fn negative_seeds_are_taken_by_their_bits() {
    let expected = reference(&5i32.to_le_bytes(), 0xffff_ffff) as i32 as i64;
    assert_eq!(hashes(&vec![ints(IntWidth::W32, vec![Some(5)])], -1), vec![Some(expected)]);
}

#[test]
fn hash_refuses_what_it_cannot_hash() {
    let refused = Err(ExtFunctionError::InvalidArguments);
    assert_eq!(spark_murmur3_hash(&vec![], 42), refused);
    assert_eq!(spark_murmur3_hash(&vec![Column::Json(vec![])], 42), refused);
    assert_eq!(spark_murmur3_hash(&vec![Column::List(vec![])], 42), refused);
    assert_eq!(
        spark_murmur3_hash(
            &vec![ints(IntWidth::W32, vec![Some(1)]), ints(IntWidth::W32, vec![Some(1), Some(2)])],
            42
        ),
        refused
    );
    assert_eq!(
        spark_murmur3_hash(&vec![ints(IntWidth::W32, vec![])], 42),
        Ok(ints(IntWidth::W32, vec![]))
    );
}

#[test]
fn integers_become_little_endian_twos_complement() {
    assert_eq!(signed_le_bytes(1, 4), vec![1, 0, 0, 0]);
    assert_eq!(signed_le_bytes(-1, 2), vec![0xff, 0xff]);
    assert_eq!(signed_le_bytes(-2, 1), vec![0xfe]);
    assert_eq!(signed_le_bytes(0x0102_0304, 4), vec![4, 3, 2, 1]);
    assert_eq!(signed_le_bytes(0x1ff, 1), vec![0xff]);
    assert_eq!(signed_le_bytes(i128::MIN, 16), i128::MIN.to_le_bytes().to_vec());
    assert_eq!(signed_le_bytes(i128::MAX, 16), i128::MAX.to_le_bytes().to_vec());
    assert_eq!(signed_le_bytes(-123456789, 8), (-123456789i64).to_le_bytes().to_vec());
    assert_eq!(signed_le_bytes(i128::MIN, 8), vec![0; 8]);
}
