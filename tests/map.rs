use micromayhem::map::{ArenaMap, BlockType, MapError, MAP_BYTES, VERTICAL_BLOCKS};

#[test]
fn allow_basic_map_init() {
    let a: u128 = 0b0101;
    let b: u128 = 0b1010;
    let result = ArenaMap::from_mapblocks(a, b);

    assert!(result.is_ok());
}

#[test]
fn allow_basic_map_1_init() {
    let a: i128 = 0b0101;
    let b: i128 = 0b1010;
    let result = ArenaMap::from_mapblocks(a as u128, b as u128);

    assert!(result.is_ok());
}

#[test]
fn test_map_allow_basic_map_2_init() {
    let a: i128 = 0b000000001;
    let b: i128 = 0b000100000;

    let result = ArenaMap::from_mapblocks(a as u128, b as u128);
    assert!(result.is_ok());
}

#[test]
fn test_map_allow_basic_map_3_init() {
    let result = ArenaMap::from_mapblocks(0, 0);
    assert!(result.is_ok());

    let result2 = ArenaMap::from_mapblocks(1, 0);
    assert!(result2.is_ok());
}

#[test]
fn test_map_forbid_basic_map_init() {
    let a: i128 = 0b0101;
    let b: i128 = 0b1110;
    let result = ArenaMap::from_mapblocks(a as u128, b as u128);

    assert!(result.is_err());
}

#[test]
fn test_map_disallow_full_overlap_map_init() {
    let m: i128 = -1;
    let result = ArenaMap::from_mapblocks(m as u128, m as u128);
    assert!(result.is_err());
}

#[test]
fn test_to_blocktypes() {
    let grassbits: i128 = 0b000000001;
    let icebits: i128 = 0b000100000;
    let map = ArenaMap::from_mapblocks(grassbits as u128, icebits as u128).unwrap();

    let (row, col) = (5, 0);
    let blocktype = map.block_at(row, col).unwrap();
    assert_eq!(BlockType::IceBlock, blocktype);
    assert_eq!(map.block_at(0, 0), Some(BlockType::GrassBlock));
    assert_eq!(map.block_at(1, 0), None);
    assert_eq!(VERTICAL_BLOCKS, 8);
}

#[test]
fn test_first_row_below() {
    let grassbits: i128 = 0b000000001;
    let icebits: i128 = 0b000100000;
    let map = ArenaMap::from_mapblocks(grassbits as u128, icebits as u128).unwrap();

    assert_eq!(map.first_row_below(1, 0), Some(5));
    assert_eq!(map.first_row_below(0, 0), Some(0));
    assert_eq!(map.first_row_below(2, 0), Some(5));
    assert_eq!(map.first_row_below(6, 0), None);
    assert_eq!(map.first_row_below(0, 1), None);
}

#[test]
fn overlap_error_is_overlap() {
    assert_eq!(ArenaMap::from_mapblocks(1 << 127, 1 << 127).unwrap_err(), MapError::Overlap);
}

#[test]
fn map_bytes_are_two_bit_layers() {
    let map = ArenaMap::from_mapblocks(0b1, 1 << 9).unwrap();
    let bytes = map.to_bytes();
    assert_eq!(bytes.len(), MAP_BYTES);
    let mut expected = vec![0u8; MAP_BYTES];
    expected[0] = 0b1;
    expected[16 + 1] = 0b10;
    assert_eq!(bytes, expected);
}

#[test]
fn default_map_alternates_rows() {
    let map = ArenaMap::default_map();
    assert_eq!(map.block_at(0, 3), Some(BlockType::GrassBlock));
    assert_eq!(map.block_at(1, 3), Some(BlockType::IceBlock));
    assert_eq!(map.block_at(7, 15), Some(BlockType::IceBlock));
    let bytes = map.to_bytes();
    assert_eq!(&bytes[..16], &[0x55u8; 16]);
    assert_eq!(&bytes[16..], &[0xAAu8; 16]);
}

#[test]
fn map_bytes_round_trip() {
    let map = ArenaMap::from_mapblocks(0x0123_4567_89ab_cdef, 0xfedc_ba98_7654_3210 << 64).unwrap();
    let back = ArenaMap::from_bytes(&map.to_bytes()).unwrap();
    for col in 0..16 {
        for row in 0..VERTICAL_BLOCKS {
            assert_eq!(back.block_at(row, col), map.block_at(row, col));
        }
    }
}

#[test]
fn map_from_short_or_overlapping_bytes_fails() {
    assert_eq!(ArenaMap::from_bytes(&[0u8; 31]).unwrap_err(), MapError::Truncated);
    let mut bytes = vec![0u8; MAP_BYTES];
    bytes[3] = 0b100;
    bytes[16 + 3] = 0b110;
    assert_eq!(ArenaMap::from_bytes(&bytes).unwrap_err(), MapError::Overlap);
    let mut extra = ArenaMap::default_map().to_bytes();
    extra.push(9);
    assert!(ArenaMap::from_bytes(&extra).is_ok());
}
