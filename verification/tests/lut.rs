use light::lut::{apply_lut, get_hdr_lut, lut_from_candidates, lut_from_file_bytes, HdrLutCache, LUT_SIZE};

#[test]
fn lut_maps_colors_through_the_table() {
    // Entry of (1, 0, 0) is at 3.
    let lut = vec![0, 0, 0, 7, 8, 9];
    assert_eq!(apply_lut(1, 0, 0, &lut), (7, 8, 9));
    // Entry of (2, 0, 0) would be at 6: the table is too short, the color stays.
    assert_eq!(apply_lut(2, 0, 0, &lut), (2, 0, 0));
    assert_eq!(apply_lut(0, 1, 0, &lut), (0, 1, 0));
}

#[test]
fn table_from_file_needs_full_size() {
    assert!(lut_from_file_bytes(&[1, 2, 3]).is_none());
    let mut bytes = vec![0u8; LUT_SIZE + 2];
    bytes[LUT_SIZE - 1] = 5;
    let t = lut_from_file_bytes(&bytes).unwrap();
    assert_eq!(t.len(), LUT_SIZE);
    assert_eq!(t[LUT_SIZE - 1], 5);
}

#[test]
fn cache_hands_out_loaded_table() {
    let c = HdrLutCache { loaded: true, table: Some(vec![1, 2, 3]) };
    assert_eq!(get_hdr_lut(&c), Some(&[1u8, 2, 3][..]));
    assert!(get_hdr_lut(&HdrLutCache { loaded: true, table: None }).is_none());
}

#[test]
fn lut_is_loaded_once_from_the_first_whole_file() {
    let mut whole = vec![7u8; LUT_SIZE + 2];
    whole[0] = 9;
    let files = vec![None, Some(vec![1u8, 2]), Some(whole), Some(vec![3u8; LUT_SIZE])];
    let t = lut_from_candidates(&files).unwrap();
    assert_eq!(t.len(), LUT_SIZE);
    assert_eq!(t[0], 9);
    assert!(lut_from_candidates(&vec![None, Some(vec![1u8])]).is_none());

    let mut c = HdrLutCache::new();
    assert!(!c.is_loaded());
    c.load(Some(vec![4, 5, 6]));
    assert!(c.is_loaded());
    c.load(None);
    assert_eq!(get_hdr_lut(&c), Some(&[4u8, 5, 6][..]));
}
