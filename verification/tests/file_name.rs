use vela::file_name::{id_to_filename, parse_file_id};

#[test]
fn test_id_to_filename() {
    assert_eq!(id_to_filename(0), "000000.sst");
    assert_eq!(id_to_filename(42), "000042.sst");
    assert_eq!(id_to_filename(1234567), "1234567.sst");
    assert_eq!(id_to_filename(u64::MAX), format!("{}.sst", u64::MAX));
}

#[test]
fn test_parse_file_id() {
    assert_eq!(parse_file_id("000042.sst"), (42, true));
    assert_eq!(parse_file_id("+7.sst"), (7, true));
    assert_eq!(parse_file_id("a.b.sst"), (0, false));
    assert_eq!(parse_file_id(".sst"), (0, false));
    assert_eq!(parse_file_id("12.vlog"), (0, false));
    assert_eq!(parse_file_id("12"), (0, false));
    assert_eq!(parse_file_id("+.sst"), (0, false));
    assert_eq!(parse_file_id("99999999999999999999.sst"), (0, false));
    assert_eq!(parse_file_id("18446744073709551615.sst"), (u64::MAX, true));
}

#[test]
fn test_file_name_roundtrip() {
    for id in [0u64, 1, 999999, 1000000, u64::MAX] {
        assert_eq!(parse_file_id(&id_to_filename(id)), (id, true));
    }
}
