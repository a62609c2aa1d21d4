use pyxel2ldtk::bundle::{find_json_entry, get_pyxel_json_map, sorted_tile_entries};
use pyxel2ldtk::digits::parse_dec_range;
use pyxel2ldtk::errors::ConvertError;
use std::io::Write;

fn names(list: &[&str]) -> Vec<Vec<u8>> {
    list.iter().map(|n| n.as_bytes().to_vec()).collect()
}

fn zip_of(entries: &[(&str, &[u8])]) -> Vec<u8> {
    let cursor = std::io::Cursor::new(Vec::new());
    let mut writer = zip::ZipWriter::new(cursor);
    for (name, content) in entries {
        writer
            .start_file(*name, zip::write::FileOptions::default())
            .unwrap();
        writer.write_all(content).unwrap();
    }
    writer.finish().unwrap().into_inner()
}

#[test]
fn finds_first_json_entry() {
    let ns = names(&["tile0.png", "doc.json", "extra.json"]);
    assert_eq!(find_json_entry(&ns), Some(1));
}

#[test]
fn no_json_entry() {
    let ns = names(&["tile0.png", "readme.txt"]);
    assert_eq!(find_json_entry(&ns), None);
}

#[test]
fn tile_entries_sorted_by_number() {
    let ns = names(&["tile10.png", "doc.json", "tile2.png", "tile0.png", "readme.txt"]);
    let entries = sorted_tile_entries(&ns).unwrap();
    let numbers: Vec<u64> = entries.iter().map(|e| e.number).collect();
    assert_eq!(numbers, vec![0, 2, 10]);
    assert_eq!(entries[0].name, b"tile0.png".to_vec());
    assert_eq!(entries[1].name, b"tile2.png".to_vec());
    assert_eq!(entries[2].name, b"tile10.png".to_vec());
}

#[test]
fn tile_name_without_number_is_malformed() {
    let ns = names(&["tilex.png"]);
    assert_eq!(sorted_tile_entries(&ns), Err(ConvertError::TileNameMalformed));
}

#[test]
fn tile_name_with_empty_number_is_malformed() {
    let ns = names(&["tile.png"]);
    assert_eq!(sorted_tile_entries(&ns), Err(ConvertError::TileNameMalformed));
}

#[test]
fn tile_number_may_fill_sixty_four_bits() {
    let ns = names(&["tile18446744073709551615.png"]);
    let entries = sorted_tile_entries(&ns).unwrap();
    assert_eq!(entries[0].number, u64::MAX);

    let over = names(&["tile18446744073709551616.png"]);
    assert_eq!(sorted_tile_entries(&over), Err(ConvertError::TileNameMalformed));
}

#[test]
fn manifest_bytes_come_from_the_json_entry() {
    let bundle = zip_of(&[
        ("tile0.png", b"not a real image".as_slice()),
        ("doc.json", b"{\"canvas\":{}}".as_slice()),
    ]);
    let bytes = get_pyxel_json_map(&bundle).unwrap();
    assert_eq!(bytes, b"{\"canvas\":{}}".to_vec());
}

#[test]
fn missing_manifest_is_reported() {
    let bundle = zip_of(&[("tile0.png", b"x".as_slice())]);
    assert_eq!(get_pyxel_json_map(&bundle), Err(ConvertError::ManifestMissing));
}

#[test]
fn unreadable_archive_is_reported() {
    let bundle = b"this is not a zip archive".to_vec();
    assert_eq!(get_pyxel_json_map(&bundle), Err(ConvertError::ArchiveInvalid));
}

#[test]
fn decimal_parse_is_exact() {
    let bytes = b"01234".to_vec();
    assert_eq!(parse_dec_range(&bytes, 0, 5), Some(1234));
    assert_eq!(parse_dec_range(&bytes, 1, 3), Some(12));
    assert_eq!(parse_dec_range(&bytes, 2, 2), None);
    let junk = b"12a4".to_vec();
    assert_eq!(parse_dec_range(&junk, 0, 4), None);
    let max = b"18446744073709551615".to_vec();
    assert_eq!(parse_dec_range(&max, 0, 20), Some(u64::MAX));
    let over = b"18446744073709551616".to_vec();
    assert_eq!(parse_dec_range(&over, 0, 20), None);
}
