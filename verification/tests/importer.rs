use core_lib::importer::{decode_file_text, import_chunks, is_indexable_extension};
use core_lib::index::{encode_rejected_ids, sqlite_key_text};

#[test]
fn indexable_extensions() {
    for ext in ["txt", "md", "rs", "toml", "json", "js", "ts", "py"] {
        assert!(is_indexable_extension(ext));
    }
    for ext in ["", "TXT", "pdf", "exe", "tx"] {
        assert!(!is_indexable_extension(ext));
    }
}

#[test]
fn utf8_files_decode_as_utf8() {
    assert_eq!(decode_file_text("Привет".as_bytes().to_vec(), true), "Привет");
    assert_eq!(decode_file_text(b"fn main() {}".to_vec(), false), "fn main() {}");
}

#[test]
fn invalid_utf8_txt_is_windows_1251() {
    assert_eq!(decode_file_text(vec![0xCF, 0xF0, 0xE8], true), "При");
}

#[test]
fn invalid_utf8_other_files_are_empty() {
    assert_eq!(decode_file_text(vec![0xCF, 0xF0, 0xE8], false), "");
}

#[test]
fn chunks_overlap_by_a_hundred_characters() {
    let text: String = (0..1000).map(|i| char::from(b'a' + (i % 26) as u8)).collect();
    let chunks = import_chunks(&text);
    assert_eq!(chunks.len(), 3);
    assert_eq!(chunks[0], text[0..500]);
    assert_eq!(chunks[1], text[400..900]);
    assert_eq!(chunks[2], text[800..1000]);
}

#[test]
fn short_chunks_are_dropped() {
    assert!(import_chunks("just a few words").is_empty());
    assert!(import_chunks("").is_empty());
    let text = format!("{}{}", "x".repeat(420), " ".repeat(60));
    // The second window holds 20 letters and white space only.
    let chunks = import_chunks(&text);
    assert_eq!(chunks, vec!["x".repeat(420)]);
}

#[test]
fn chunks_are_trimmed() {
    let text = format!("   {}   ", "word ".repeat(20));
    let chunks = import_chunks(&text);
    assert_eq!(chunks, vec!["word ".repeat(20).trim().to_string()]);
}

#[test]
fn rejected_ids_are_a_json_array() {
    assert_eq!(encode_rejected_ids(&[1, 22, 333]), "[1,22,333]");
    assert_eq!(encode_rejected_ids(&[]), "[]");
    assert_eq!(encode_rejected_ids(&[u64::MAX]), "[18446744073709551615]");
}

#[test]
fn sqlite_key_is_sixteen_hex_digits() {
    assert_eq!(sqlite_key_text(0), "0000000000000000");
    assert_eq!(sqlite_key_text(0x20002000006080e0), "20002000006080e0");
    assert_eq!(sqlite_key_text(u64::MAX), "ffffffffffffffff");
    assert_eq!(sqlite_key_text(0xabc), format!("{:016x}", 0xabcu64));
}
