use ci_transfer::unzip::{decode_filename, is_valid_filename, plan_extraction, ArchiveEntry};

#[test]
fn plausibility_filter() {
    assert!(is_valid_filename("abc"));
    assert!(is_valid_filename("a b.txt"));
    assert!(!is_valid_filename("a\0b"));
    assert!(is_valid_filename("caf\u{e9}"));
    assert!(is_valid_filename("\u{65e5}\u{672c}\u{8a9e}"));
    assert!(!is_valid_filename("\u{b0}"));
}

#[test]
fn decode_ascii_name() {
    assert_eq!(decode_filename(&b"hello.txt".to_vec()), "hello.txt");
}

#[test]
fn decode_legacy_cjk_name() {
    // The bytes 0x81 0x40 are the GBK encoding of one ideograph; strict
    // UTF-8 rejects them and the windows-1252 reading maps 0x81 to a
    // control character, so the GBK decoder is the first accepted one.
    let raw = vec![0x81, 0x40, 0x2e, 0x74, 0x78, 0x74];
    let name = decode_filename(&raw);
    assert_eq!(name, "\u{4e02}.txt");
    assert!(name.chars().all(|c| !c.is_control()));
}

#[test]
fn decode_garbage_never_fails() {
    let name = decode_filename(&vec![0xff, 0xfe, 0x81]);
    assert_eq!(name, "\u{fffd}\u{fffd}\u{fffd}");
}

#[test]
fn extraction_plan_joins_names_under_output() {
    let entries = vec![
        ArchiveEntry { raw_name: b"d/".to_vec(), is_dir: true, size: 0, unix_mode: None },
        ArchiveEntry {
            raw_name: b"d/x.bin".to_vec(),
            is_dir: false,
            size: 10,
            unix_mode: Some(0o755),
        },
    ];
    let steps = plan_extraction(&entries, "out");
    assert_eq!(steps.len(), 2);
    assert_eq!(steps[0].path, "out/d/");
    assert!(steps[0].is_dir);
    assert_eq!(steps[0].entry_index, 0);
    assert_eq!(steps[0].unix_mode, None);
    assert_eq!(steps[1].path, "out/d/x.bin");
    assert!(!steps[1].is_dir);
    assert_eq!(steps[1].entry_index, 1);
    assert_eq!(steps[1].unix_mode, Some(0o755));
}
