use ci_transfer::oss::{build_config, digest_hex, download_output_path, should_download, trim_whitespace};

#[test]
fn digest_of_known_contents() {
    assert_eq!(digest_hex(&vec![]), "d41d8cd98f00b204e9800998ecf8427e");
    assert_eq!(digest_hex(&b"abc".to_vec()), "900150983cd24fb0d6963f7d28e17f72");
}

#[test]
fn trim_surrounding_whitespace() {
    assert_eq!(trim_whitespace("  x\ty \n"), "x\ty");
    assert_eq!(trim_whitespace(""), "");
    assert_eq!(trim_whitespace(" \r\n\t "), "");
    assert_eq!(trim_whitespace("plain"), "plain");
}

#[test]
fn cache_disabled_always_downloads() {
    assert!(should_download(false, &None, &None));
    assert!(should_download(false, &Some(b"data".to_vec()), &Some(b"irrelevant".to_vec())));
}

#[test]
fn missing_local_file_downloads() {
    assert!(should_download(true, &None, &None));
    assert!(should_download(true, &None, &Some(b"whatever".to_vec())));
}

#[test]
fn failed_sidecar_fetch_downloads() {
    assert!(should_download(true, &Some(b"hello".to_vec()), &None));
}

#[test]
fn unreadable_sidecar_downloads() {
    assert!(should_download(true, &Some(b"hello".to_vec()), &Some(vec![0xff, 0xfe])));
}

#[test]
fn matching_digest_skips_download() {
    let sidecar = b"5d41402abc4b2a76b9719d911017c592\n".to_vec();
    assert!(!should_download(true, &Some(b"hello".to_vec()), &Some(sidecar)));
}

#[test]
fn differing_digest_downloads() {
    let sidecar = b"00000000000000000000000000000000".to_vec();
    assert!(should_download(true, &Some(b"hello".to_vec()), &Some(sidecar)));
}

#[test]
fn output_path_of_downloaded_object() {
    assert_eq!(download_output_path("out", "/projectA/deploy.zip"), "out/deploy.zip");
    assert_eq!(download_output_path(".", "deploy.zip"), "./deploy.zip");
}

#[test]
fn ready_made_config() {
    let cfg = build_config();
    assert_eq!(cfg.oss_bucket, "cm-binary");
    assert_eq!(cfg.oss_endpoint, "oss-cn-hangzhou.aliyuncs.com");
    assert_eq!(cfg.key_id, "xxx");
    assert_eq!(cfg.key_secret, "xxx");
}
