use ci_transfer::error::TransferError;
use ci_transfer::payload::resolve_payload;
use ci_transfer::ssh::{escape_command, parse_destination_ssh, prepare_commands, split_char, wrap_command};

#[test]
fn resolve_base64_payload() {
    assert_eq!(resolve_payload("ZWNobyBoaQ=="), "echo hi");
}

#[test]
fn resolve_literal_payload() {
    assert_eq!(resolve_payload("echo hi"), "echo hi");
}

#[test]
fn resolve_two_layers() {
    assert_eq!(resolve_payload("WldOb2J5Qm9hUT09"), "echo hi");
}

#[test]
fn resolve_base64_of_binary_stays_literal() {
    assert_eq!(resolve_payload("test"), "test");
}

#[test]
fn escape_plain_command_unchanged() {
    assert_eq!(escape_command("echo hi"), "echo hi");
}

#[test]
fn escape_command_with_quote() {
    assert_eq!(escape_command("say \"hi\""), "\"say \\\"hi\\\"\"");
}

#[test]
fn escape_command_with_backslash() {
    assert_eq!(escape_command("a\\b"), "\"a\\\\b\"");
}

#[test]
fn escape_command_with_quote_and_backslash() {
    assert_eq!(escape_command("a\"b\\c"), "\"a\\\"b\\\\c\"");
}

#[test]
fn wrap_for_login_shell() {
    assert_eq!(wrap_command("ls -l"), "bash -c ls -l");
    assert_eq!(wrap_command("say \"hi\""), "bash -c \"say \\\"hi\\\"\"");
}

#[test]
fn prepare_quoted_command() {
    let commands = vec!["say \"hi\"".to_string()];
    let prepared = prepare_commands(&commands);
    assert_eq!(prepared, vec!["bash -c \"say \\\"hi\\\"\"".to_string()]);
}

#[test]
fn prepare_resolves_skips_and_wraps() {
    let commands = vec![
        "".to_string(),
        "ZWNobyBoaQ==".to_string(),
        "ls".to_string(),
    ];
    let prepared = prepare_commands(&commands);
    assert_eq!(prepared, vec!["bash -c echo hi".to_string(), "bash -c ls".to_string()]);
}

#[test]
fn split_char_segments() {
    assert_eq!(split_char("a:b:c", ':'), vec!["a", "b", "c"]);
    assert_eq!(split_char("a", ':'), vec!["a"]);
    assert_eq!(split_char("", ':'), vec![""]);
    assert_eq!(split_char(":x:", ':'), vec!["", "x", ""]);
}

#[test]
fn parse_plain_destination() {
    let cfg = parse_destination_ssh("user:pw@1.2.3.4:/srv/out").unwrap();
    assert_eq!(cfg.username, "user");
    assert_eq!(cfg.password, "pw");
    assert_eq!(cfg.ip, "1.2.3.4");
    assert_eq!(cfg.remote_path, "/srv/out");
}

#[test]
fn parse_base64_destination() {
    let cfg = parse_destination_ssh("dXNlcjpwd0AxLjIuMy40Oi9zcnYvb3V0").unwrap();
    assert_eq!(cfg.username, "user");
    assert_eq!(cfg.password, "pw");
    assert_eq!(cfg.ip, "1.2.3.4");
    assert_eq!(cfg.remote_path, "/srv/out");
}

#[test]
fn parse_empty_destination_is_error() {
    let err = parse_destination_ssh("").unwrap_err();
    match err {
        TransferError::ConfigFormatError(m) => assert_eq!(m, "Destination cannot be empty"),
        _ => panic!("wrong error kind"),
    }
}

#[test]
fn parse_destination_without_at_is_error() {
    let err = parse_destination_ssh("nopath").unwrap_err();
    match err {
        TransferError::ConfigFormatError(m) => assert_eq!(m, "Invalid destination format"),
        _ => panic!("wrong error kind"),
    }
}

#[test]
fn parse_bad_credentials_is_error() {
    let err = parse_destination_ssh("user@host:path").unwrap_err();
    match err {
        TransferError::ConfigFormatError(m) => assert_eq!(m, "Invalid credentials format"),
        _ => panic!("wrong error kind"),
    }
}

#[test]
fn parse_bad_server_info_is_error() {
    let err = parse_destination_ssh("u:p@host").unwrap_err();
    match err {
        TransferError::ConfigFormatError(m) => assert_eq!(m, "Invalid server info format"),
        _ => panic!("wrong error kind"),
    }
}
