use ci_transfer::error::TransferError;

#[test]
fn each_variant_carries_its_message() {
    let e = TransferError::SourceNotFound("missing.txt".to_string());
    assert_eq!(e.message(), "missing.txt");
    let e = TransferError::IoFailure("disk full".to_string());
    assert_eq!(e.message(), "disk full");
    let e = TransferError::TransportFailure("handshake failed".to_string());
    assert_eq!(e.message(), "handshake failed");
    let e = TransferError::ConfigFormatError("bad json".to_string());
    assert_eq!(e.message(), "bad json");
}
