use barcode_pipeline::error::CODE_ACQUISITION;
use barcode_pipeline::payload::decode_base64_payload;

#[test]
fn plain_payload_decodes() {
    let payload = b"aGVsbG8=".to_vec();
    let bytes = decode_base64_payload(&payload).unwrap();
    assert_eq!(bytes, b"hello".to_vec());
}

#[test]
fn data_uri_header_is_stripped() {
    let payload = b"data:image/png;base64,aGVsbG8=".to_vec();
    let bytes = decode_base64_payload(&payload).unwrap();
    assert_eq!(bytes, b"hello".to_vec());
}

#[test]
fn malformed_payload_is_an_acquisition_error() {
    let payload = b"!!!not-base64!!!".to_vec();
    let e = decode_base64_payload(&payload).unwrap_err();
    assert_eq!(e.code, CODE_ACQUISITION);
}

#[test]
fn empty_payload_decodes_to_nothing() {
    let payload = Vec::new();
    let bytes = decode_base64_payload(&payload).unwrap();
    assert!(bytes.is_empty());
}

#[test]
fn only_the_first_comma_splits_the_header() {
    let payload = b"header,aGVsbG8=".to_vec();
    let bytes = decode_base64_payload(&payload).unwrap();
    assert_eq!(bytes, b"hello".to_vec());
}
