use diagweave::hex_id::HexId;

#[test]
fn hex_id_accepts_hex_digits() {
    let id = HexId::<4>::new(*b"00aF").unwrap();
    assert_eq!(id.into_inner(), *b"00aF");
    assert_eq!(id.to_text(), "00aF");
}

#[test]
fn hex_id_rejects_non_hex() {
    assert_eq!(
        HexId::<4>::new(*b"00xz").unwrap_err(),
        "invalid hex id: contains non-hex characters"
    );
}

#[test]
fn hex_id_rejects_all_zeros() {
    assert_eq!(
        HexId::<4>::new(*b"0000").unwrap_err(),
        "invalid hex id: cannot be all zeros"
    );
}

#[test]
fn hex_id_from_bytes_pads_with_zeros() {
    let id = HexId::<4>::from_bytes(b"ab").unwrap();
    assert_eq!(id.into_inner(), *b"00ab");
}

#[test]
fn hex_id_from_bytes_errors() {
    assert_eq!(HexId::<4>::from_bytes(b"abcde").unwrap_err(), "invalid hex id: input too long");
    assert_eq!(HexId::<4>::from_bytes(b"").unwrap_err(), "invalid hex id: input is empty");
    assert_eq!(HexId::<4>::from_bytes(b"0g").unwrap_err(), "invalid hex id: contains non-hex characters");
    assert_eq!(HexId::<4>::from_bytes(b"00").unwrap_err(), "invalid hex id: cannot be all zeros");
}

#[test]
fn hex_id_from_str_requires_exact_length() {
    assert_eq!(HexId::<16>::from_str("00f067aa0ba902b").unwrap_err(), "invalid hex id: length mismatch");
    let id = HexId::<16>::from_str("00f067aa0ba902b7").unwrap();
    assert_eq!(id.to_text(), "00f067aa0ba902b7");
    assert_eq!(
        HexId::<32>::from_str("00000000000000000000000000000000").unwrap_err(),
        "invalid hex id: cannot be all zeros"
    );
}

#[test]
fn hex_id_text_reads_back() {
    let id = HexId::<16>::from_bytes(b"00f067aa0BA902b7").unwrap();
    let again = HexId::<16>::from_str(&id.to_text()).unwrap();
    assert_eq!(again, id);
    let short = HexId::<8>::from_bytes(b"abc").unwrap();
    assert_eq!(short.to_text(), "00000abc");
    assert_eq!(HexId::<8>::from_str(&short.to_text()).unwrap(), short);
}
