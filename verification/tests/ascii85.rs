use layers::ascii85::decode;
use layers::errors::LayerError;

const WIKI_ENVELOPE: &[u8] = br#"<~9jqo^BlbD-BleB1DJ+*+F(f,q/0JhKF<GL>Cj@.4Gp$d7F!,L7@<6@)/0JDEF<G%<+EV:2F!,O<DJ+*.@<*K0@<6L(Df-\0Ec5e;DffZ(EZee.Bl.9pF"AGXBPCsi+DGm>@3BB/F*&OCAfu2/AKYi(DIb:@FD,*)+C]U=@3BN#EcYf8ATD3s@q?d$AftVqCh[NqF<G:8+EV:.+Cf>-FD5W8ARlolDIal(DId<j@<?3r@:F%a+D58'ATD4$Bl@l3De:,-DJs`8ARoFb/0JMK@qB4^F!,R<AKZ&-DfTqBG%G>uD.RTpAKYo'+CT/5+Cei#DII?(E,9)oF*2M7/c~>"#;

#[test]
fn test_decode() {
    let output = decode(WIKI_ENVELOPE).unwrap();

    let expected = "Man is distinguished, not only by his reason, but by this singular passion from other animals, which is a lust of the mind, that by a perseverance of delight in the continued and indefatigable generation of knowledge, exceeds the short vehemence of any carnal pleasure.";

    assert_eq!(String::from_utf8(output).unwrap(), expected);
}

#[test]
fn test_decode_is_deterministic() {
    let first = decode(WIKI_ENVELOPE).unwrap();
    let second = decode(WIKI_ENVELOPE).unwrap();
    assert_eq!(first, second);
}

#[test]
fn test_decode_strips_whitespace() {
    // the same group with a line feed and a carriage return inside
    let plain = decode(b"<~9jqo^~>").unwrap();
    let spaced = decode(b"<~9jq\no^\r~>").unwrap();
    assert_eq!(plain, vec![77, 97, 110, 32]);
    assert_eq!(spaced, plain);
}

#[test]
fn test_decode_partial_group() {
    // five symbols then a three-symbol trailing group: 4 + 2 output bytes
    let out = decode(b"<~9jqo^BlY~>").unwrap();
    assert_eq!(out.len(), 6);
    assert_eq!(&out[0..4], b"Man ");
}

#[test]
fn test_decode_missing_start_delimiter() {
    assert_eq!(decode(b"9jqo^~>"), Err(LayerError::MissingDelimiter));
}

#[test]
fn test_decode_missing_end_delimiter() {
    assert_eq!(decode(b"<~9jqo^"), Err(LayerError::MissingDelimiter));
}

#[test]
fn test_decode_empty_input() {
    assert_eq!(decode(b""), Err(LayerError::MissingDelimiter));
    assert_eq!(decode(b"<~~>"), Ok(Vec::new()));
}

#[test]
fn test_decode_non_ascii() {
    assert_eq!(decode(&[60, 126, 57, 200, 126, 62]), Err(LayerError::NonAsciiInput));
}

#[test]
fn test_decode_invalid_symbol() {
    // a space is neither a symbol nor tolerated whitespace
    assert_eq!(decode(b"<~9jq o^~>"), Err(LayerError::InvalidSymbol));
    // 'z' (122) sits above the symbol range
    assert_eq!(decode(b"<~9jzo^~>"), Err(LayerError::InvalidSymbol));
}

#[test]
fn test_decode_takes_first_delimiter_pair() {
    // two envelopes: the decode must use the first start and the first end
    let out = decode(b"<~9jqo^~> <~BlbD-~>").unwrap();
    assert_eq!(out, vec![77, 97, 110, 32]);
}
