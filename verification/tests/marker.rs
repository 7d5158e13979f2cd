use layers::errors::LayerError;
use layers::layers::find_input;

const MARKER: &[u8] = b"==[ Payload ]===============================================";

#[test]
fn test_find_input_slices_from_marker() {
    let mut text = Vec::new();
    text.extend_from_slice(b"==[ Instructions ]==\nsome prose\n\n");
    text.extend_from_slice(MARKER);
    text.extend_from_slice(b"\n<~9jqo^~>\n\n");

    let out = find_input(&text, MARKER).unwrap();

    let mut expected = Vec::new();
    expected.extend_from_slice(MARKER);
    expected.extend_from_slice(b"\n<~9jqo^~>");
    assert_eq!(out, expected);
}

#[test]
fn test_find_input_missing_marker() {
    assert_eq!(
        find_input(b"no payload marker here", MARKER),
        Err(LayerError::MarkerNotFound)
    );
}

#[test]
fn test_find_input_first_occurrence() {
    let out = find_input(b"xxabcyy abc zz", b"abc").unwrap();
    assert_eq!(out, b"abcyy abc zz".to_vec());
}

#[test]
fn test_find_input_trims_both_ends() {
    // the found suffix starts at the needle; trailing whitespace goes,
    // and a needle of whitespace is trimmed away entirely
    let out = find_input(b"a \t\nb", b" \t").unwrap();
    assert_eq!(out, b"b".to_vec());
}

#[test]
fn test_find_input_empty_needle() {
    let out = find_input(b"  hi  ", b"").unwrap();
    assert_eq!(out, b"hi".to_vec());
}
