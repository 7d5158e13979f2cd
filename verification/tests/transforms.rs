use layers::errors::LayerError;
use layers::layers::layer0;
use layers::layers::layer1::{flip_every_other_bit, rotate_right};
use layers::layers::layer2::{combine, has_valid_parity};
use layers::layers::{layer1, layer2, layer3};

#[test]
fn test_flip_every_other_bit() {
    let input = 0b1010_1010;
    let expected = 0b1111_1111;
    assert_eq!(flip_every_other_bit(input), expected);
    assert_eq!(0b0000_0000, flip_every_other_bit(0b0101_0101));
    assert_eq!(0b0101_0101, flip_every_other_bit(0b0000_0000));
}

#[test]
fn test_rotate_right() {
    assert_eq!(0b1000_0000, rotate_right(0b0000_0001));
    assert_eq!(0b0101_0101, rotate_right(0b1010_1010));
    assert_eq!(0b1000_1000, rotate_right(0b0001_0001));
}

#[test]
fn test_flip_is_involution_everywhere() {
    for x in 0..=255u8 {
        assert_eq!(flip_every_other_bit(flip_every_other_bit(x)), x);
    }
}

#[test]
fn test_rotate_eight_times_is_identity_everywhere() {
    for x in 0..=255u8 {
        let mut y = x;
        for _ in 0..8 {
            y = rotate_right(y);
        }
        assert_eq!(y, x);
    }
}

#[test]
fn test_layer0_run_is_decode() {
    let out = layer0::run(b"<~9jqo^~>").unwrap();
    assert_eq!(out, b"Man ".to_vec());
}

#[test]
fn test_layer1_run() {
    let out = layer1::run(b"<~!NHb3!*'~>").unwrap();
    assert_eq!(out, vec![42, 255, 34, 85, 170, 0]);
}

#[test]
fn test_parity_classification() {
    // an even payload with a clear flag, all-zeroes, and all-ones are correct
    assert!(has_valid_parity(0b1011_0010));
    assert!(has_valid_parity(0b0000_0000));
    assert!(has_valid_parity(0b1111_1111));
    // flipping only the flag makes each of them incorrect
    assert!(!has_valid_parity(0b1011_0011));
    assert!(!has_valid_parity(0b0000_0001));
    assert!(!has_valid_parity(0b1111_1110));
}

#[test]
fn test_combine_misaligned() {
    // seven parity-correct bytes: not a multiple of eight
    let input = [0u8; 7];
    assert_eq!(combine(&input), Err(LayerError::MisalignedInput));
}

#[test]
fn test_combine_packs_seven_for_eight() {
    // eight survivors interleaved with parity-failing noise bytes
    let input = [130u8, 68, 255, 0, 1, 2, 43, 102, 209, 180, 4];
    let out = combine(&input).unwrap();
    assert_eq!(out, vec![130, 139, 248, 2, 172, 244, 90]);
    assert_eq!(out.len() * 8, 8 * 7);
}

#[test]
fn test_combine_empty() {
    let out = combine(&[]).unwrap();
    assert_eq!(out, Vec::<u8>::new());
}

#[test]
fn test_combine_output_length_ratio() {
    // 16 parity-correct bytes in, 14 bytes out
    let input = [0u8; 16];
    let out = combine(&input).unwrap();
    assert_eq!(out.len(), 14);
}

#[test]
fn test_layer2_run() {
    let out = layer2::run(b"<~JjfV=!<Oc`dBj#~>").unwrap();
    assert_eq!(out, vec![130, 139, 248, 2, 172, 244, 90]);
}

#[test]
fn test_layer3_run() {
    let envelope = b"<~4uZ(n;b'ea8Rd*t@UqnO((U'$rVaG!g!eiUY-%AJ,C+BXD*qG?;CjjS,qB0:)AV`<YOM,(a5,&!YH+S3/H~>";
    let out = layer3::run(envelope).unwrap();
    let expected = b"==[ Layer 4/5: Network Traffic ] secret instructions follow here.";
    assert_eq!(out, expected.to_vec());
}

#[test]
fn test_layer3_short_input() {
    // decodes to a single byte: too short to hold the 32-byte banner
    assert_eq!(layer3::run(b"<~!!~>"), Err(LayerError::TruncatedHeader));
}
