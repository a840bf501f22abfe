use heliosav_layers::score::Score;
use heliosav_layers::unpacking::{
    assess_unpacking, decode_base64, encode_base64, looks_like_pe, PackerFamily,
};

#[test]
fn recognizes_packer_markers_without_unpacking_or_execution() {
    let assessment = assess_unpacking(b"UPX0 UPX1 UPX!");
    assert_eq!(assessment.packer, Some(PackerFamily::Upx));
    assert!(assessment
        .indicators
        .iter()
        .any(|indicator| indicator == "packer_detected:upx"));
}

fn payload() -> Vec<u8> {
    let mut payload = vec![0u8; 96];
    payload[0..2].copy_from_slice(b"MZ");
    payload[0x3c..0x40].copy_from_slice(&0x40u32.to_le_bytes());
    payload[0x40..0x44].copy_from_slice(b"PE\0\0");
    payload
}

#[test]
fn detects_base64_embedded_pe_header() {
    let encoded = encode_base64(&payload());
    let assessment = assess_unpacking(&encoded);
    assert_eq!(assessment.decoded_payload_count, 1);
    assert!(assessment.score().at_least(Score::hundredths(65)));
}

#[test]
fn base64_reads_back() {
    for data in [&b"f"[..], b"fo", b"foo", b"foob", b"fooba", b"foobar"] {
        assert_eq!(decode_base64(&encode_base64(data)).as_deref(), Some(data));
    }
    assert_eq!(encode_base64(b"foobar"), b"Zm9vYmFy");
    assert_eq!(decode_base64(b"Zm9*"), None);
    assert_eq!(decode_base64(&encode_base64(b"")), None);
}

#[test]
fn an_xored_image_is_seen() {
    assert!(looks_like_pe(&payload()));
    let hidden: Vec<u8> = payload().iter().map(|b| b ^ 0x5a).collect();
    assert!(!looks_like_pe(&hidden));
    assert!(assess_unpacking(&hidden).decoded_payload_count >= 1);
}

#[test]
fn ordinary_bytes_are_not_packed() {
    let assessment = assess_unpacking(b"ordinary text");
    assert_eq!(assessment.packer, None);
    assert_eq!(assessment.score().units, 0);
}
