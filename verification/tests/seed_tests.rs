use particle_trails::seed::{Seed, SeedHash};

fn md5_low8(text: &str) -> u64 {
    let d = md5::compute(text.as_bytes());
    u64::from_le_bytes([d.0[0], d.0[1], d.0[2], d.0[3], d.0[4], d.0[5], d.0[6], d.0[7]])
}

#[test]
fn canonical_hex_parses_directly() {
    let s = Seed::from_str("0x0123456789abcdef".to_string());
    assert_eq!(s.as_hash(), 0x0123456789abcdef);
    assert_eq!(s.as_str(), "0x0123456789abcdef");
}

#[test]
fn canonical_hex_accepts_upper_case() {
    let s = Seed::from_str("0xABCDEF0123456789".to_string());
    assert_eq!(s.as_hash(), 0xabcdef0123456789);
}

#[test]
fn other_text_takes_content_hash() {
    for text in ["hello", "", "0x123", "0xg123456789abcdef", "particle trails"] {
        let s = Seed::from_str(text.to_string());
        assert_eq!(s.as_hash(), md5_low8(text), "seed text {:?}", text);
        assert_eq!(s.as_str(), text);
    }
}

#[test]
fn seventeen_hex_digits_are_not_canonical() {
    let text = "0x0123456789abcdef0";
    let s = Seed::from_str(text.to_string());
    assert_eq!(s.as_hash(), md5_low8(text));
}

#[test]
fn from_hash_round_trips_through_text() {
    let h = 0x27e3771584a46455u64;
    let s = Seed::from_hash(h);
    assert_eq!(s.as_hash(), h);
    assert_eq!(s.as_str(), "0x27e3771584a46455");
    let back = Seed::from_str(s.as_str().to_string());
    assert_eq!(back.as_hash(), h);
}

#[test]
fn fmt_hash_prints_canonical_form() {
    let s = Seed::from_hash(0xff);
    assert_eq!(s.fmt_hash().to_hex_string(), "0x00000000000000ff");
    assert_eq!(SeedHash(0).to_hex_string(), "0x0000000000000000");
}
