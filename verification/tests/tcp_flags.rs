use smb_dissect::tcp::flags::Flag;
use smb_dissect::tcp::flags::FlagCollection;
use smb_dissect::tcp::flags::FlagError;
use smb_dissect::tcp::flags::FlagMask;

#[test]
fn single_flag_chars_round_trip() {
    let chars = ['F', 'S', 'R', 'P', '.', 'U', 'E', 'C'];
    for c in chars {
        let fc = FlagCollection::try_parse(&c.to_string()).unwrap();
        assert_eq!(fc.human_str(), c.to_string());
    }
}

#[test]
fn all_bitsets_round_trip() {
    for b in 0u16..=255 {
        let fc = FlagCollection::from_bits(b as u8);
        let text = fc.human_str();
        let parsed = FlagCollection::try_parse(&text).unwrap();
        assert_eq!(parsed, fc);
        assert_eq!(parsed.human_str(), text);
    }
}

#[test]
fn parse_rejects_unknown_char() {
    assert_eq!(
        FlagCollection::try_parse("[SX]"),
        Err(FlagError::InvalidFlagChar('X'))
    );
}

#[test]
fn parse_ignores_brackets() {
    let fc = FlagCollection::try_parse("[S.]").unwrap();
    assert!(fc.is_set(Flag::SYN));
    assert!(fc.is_set(Flag::ACK));
    assert!(!fc.is_set(Flag::FIN));
    assert_eq!(fc.human_str(), "S.");
}

#[test]
fn parse_canonicalizes_order() {
    let fc = FlagCollection::try_parse("CF").unwrap();
    assert_eq!(fc.human_str(), "FC");
}

#[test]
fn set_unset_is_set() {
    let mut fc = FlagCollection::new();
    assert!(fc.is_empty());
    fc.set(Flag::SYN);
    fc.set(Flag::ACK);
    assert!(fc.is_set(Flag::SYN));
    assert!(fc.is_set(Flag::ACK));
    assert!(!fc.is_set(Flag::FIN));
    fc.unset(Flag::SYN);
    assert!(!fc.is_set(Flag::SYN));
    assert!(fc.is_set(Flag::ACK));
    assert!(!fc.is_empty());
}

#[test]
fn is_set_tests_sub_collection() {
    let both = FlagCollection::try_parse("S.").unwrap();
    let syn_only = FlagCollection::try_parse("S").unwrap();
    assert!(both.is_set(syn_only));
    assert!(!syn_only.is_set(both));
}

#[test]
fn char_conversions() {
    assert_eq!(Flag::from_char('F'), Ok(Flag::FIN));
    assert_eq!(Flag::from_char('.'), Ok(Flag::ACK));
    assert_eq!(Flag::from_char('x'), Err(FlagError::InvalidFlagChar('x')));
    assert_eq!(Flag::SYN.to_char(), 'S');
    assert_eq!(Flag::CWR.to_char(), 'C');
}

#[test]
fn flag_bits_values() {
    assert_eq!(Flag::FIN.as_flag_bits(), 1);
    assert_eq!(Flag::SYN.as_flag_bits(), 2);
    assert_eq!(Flag::RST.as_flag_bits(), 4);
    assert_eq!(Flag::PSH.as_flag_bits(), 8);
    assert_eq!(Flag::ACK.as_flag_bits(), 16);
    assert_eq!(Flag::URG.as_flag_bits(), 32);
    assert_eq!(Flag::ECE.as_flag_bits(), 64);
    assert_eq!(Flag::CWR.as_flag_bits(), 128);
}

#[test]
fn bitwise_ops() {
    let a = FlagCollection::from_bits(0b0011);
    let b = FlagCollection::from_bits(0b0101);
    assert_eq!(a.bit_and(b), FlagCollection::from_bits(0b0001));
    assert_eq!(a.bit_or(b), FlagCollection::from_bits(0b0111));
    assert_eq!(a.bit_xor(b), FlagCollection::from_bits(0b0110));
    assert_eq!(a.bit_not(), FlagCollection::from_bits(0b11111100));
}

#[test]
fn try_parse_bytes_matches_char_parse() {
    let fc = FlagCollection::try_parse_bytes(b"[S.]").unwrap();
    assert_eq!(fc, FlagCollection::try_parse("[S.]").unwrap());
    assert!(FlagCollection::try_parse_bytes(b"[SX]").is_err());
}
