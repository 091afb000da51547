use paneboard::fraction::Fraction;
use paneboard::keymap::{hex_string, keycode_to_xml_key, usage_to_key_name, vk_to_hid_usage};
use paneboard::keystate::{is_chromium_based, should_use_observer_on_error, KeyState};
use paneboard::text::{decimal_string, parse_u32, str_contains, trim};

#[test]
fn fraction_parse_reduces() {
    assert_eq!(Fraction::parse("2/4"), Ok(Fraction { num: 1, den: 2 }));
    assert_eq!(Fraction::parse(" 3 "), Ok(Fraction { num: 3, den: 1 }));
    assert_eq!(Fraction::parse("0/5"), Ok(Fraction { num: 0, den: 1 }));
    assert!(Fraction::parse("1/0").is_err());
    assert!(Fraction::parse("a/2").is_err());
    assert!(Fraction::parse("1/").is_err());
    assert!(Fraction::parse("-1").is_err());
    assert!(Fraction::parse("").is_err());
}

#[test]
fn fraction_arithmetic() {
    let a = Fraction { num: 1, den: 2 };
    let b = Fraction { num: 1, den: 3 };
    assert_eq!(a.add(&b), Some(Fraction { num: 5, den: 6 }));
    assert_eq!(a.mul(&b), Some(Fraction { num: 1, den: 6 }));
    assert_eq!(a.add(&a), Some(Fraction { num: 1, den: 1 }));
    assert_eq!(Fraction::gcd(12, 18), 6);
    assert_eq!(Fraction::reduce(6, 8), Some(Fraction { num: 3, den: 4 }));
    assert_eq!(Fraction::reduce(1 << 40, 1), None);
    let big = Fraction { num: 1, den: 4_294_967_291 };
    let other = Fraction { num: 1, den: 4_294_967_279 };
    assert_eq!(big.mul(&other), None);
}

#[test]
fn text_helpers() {
    assert!(str_contains("DELL U2720", "U27"));
    assert!(!str_contains("LG", "U27"));
    assert!(str_contains("x", ""));
    assert_eq!(trim("  a b \t"), "a b");
    assert_eq!(parse_u32("+42"), Some(42));
    assert_eq!(parse_u32("4294967296"), None);
    assert_eq!(parse_u32("4294967295"), Some(4294967295));
    assert_eq!(decimal_string(0), "0");
    assert_eq!(decimal_string(1207), "1207");
}

#[test]
fn keymap_tables() {
    assert_eq!(keycode_to_xml_key(0x00), Some("a"));
    assert_eq!(keycode_to_xml_key(0x73), Some("home"));
    assert_eq!(keycode_to_xml_key(0x79), Some("pagedown"));
    assert_eq!(keycode_to_xml_key(0x37), None);
    assert_eq!(vk_to_hid_usage(0x00), Some(0x04));
    assert_eq!(vk_to_hid_usage(0x36), Some(0xE7));
    assert_eq!(vk_to_hid_usage(0xFF), None);
    assert_eq!(usage_to_key_name(0x04), "a");
    assert_eq!(usage_to_key_name(0x31), "\\");
    assert_eq!(usage_to_key_name(0x0B), "h");
    assert_eq!(usage_to_key_name(0xE0), "0xE0");
    assert_eq!(usage_to_key_name(0x03), "0x03");
    assert_eq!(usage_to_key_name(0x1234), "0x1234");
    assert_eq!(hex_string(255, 4), "00FF");
}

#[test]
fn key_state_line() {
    let mut k = KeyState::new();
    k.left_shift = true;
    k.right_cmd = true;
    k.pressed_order = vec![0x04, 0x05];
    assert_eq!(k.format_output(), "LSH rsh lct rct lal ral lme RME || Keys: a b");
    assert_eq!(KeyState::new().format_output(), "lsh rsh lct rct lal ral lme rme || Keys: ");
}

#[test]
fn app_tags() {
    assert!(is_chromium_based("com.google.Chrome"));
    assert!(is_chromium_based("company.thebrowser.Browser"));
    assert!(!is_chromium_based("com.google.Chrome.beta"));
    assert!(!is_chromium_based("com.apple.Safari"));
    assert!(should_use_observer_on_error("tile failed: ax_not_ready_retry_needed"));
    assert!(should_use_observer_on_error("ax_cannot_complete_retry_needed"));
    assert!(!should_use_observer_on_error("ax_permission_missing_or_revoked"));
}
