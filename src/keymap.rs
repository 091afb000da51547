//! Mapping between virtual key codes, HID usages and the key names of
//! the configuration file.
use vstd::prelude::*;

verus! {

/// The configuration key name of a virtual key code; `None` for modifiers
/// and keys outside the vocabulary.
pub open spec fn xml_key_of(keycode: u16) -> Option<Seq<char>> {
    match keycode {
        0x00 => Some("a"@),
        0x0B => Some("b"@),
        0x08 => Some("c"@),
        0x02 => Some("d"@),
        0x0E => Some("e"@),
        0x03 => Some("f"@),
        0x05 => Some("g"@),
        0x04 => Some("h"@),
        0x22 => Some("i"@),
        0x26 => Some("j"@),
        0x28 => Some("k"@),
        0x25 => Some("l"@),
        0x2E => Some("m"@),
        0x2D => Some("n"@),
        0x1F => Some("o"@),
        0x23 => Some("p"@),
        0x0C => Some("q"@),
        0x0F => Some("r"@),
        0x01 => Some("s"@),
        0x11 => Some("t"@),
        0x20 => Some("u"@),
        0x09 => Some("v"@),
        0x0D => Some("w"@),
        0x07 => Some("x"@),
        0x10 => Some("y"@),
        0x06 => Some("z"@),
        0x1D => Some("0"@),
        0x12 => Some("1"@),
        0x13 => Some("2"@),
        0x14 => Some("3"@),
        0x15 => Some("4"@),
        0x17 => Some("5"@),
        0x16 => Some("6"@),
        0x1A => Some("7"@),
        0x1C => Some("8"@),
        0x19 => Some("9"@),
        0x7A => Some("f1"@),
        0x78 => Some("f2"@),
        0x63 => Some("f3"@),
        0x76 => Some("f4"@),
        0x60 => Some("f5"@),
        0x61 => Some("f6"@),
        0x62 => Some("f7"@),
        0x64 => Some("f8"@),
        0x65 => Some("f9"@),
        0x6D => Some("f10"@),
        0x67 => Some("f11"@),
        0x6F => Some("f12"@),
        0x7E => Some("up"@),
        0x7D => Some("down"@),
        0x7B => Some("left"@),
        0x7C => Some("right"@),
        0x73 => Some("home"@),
        0x77 => Some("end"@),
        0x74 => Some("pageup"@),
        0x79 => Some("pagedown"@),
        0x35 => Some("escape"@),
        0x30 => Some("tab"@),
        0x31 => Some("space"@),
        0x24 => Some("enter"@),
        0x33 => Some("backspace"@),
        0x75 => Some("delete"@),
        0x32 => Some("grave"@),
        0x1B => Some("minus"@),
        0x18 => Some("equals"@),
        0x21 => Some("leftbracket"@),
        0x1E => Some("rightbracket"@),
        0x2A => Some("backslash"@),
        0x29 => Some("semicolon"@),
        0x27 => Some("apostrophe"@),
        0x2B => Some("comma"@),
        0x2F => Some("period"@),
        0x2C => Some("slash"@),
        0x52 => Some("numpad0"@),
        0x53 => Some("numpad1"@),
        0x54 => Some("numpad2"@),
        0x55 => Some("numpad3"@),
        0x56 => Some("numpad4"@),
        0x57 => Some("numpad5"@),
        0x58 => Some("numpad6"@),
        0x59 => Some("numpad7"@),
        0x5B => Some("numpad8"@),
        0x5C => Some("numpad9"@),
        0x45 => Some("numpadplus"@),
        0x4E => Some("numpadminus"@),
        0x43 => Some("numpadmultiply"@),
        0x4B => Some("numpaddivide"@),
        0x51 => Some("numpadequals"@),
        0x41 => Some("numpadperiod"@),
        0x4C => Some("numpadenter"@),
        _ => None,
    }
}

/// Maps a virtual key code to its configuration key name.
pub fn keycode_to_xml_key(keycode: u16) -> (r: Option<&'static str>)
    ensures
        match r {
            Some(s) => xml_key_of(keycode) == Some(s@),
            None => xml_key_of(keycode) is None,
        },
{
    match keycode {
        0x00 => Some("a"),
        0x0B => Some("b"),
        0x08 => Some("c"),
        0x02 => Some("d"),
        0x0E => Some("e"),
        0x03 => Some("f"),
        0x05 => Some("g"),
        0x04 => Some("h"),
        0x22 => Some("i"),
        0x26 => Some("j"),
        0x28 => Some("k"),
        0x25 => Some("l"),
        0x2E => Some("m"),
        0x2D => Some("n"),
        0x1F => Some("o"),
        0x23 => Some("p"),
        0x0C => Some("q"),
        0x0F => Some("r"),
        0x01 => Some("s"),
        0x11 => Some("t"),
        0x20 => Some("u"),
        0x09 => Some("v"),
        0x0D => Some("w"),
        0x07 => Some("x"),
        0x10 => Some("y"),
        0x06 => Some("z"),
        0x1D => Some("0"),
        0x12 => Some("1"),
        0x13 => Some("2"),
        0x14 => Some("3"),
        0x15 => Some("4"),
        0x17 => Some("5"),
        0x16 => Some("6"),
        0x1A => Some("7"),
        0x1C => Some("8"),
        0x19 => Some("9"),
        0x7A => Some("f1"),
        0x78 => Some("f2"),
        0x63 => Some("f3"),
        0x76 => Some("f4"),
        0x60 => Some("f5"),
        0x61 => Some("f6"),
        0x62 => Some("f7"),
        0x64 => Some("f8"),
        0x65 => Some("f9"),
        0x6D => Some("f10"),
        0x67 => Some("f11"),
        0x6F => Some("f12"),
        0x7E => Some("up"),
        0x7D => Some("down"),
        0x7B => Some("left"),
        0x7C => Some("right"),
        0x73 => Some("home"),
        0x77 => Some("end"),
        0x74 => Some("pageup"),
        0x79 => Some("pagedown"),
        0x35 => Some("escape"),
        0x30 => Some("tab"),
        0x31 => Some("space"),
        0x24 => Some("enter"),
        0x33 => Some("backspace"),
        0x75 => Some("delete"),
        0x32 => Some("grave"),
        0x1B => Some("minus"),
        0x18 => Some("equals"),
        0x21 => Some("leftbracket"),
        0x1E => Some("rightbracket"),
        0x2A => Some("backslash"),
        0x29 => Some("semicolon"),
        0x27 => Some("apostrophe"),
        0x2B => Some("comma"),
        0x2F => Some("period"),
        0x2C => Some("slash"),
        0x52 => Some("numpad0"),
        0x53 => Some("numpad1"),
        0x54 => Some("numpad2"),
        0x55 => Some("numpad3"),
        0x56 => Some("numpad4"),
        0x57 => Some("numpad5"),
        0x58 => Some("numpad6"),
        0x59 => Some("numpad7"),
        0x5B => Some("numpad8"),
        0x5C => Some("numpad9"),
        0x45 => Some("numpadplus"),
        0x4E => Some("numpadminus"),
        0x43 => Some("numpadmultiply"),
        0x4B => Some("numpaddivide"),
        0x51 => Some("numpadequals"),
        0x41 => Some("numpadperiod"),
        0x4C => Some("numpadenter"),
        _ => None,
    }
}

/// The HID usage of a virtual key code; `None` for keys not tracked.
pub open spec fn hid_usage_of(vk: u16) -> Option<u32> {
    match vk {
        0x00 => Some(0x04),
        0x0B => Some(0x05),
        0x08 => Some(0x06),
        0x02 => Some(0x07),
        0x0E => Some(0x08),
        0x03 => Some(0x09),
        0x05 => Some(0x0A),
        0x04 => Some(0x0B),
        0x22 => Some(0x0C),
        0x26 => Some(0x0D),
        0x28 => Some(0x0E),
        0x25 => Some(0x0F),
        0x2E => Some(0x10),
        0x2D => Some(0x11),
        0x1F => Some(0x12),
        0x23 => Some(0x13),
        0x0C => Some(0x14),
        0x0F => Some(0x15),
        0x01 => Some(0x16),
        0x11 => Some(0x17),
        0x20 => Some(0x18),
        0x09 => Some(0x19),
        0x0D => Some(0x1A),
        0x07 => Some(0x1B),
        0x10 => Some(0x1C),
        0x06 => Some(0x1D),
        0x12 => Some(0x1E),
        0x13 => Some(0x1F),
        0x14 => Some(0x20),
        0x15 => Some(0x21),
        0x17 => Some(0x22),
        0x16 => Some(0x23),
        0x1A => Some(0x24),
        0x1C => Some(0x25),
        0x19 => Some(0x26),
        0x1D => Some(0x27),
        0x24 => Some(0x28),
        0x35 => Some(0x29),
        0x33 => Some(0x2A),
        0x30 => Some(0x2B),
        0x31 => Some(0x2C),
        0x1B => Some(0x2D),
        0x18 => Some(0x2E),
        0x21 => Some(0x2F),
        0x1E => Some(0x30),
        0x2A => Some(0x31),
        0x29 => Some(0x33),
        0x27 => Some(0x34),
        0x32 => Some(0x35),
        0x2B => Some(0x36),
        0x2F => Some(0x37),
        0x2C => Some(0x38),
        0x7A => Some(0x3A),
        0x78 => Some(0x3B),
        0x63 => Some(0x3C),
        0x76 => Some(0x3D),
        0x60 => Some(0x3E),
        0x61 => Some(0x3F),
        0x62 => Some(0x40),
        0x64 => Some(0x41),
        0x65 => Some(0x42),
        0x6D => Some(0x43),
        0x67 => Some(0x44),
        0x6F => Some(0x45),
        0x72 => Some(0x49),
        0x73 => Some(0x4A),
        0x74 => Some(0x4B),
        0x75 => Some(0x4C),
        0x77 => Some(0x4D),
        0x79 => Some(0x4E),
        0x7C => Some(0x4F),
        0x7B => Some(0x50),
        0x7D => Some(0x51),
        0x7E => Some(0x52),
        0x3B => Some(0xE0),
        0x38 => Some(0xE1),
        0x3A => Some(0xE2),
        0x37 => Some(0xE3),
        0x3E => Some(0xE4),
        0x3C => Some(0xE5),
        0x3D => Some(0xE6),
        0x36 => Some(0xE7),
        _ => None,
    }
}

/// Maps a virtual key code to its HID usage.
pub fn vk_to_hid_usage(vk: u16) -> (r: Option<u32>)
    ensures
        r == hid_usage_of(vk),
{
    match vk {
        0x00 => Some(0x04),
        0x0B => Some(0x05),
        0x08 => Some(0x06),
        0x02 => Some(0x07),
        0x0E => Some(0x08),
        0x03 => Some(0x09),
        0x05 => Some(0x0A),
        0x04 => Some(0x0B),
        0x22 => Some(0x0C),
        0x26 => Some(0x0D),
        0x28 => Some(0x0E),
        0x25 => Some(0x0F),
        0x2E => Some(0x10),
        0x2D => Some(0x11),
        0x1F => Some(0x12),
        0x23 => Some(0x13),
        0x0C => Some(0x14),
        0x0F => Some(0x15),
        0x01 => Some(0x16),
        0x11 => Some(0x17),
        0x20 => Some(0x18),
        0x09 => Some(0x19),
        0x0D => Some(0x1A),
        0x07 => Some(0x1B),
        0x10 => Some(0x1C),
        0x06 => Some(0x1D),
        0x12 => Some(0x1E),
        0x13 => Some(0x1F),
        0x14 => Some(0x20),
        0x15 => Some(0x21),
        0x17 => Some(0x22),
        0x16 => Some(0x23),
        0x1A => Some(0x24),
        0x1C => Some(0x25),
        0x19 => Some(0x26),
        0x1D => Some(0x27),
        0x24 => Some(0x28),
        0x35 => Some(0x29),
        0x33 => Some(0x2A),
        0x30 => Some(0x2B),
        0x31 => Some(0x2C),
        0x1B => Some(0x2D),
        0x18 => Some(0x2E),
        0x21 => Some(0x2F),
        0x1E => Some(0x30),
        0x2A => Some(0x31),
        0x29 => Some(0x33),
        0x27 => Some(0x34),
        0x32 => Some(0x35),
        0x2B => Some(0x36),
        0x2F => Some(0x37),
        0x2C => Some(0x38),
        0x7A => Some(0x3A),
        0x78 => Some(0x3B),
        0x63 => Some(0x3C),
        0x76 => Some(0x3D),
        0x60 => Some(0x3E),
        0x61 => Some(0x3F),
        0x62 => Some(0x40),
        0x64 => Some(0x41),
        0x65 => Some(0x42),
        0x6D => Some(0x43),
        0x67 => Some(0x44),
        0x6F => Some(0x45),
        0x72 => Some(0x49),
        0x73 => Some(0x4A),
        0x74 => Some(0x4B),
        0x75 => Some(0x4C),
        0x77 => Some(0x4D),
        0x79 => Some(0x4E),
        0x7C => Some(0x4F),
        0x7B => Some(0x50),
        0x7D => Some(0x51),
        0x7E => Some(0x52),
        0x3B => Some(0xE0),
        0x38 => Some(0xE1),
        0x3A => Some(0xE2),
        0x37 => Some(0xE3),
        0x3E => Some(0xE4),
        0x3C => Some(0xE5),
        0x3D => Some(0xE6),
        0x36 => Some(0xE7),
        _ => None,
    }
}

/// The short display name of a HID usage; others as `0x` and at least two
/// upper-case hex digits.
pub open spec fn usage_name(usage: u32) -> Seq<char> {
    match usage {
        0x04 => "a"@,
        0x05 => "b"@,
        0x06 => "c"@,
        0x07 => "d"@,
        0x08 => "e"@,
        0x09 => "f"@,
        0x0A => "g"@,
        0x0B => "h"@,
        0x0C => "i"@,
        0x0D => "j"@,
        0x0E => "k"@,
        0x0F => "l"@,
        0x10 => "m"@,
        0x11 => "n"@,
        0x12 => "o"@,
        0x13 => "p"@,
        0x14 => "q"@,
        0x15 => "r"@,
        0x16 => "s"@,
        0x17 => "t"@,
        0x18 => "u"@,
        0x19 => "v"@,
        0x1A => "w"@,
        0x1B => "x"@,
        0x1C => "y"@,
        0x1D => "z"@,
        0x1E => "1"@,
        0x1F => "2"@,
        0x20 => "3"@,
        0x21 => "4"@,
        0x22 => "5"@,
        0x23 => "6"@,
        0x24 => "7"@,
        0x25 => "8"@,
        0x26 => "9"@,
        0x27 => "0"@,
        0x28 => "enter"@,
        0x29 => "esc"@,
        0x2A => "backspace"@,
        0x2B => "tab"@,
        0x2C => "space"@,
        0x2D => "-"@,
        0x2E => "="@,
        0x2F => "["@,
        0x30 => "]"@,
        0x31 => "\\"@,
        0x33 => ";"@,
        0x34 => "'"@,
        0x35 => "`"@,
        0x36 => ","@,
        0x37 => "."@,
        0x38 => "/"@,
        0x3A => "f1"@,
        0x3B => "f2"@,
        0x3C => "f3"@,
        0x3D => "f4"@,
        0x3E => "f5"@,
        0x3F => "f6"@,
        0x40 => "f7"@,
        0x41 => "f8"@,
        0x42 => "f9"@,
        0x43 => "f10"@,
        0x44 => "f11"@,
        0x45 => "f12"@,
        0x49 => "ins"@,
        0x4A => "home"@,
        0x4B => "pgup"@,
        0x4C => "del"@,
        0x4D => "end"@,
        0x4E => "pgdn"@,
        0x4F => "right"@,
        0x50 => "left"@,
        0x51 => "down"@,
        0x52 => "up"@,
        _ => seq!['0', 'x'] + hex_upper(usage as nat, 2),
    }
}

/// Names a HID usage for the key-state display.
pub fn usage_to_key_name(usage: u32) -> (r: String)
    ensures
        r@ == usage_name(usage),
{
    match usage {
        0x04 => String::from_str("a"),
        0x05 => String::from_str("b"),
        0x06 => String::from_str("c"),
        0x07 => String::from_str("d"),
        0x08 => String::from_str("e"),
        0x09 => String::from_str("f"),
        0x0A => String::from_str("g"),
        0x0B => String::from_str("h"),
        0x0C => String::from_str("i"),
        0x0D => String::from_str("j"),
        0x0E => String::from_str("k"),
        0x0F => String::from_str("l"),
        0x10 => String::from_str("m"),
        0x11 => String::from_str("n"),
        0x12 => String::from_str("o"),
        0x13 => String::from_str("p"),
        0x14 => String::from_str("q"),
        0x15 => String::from_str("r"),
        0x16 => String::from_str("s"),
        0x17 => String::from_str("t"),
        0x18 => String::from_str("u"),
        0x19 => String::from_str("v"),
        0x1A => String::from_str("w"),
        0x1B => String::from_str("x"),
        0x1C => String::from_str("y"),
        0x1D => String::from_str("z"),
        0x1E => String::from_str("1"),
        0x1F => String::from_str("2"),
        0x20 => String::from_str("3"),
        0x21 => String::from_str("4"),
        0x22 => String::from_str("5"),
        0x23 => String::from_str("6"),
        0x24 => String::from_str("7"),
        0x25 => String::from_str("8"),
        0x26 => String::from_str("9"),
        0x27 => String::from_str("0"),
        0x28 => String::from_str("enter"),
        0x29 => String::from_str("esc"),
        0x2A => String::from_str("backspace"),
        0x2B => String::from_str("tab"),
        0x2C => String::from_str("space"),
        0x2D => String::from_str("-"),
        0x2E => String::from_str("="),
        0x2F => String::from_str("["),
        0x30 => String::from_str("]"),
        0x31 => String::from_str("\\"),
        0x33 => String::from_str(";"),
        0x34 => String::from_str("'"),
        0x35 => String::from_str("`"),
        0x36 => String::from_str(","),
        0x37 => String::from_str("."),
        0x38 => String::from_str("/"),
        0x3A => String::from_str("f1"),
        0x3B => String::from_str("f2"),
        0x3C => String::from_str("f3"),
        0x3D => String::from_str("f4"),
        0x3E => String::from_str("f5"),
        0x3F => String::from_str("f6"),
        0x40 => String::from_str("f7"),
        0x41 => String::from_str("f8"),
        0x42 => String::from_str("f9"),
        0x43 => String::from_str("f10"),
        0x44 => String::from_str("f11"),
        0x45 => String::from_str("f12"),
        0x49 => String::from_str("ins"),
        0x4A => String::from_str("home"),
        0x4B => String::from_str("pgup"),
        0x4C => String::from_str("del"),
        0x4D => String::from_str("end"),
        0x4E => String::from_str("pgdn"),
        0x4F => String::from_str("right"),
        0x50 => String::from_str("left"),
        0x51 => String::from_str("down"),
        0x52 => String::from_str("up"),
        _ => {
            let mut s = String::from_str("0x");
            proof {
                reveal_strlit("0x");
            }
            let h = hex_string(usage, 2);
            s.append(h.as_str());
            assert(s@ =~= seq!['0', 'x'] + hex_upper(usage as nat, 2));
            s
        },
    }
}

/// Upper-case hexadecimal digits.
pub open spec fn hex_chars() -> Seq<char> {
    "0123456789ABCDEF"@
}

/// The hexadecimal digits of `n`, most significant first.
pub open spec fn hex_digits(n: nat) -> Seq<char>
    decreases n,
{
    if n < 16 {
        seq![hex_chars()[n as int]]
    } else {
        hex_digits(n / 16).push(hex_chars()[(n % 16) as int])
    }
}

/// `hex_digits(n)`, left-padded with `0` to at least `width` digits.
pub open spec fn hex_upper(n: nat, width: nat) -> Seq<char> {
    let d = hex_digits(n);
    if d.len() < width {
        Seq::new((width - d.len()) as nat, |i: int| '0') + d
    } else {
        d
    }
}

/// Upper-case hexadecimal of `n` with at least `width` digits.
pub fn hex_string(n: u32, width: usize) -> (r: String)
    requires
        width <= 16,
    ensures
        r@ == hex_upper(n as nat, width as nat),
{
    proof {
        reveal_strlit("0123456789ABCDEF");
        reveal_strlit("0");
    }
    let digits = "0123456789ABCDEF";
    let mut s = String::new();
    let mut q: u32 = n;
    loop
        invariant_except_break
            hex_digits(n as nat) == hex_digits(q as nat) + s@,
        invariant
            digits@ == hex_chars(),
            hex_chars().len() == 16,
        ensures
            hex_digits(n as nat) == s@,
        decreases q,
    {
        let d = (q % 16) as usize;
        let part = digits.substring_char(d, d + 1);
        assert(part@ =~= seq![hex_chars()[d as int]]);
        let ghost old_s = s@;
        s = String::from_str(part).concat(s.as_str());
        if q < 16 {
            assert(hex_digits(q as nat) == seq![hex_chars()[d as int]]);
            assert(hex_digits(n as nat) =~= s@);
            break;
        }
        assert(hex_digits(q as nat) == hex_digits((q / 16) as nat).push(hex_chars()[d as int]));
        assert(hex_digits((q / 16) as nat).push(hex_chars()[d as int]) + old_s =~= hex_digits(
            (q / 16) as nat,
        ) + s@);
        q = q / 16;
    }
    let ghost d = s@;
    let len = s.as_str().unicode_len();
    if len >= width {
        return s;
    }
    let mut pad: usize = 0;
    while pad < width - len
        invariant
            "0"@ == seq!['0'],
            d == hex_digits(n as nat),
            len == d.len(),
            len < width,
            pad <= width - len,
            s@ == Seq::new(pad as nat, |i: int| '0') + d,
        decreases width - len - pad,
    {
        s = String::from_str("0").concat(s.as_str());
        assert(Seq::new((pad + 1) as nat, |i: int| '0') + d =~= "0"@ + (Seq::new(pad as nat, |i: int| '0') + d));
        pad = pad + 1;
    }
    s
}

} // verus!
