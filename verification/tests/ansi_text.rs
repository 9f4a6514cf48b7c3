use applet_executor::ansi::{ansi_color, parse_ansi, AnsiColor};
use applet_executor::text::{format_u64, parse_u64, parse_u8, trim};

fn pieces(input: &str) -> Vec<(String, Option<AnsiColor>)> {
    parse_ansi(input)
}

fn piece(text: &str, color: Option<AnsiColor>) -> (String, Option<AnsiColor>) {
    (text.to_string(), color)
}

#[test]
fn colored_word_then_reset() {
    assert_eq!(pieces("\x1b[32mOK\x1b[0m"), vec![piece("OK", Some(AnsiColor::Green))]);
}

#[test]
fn error_in_red() {
    assert_eq!(pieces("\x1b[31mERROR\x1b[0m"), vec![piece("ERROR", Some(AnsiColor::Red))]);
}

#[test]
fn plain_text_is_one_piece() {
    assert_eq!(pieces("12:30:05"), vec![piece("12:30:05", None)]);
}

#[test]
fn empty_text_has_no_piece() {
    assert_eq!(pieces(""), vec![]);
}

#[test]
fn reset_returns_to_no_color() {
    assert_eq!(
        pieces("\x1b[33mWARN\x1b[0m done"),
        vec![piece("WARN", Some(AnsiColor::Yellow)), piece(" done", None)]
    );
}

#[test]
fn text_before_first_sequence_has_no_color() {
    assert_eq!(
        pieces("cpu \x1b[91m90%"),
        vec![piece("cpu ", None), piece("90%", Some(AnsiColor::BrightRed))]
    );
}

#[test]
fn several_parameters_apply_left_to_right() {
    assert_eq!(pieces("a\x1b[31;1mb"), vec![piece("a", None), piece("b", Some(AnsiColor::Red))]);
    assert_eq!(pieces("\x1b[31;34mx"), vec![piece("x", Some(AnsiColor::Blue))]);
    assert_eq!(pieces("\x1b[31;0mx"), vec![piece("x", None)]);
}

#[test]
fn parameters_are_trimmed() {
    assert_eq!(pieces("\x1b[ 96 ; 1 m x"), vec![piece(" x", Some(AnsiColor::BrightCyan))]);
}

#[test]
fn unknown_codes_keep_the_color() {
    assert_eq!(
        pieces("\x1b[32mA\x1b[99mB\x1b[256mC\x1b[mD"),
        vec![
            piece("A", Some(AnsiColor::Green)),
            piece("B", Some(AnsiColor::Green)),
            piece("C", Some(AnsiColor::Green)),
            piece("D", Some(AnsiColor::Green)),
        ]
    );
}

#[test]
fn lone_escape_is_dropped() {
    assert_eq!(pieces("x\x1bY"), vec![piece("x", None), piece("Y", None)]);
    assert_eq!(pieces("\x1b"), vec![]);
}

#[test]
fn unterminated_sequence_shows_its_text() {
    assert_eq!(pieces("\x1b[31no end"), vec![piece("[31no end", None)]);
}

#[test]
fn sequence_ends_at_first_m_anywhere_later() {
    assert_eq!(pieces("\x1b[3\x1bmz"), vec![piece("z", None)]);
}

#[test]
fn non_ascii_text_is_kept() {
    assert_eq!(
        pieces("\x1b[35m°C ✓\x1b[0m"),
        vec![piece("°C ✓", Some(AnsiColor::Magenta))]
    );
}

#[test]
fn supported_color_codes() {
    let standard = [
        AnsiColor::Black,
        AnsiColor::Red,
        AnsiColor::Green,
        AnsiColor::Yellow,
        AnsiColor::Blue,
        AnsiColor::Magenta,
        AnsiColor::Cyan,
        AnsiColor::White,
    ];
    let bright = [
        AnsiColor::BrightBlack,
        AnsiColor::BrightRed,
        AnsiColor::BrightGreen,
        AnsiColor::BrightYellow,
        AnsiColor::BrightBlue,
        AnsiColor::BrightMagenta,
        AnsiColor::BrightCyan,
        AnsiColor::BrightWhite,
    ];
    for k in 0..8u8 {
        assert_eq!(ansi_color(30 + k), Some(standard[k as usize]));
        assert_eq!(ansi_color(90 + k), Some(bright[k as usize]));
    }
    for code in [0u8, 1, 29, 38, 39, 40, 89, 98, 255] {
        assert_eq!(ansi_color(code), None);
    }
}

#[test]
fn trim_removes_unicode_white_space() {
    assert_eq!(trim("  a b \n"), "a b");
    assert_eq!(trim("\u{3000}x\u{a0}"), "x");
    assert_eq!(trim(" \t\r\n"), "");
    assert_eq!(trim(""), "");
    assert_eq!(trim("x"), "x");
}

#[test]
fn parse_like_std() {
    for text in ["0", "5", "+7", "007", "18446744073709551615", "18446744073709551616", "", "+", "-1", " 5", "5 ", "1_0", "١"] {
        assert_eq!(parse_u64(text), text.parse::<u64>().ok(), "{text:?}");
    }
    for text in ["0", "255", "256", "+12", "0000000000000000000000031", "9999999999999999999999", "a", ";"] {
        assert_eq!(parse_u8(text), text.parse::<u8>().ok(), "{text:?}");
    }
}

#[test]
fn format_like_std() {
    for n in [0u64, 5, 10, 99, 100, 1234567890, u64::MAX] {
        assert_eq!(format_u64(n), n.to_string());
    }
}

#[test]
fn format_then_parse_round_trip() {
    for n in [0u64, 1, 9, 10, 42, 65535, u64::MAX - 1, u64::MAX] {
        assert_eq!(parse_u64(&format_u64(n)), Some(n));
    }
}

#[test]
fn pieces_hold_visible_text_only() {
    for input in ["\x1b[31m\x1b[32m\x1b[0m", "a\x1b\x1b[1mb\x1b", "\x1b[m\x1b[m", "x\x1b[;;32;mY\x1b"] {
        for (text, _) in pieces(input) {
            assert!(!text.is_empty(), "{input:?}");
            assert!(!text.contains('\x1b'), "{input:?}");
        }
    }
    assert_eq!(pieces("\x1b[31m\x1b[32m\x1b[0m"), vec![]);
    assert_eq!(pieces("x\x1b[;;32;mY\x1b"), vec![piece("x", None), piece("Y", Some(AnsiColor::Green))]);
}
