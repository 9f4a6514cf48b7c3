use applet_executor::ansi::{ansi_color, parse_ansi, AnsiColor};
use applet_executor::text::{parse_u64, parse_u8, trim};

/// The splitting algorithm written directly with `str` operations, with the
/// SGR code itself standing for its color.
fn split_with_str_methods(input: &str) -> Vec<(String, Option<u8>)> {
    let is_color = |code: u8| (30..=37).contains(&code) || (90..=97).contains(&code);
    let mut result = Vec::new();
    let mut current: Option<u8> = None;
    let mut remaining = input;
    while !remaining.is_empty() {
        if let Some(esc_start) = remaining.find('\x1b') {
            if esc_start > 0 {
                result.push((remaining[..esc_start].to_string(), current));
            }
            remaining = &remaining[esc_start..];
            if remaining.starts_with("\x1b[") {
                if let Some(m_pos) = remaining.find('m') {
                    for code_str in remaining[2..m_pos].split(';') {
                        if let Ok(code) = code_str.trim().parse::<u8>() {
                            if code == 0 {
                                current = None;
                            } else if is_color(code) {
                                current = Some(code);
                            }
                        }
                    }
                    remaining = &remaining[m_pos + 1..];
                    continue;
                }
            }
            remaining = &remaining[1..];
        } else {
            result.push((remaining.to_string(), current));
            break;
        }
    }
    result
}

struct Lcg(u64);

impl Lcg {
    fn next(&mut self) -> u64 {
        self.0 = self.0.wrapping_mul(6364136223846793005).wrapping_add(1442695040888963407);
        self.0 >> 33
    }
}

#[test]
fn splitting_agrees_with_str_methods() {
    let alphabet = ["\x1b", "[", "m", ";", "3", "9", "1", "0", " ", "a", "é", "\u{3000}", "+", "2", "5", "7"];
    let mut rng = Lcg(7);
    for _ in 0..20000 {
        let len = (rng.next() % 14) as usize;
        let mut input = String::new();
        for _ in 0..len {
            input.push_str(alphabet[(rng.next() % alphabet.len() as u64) as usize]);
        }
        let expected = split_with_str_methods(&input);
        let got: Vec<(String, Option<u8>)> = parse_ansi(&input)
            .into_iter()
            .map(|(text, color)| {
                let code = color.map(|c| (0..=255u8).find(|k| ansi_color(*k) == Some(c)).unwrap());
                (text, code)
            })
            .collect();
        assert_eq!(got, expected, "{input:?}");
    }
}

#[test]
fn color_codes_are_distinct() {
    let colors: Vec<AnsiColor> = (0..=255u8).filter_map(ansi_color).collect();
    assert_eq!(colors.len(), 16);
    for (i, a) in colors.iter().enumerate() {
        for b in &colors[i + 1..] {
            assert_ne!(a, b);
        }
    }
}

#[test]
fn trim_agrees_with_str_trim_on_every_char() {
    for u in 0u32..0x3100 {
        if let Some(c) = char::from_u32(u) {
            let text = format!("{c}x{c}");
            assert_eq!(trim(&text), text.trim(), "U+{u:04X}");
        }
    }
    for c in ['\u{feff}', '\u{180e}', '\u{200b}', '\u{10ffff}'] {
        let text = format!("{c}x{c}");
        assert_eq!(trim(&text), text.trim());
    }
}

#[test]
fn parsing_agrees_with_str_parse() {
    let alphabet = ["0", "1", "9", "+", "-", " ", "a", "5", "25", "6"];
    let mut rng = Lcg(11);
    for _ in 0..20000 {
        let len = (rng.next() % 24) as usize;
        let mut text = String::new();
        for _ in 0..len {
            text.push_str(alphabet[(rng.next() % alphabet.len() as u64) as usize]);
        }
        assert_eq!(parse_u64(&text), text.parse::<u64>().ok(), "{text:?}");
        assert_eq!(parse_u8(&text), text.parse::<u8>().ok(), "{text:?}");
    }
}
