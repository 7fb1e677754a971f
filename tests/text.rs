use piemme::text::{first_line, trim_end_text, trim_text, white_space};

#[test]
fn white_space_matches_std() {
    for code in 0u32..0x11000 {
        if let Some(c) = char::from_u32(code) {
            assert_eq!(white_space(c), c.is_whitespace(), "U+{:04X}", code);
        }
    }
}

#[test]
fn trimming_matches_std() {
    let samples = [
        "",
        "   ",
        "plain",
        "  both sides \t\n",
        "\u{3000}ideographic\u{3000}",
        "\u{85}next line\u{a0}",
        "\u{180e}mongolian\u{180e}",
        "inner  space  kept",
        "\u{2028}\u{2029}x\u{202f}\u{205f}",
    ];
    for s in samples {
        assert_eq!(trim_text(s), s.trim(), "{:?}", s);
        assert_eq!(trim_end_text(s), s.trim_end(), "{:?}", s);
    }
}

#[test]
fn first_line_matches_std() {
    let samples = ["", "abc", "abc\r", "a\r\nb", "\n", "x\ry\nz", "\r\n", "one\ntwo\n", "  "];
    for s in samples {
        assert_eq!(first_line(s), s.lines().next().unwrap_or(""), "{:?}", s);
    }
}
