use helix_fork::color::{
    color_from_hex, hexyl_style, is_whitespace, parse_hexyl_color, str_chars, to_ascii_lowercase,
    trim_chars, Color, Style,
};

#[test]
fn color_names() {
    assert_eq!(parse_hexyl_color("black"), Some(Color::Black));
    assert_eq!(parse_hexyl_color("bright black"), Some(Color::Gray));
    assert_eq!(parse_hexyl_color("red"), Some(Color::Red));
    assert_eq!(parse_hexyl_color("bright red"), Some(Color::LightRed));
    assert_eq!(parse_hexyl_color("green"), Some(Color::Green));
    assert_eq!(parse_hexyl_color("bright green"), Some(Color::LightGreen));
    assert_eq!(parse_hexyl_color("yellow"), Some(Color::Yellow));
    assert_eq!(parse_hexyl_color("bright yellow"), Some(Color::LightYellow));
    assert_eq!(parse_hexyl_color("blue"), Some(Color::Blue));
    assert_eq!(parse_hexyl_color("magenta"), Some(Color::Magenta));
    assert_eq!(parse_hexyl_color("bright magenta"), Some(Color::LightMagenta));
    assert_eq!(parse_hexyl_color("bright cyan"), Some(Color::LightCyan));
    assert_eq!(parse_hexyl_color("white"), Some(Color::LightGray));
    assert_eq!(parse_hexyl_color("bright white"), Some(Color::White));
}

#[test]
fn names_ignore_case_and_surrounding_space() {
    assert_eq!(parse_hexyl_color("  Bright BLUE\n"), Some(Color::LightBlue));
    assert_eq!(parse_hexyl_color("\u{3000}Cyan "), Some(Color::Cyan));
    assert_eq!(parse_hexyl_color("brightblue"), None);
    assert_eq!(parse_hexyl_color("bright  blue"), None);
    assert_eq!(parse_hexyl_color("purple"), None);
    assert_eq!(parse_hexyl_color(""), None);
}

#[test]
fn hex_colors() {
    assert_eq!(parse_hexyl_color(" #FF0077 "), Some(Color::Rgb(255, 0, 119)));
    assert_eq!(parse_hexyl_color("#00ff0"), None);
    assert_eq!(parse_hexyl_color("#00ff00a"), None);
    assert_eq!(parse_hexyl_color("#00gg00"), None);
    let chars = str_chars("#0a0b0c");
    assert_eq!(color_from_hex(&chars), Some(Color::Rgb(10, 11, 12)));
}

#[test]
fn env_style_uses_the_color_as_foreground() {
    assert_eq!(hexyl_style("cyan"), Some(Style { fg: Some(Color::Cyan), bg: None }));
    assert_eq!(hexyl_style("nope"), None);
    assert_eq!(Style::default_style().fg(Color::Red), Style { fg: Some(Color::Red), bg: None });
}

#[test]
fn text_helpers() {
    assert!(is_whitespace('\t'));
    assert!(is_whitespace('\u{2028}'));
    assert!(!is_whitespace('x'));
    let t = trim_chars(&str_chars(" \t a b \n"));
    assert_eq!(t.iter().collect::<String>(), "a b");
    assert!(trim_chars(&str_chars("   ")).is_empty());
    let l = to_ascii_lowercase(&str_chars("AbÇ-Z"));
    assert_eq!(l.iter().collect::<String>(), "abÇ-z");
}

#[test]
fn case_and_spaces_never_matter_and_bright_differs() {
    for v in ["  CYAN ", "Bright Red", "\tbright WHITE\n", "purple "] {
        let t = v.trim();
        assert_eq!(parse_hexyl_color(v), parse_hexyl_color(&t.to_ascii_lowercase()), "{v}");
    }
    for n in ["black", "red", "green", "yellow", "blue", "magenta", "cyan", "white"] {
        let bright = format!("bright {n}");
        assert!(parse_hexyl_color(&bright).is_some());
        assert_ne!(parse_hexyl_color(n), parse_hexyl_color(&bright));
    }
}
