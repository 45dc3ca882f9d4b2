use man_tui::app::Theme;
use man_tui::colorize::ManColorizer;

#[test]
fn usual_section_headers() {
    let c = ManColorizer::new(Theme::Dark);
    assert!(c.is_section_header("NAME"));
    assert!(c.is_section_header("SEE ALSO"));
    assert!(c.is_section_header("EXIT STATUS"));
    assert!(c.is_section_header("OPTIONS 2"));
}

#[test]
fn header_prefix_with_some_lower_case() {
    let c = ManColorizer::new(Theme::Light);
    assert!(c.is_section_header("DESCRIPTION of x"));
    assert!(!c.is_section_header("Hello WORLD"));
}

#[test]
fn header_length_limits() {
    let c = ManColorizer::new(Theme::Dark);
    assert!(!c.is_section_header("A"));
    assert!(c.is_section_header("AB"));
    assert!(c.is_section_header(&"A".repeat(30)));
    assert!(!c.is_section_header(&"A".repeat(31)));
}

#[test]
fn lower_case_line_is_no_header() {
    let c = ManColorizer::new(Theme::Dark);
    assert!(!c.is_section_header("name"));
    assert!(!c.is_section_header("Name"));
}

#[test]
fn ratio_counts_bytes() {
    let c = ManColorizer::new(Theme::Dark);
    // Three upper-case letters in five bytes: not more than seven tenths.
    assert!(!c.is_section_header("ÉTÉ"));
}

#[test]
fn ratio_boundary_is_strict() {
    let c = ManColorizer::new(Theme::Dark);
    // Seven of ten bytes are header characters: exactly seven tenths.
    assert!(!c.is_section_header("NAMEABCxyz"));
    // Eight of ten.
    assert!(c.is_section_header("NAMEABCDyz"));
}

#[test]
fn code_like_lines() {
    let c = ManColorizer::new(Theme::Dark);
    assert!(c.looks_like_code("ls [-a]"));
    assert!(c.looks_like_code("a | b"));
    assert!(c.looks_like_code("call foo()"));
    assert!(c.looks_like_code("<file>"));
    assert!(c.looks_like_code("{x}"));
    assert!(c.looks_like_code("x[]"));
    assert!(!c.looks_like_code("plain words"));
    assert!(!c.looks_like_code("only [ one"));
    assert!(!c.looks_like_code("( alone"));
}
