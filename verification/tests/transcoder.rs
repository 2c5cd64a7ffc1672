use cunny_code::codec::CunnyCode;
use cunny_code::codec::Direction;
use cunny_code::codec::detect_direction;
use cunny_code::glyphs::CASE_MARKER;
use cunny_code::glyphs::DASH_GLYPH;
use cunny_code::glyphs::DOT_GLYPH;

fn chars_of(s: &str) -> Vec<char> {
    s.chars().collect()
}

fn text_of(v: &[char]) -> String {
    v.iter().collect()
}

/// Writes a code as a readable dot/dash pattern: '.' for the dot glyph,
/// '-' for the dash glyph.
fn code(pattern: &str) -> String {
    pattern
        .chars()
        .map(|c| if c == '.' { DOT_GLYPH } else { DASH_GLYPH })
        .collect()
}

#[test]
fn encodes_single_letters() {
    let cc = CunnyCode::new();
    let r = cc.encode(&chars_of("sos"));
    let expected = format!("{} {} {}", code("..."), code("---"), code("..."));
    assert_eq!(text_of(&r.text), expected);
    assert!(r.unencodable.is_empty());
}

#[test]
fn encodes_digits_and_punctuation() {
    let cc = CunnyCode::new();
    let r = cc.encode(&chars_of("1.9"));
    let expected = format!("{} {} {}", code(".----"), code(".-.-.-"), code("----."));
    assert_eq!(text_of(&r.text), expected);
    assert!(r.unencodable.is_empty());
}

#[test]
fn encodes_uppercase_with_marker() {
    let cc = CunnyCode::new();
    let r = cc.encode(&chars_of("Ab"));
    let expected = format!("{}{} {}", CASE_MARKER, code(".-"), code("-..."));
    assert_eq!(text_of(&r.text), expected);
}

#[test]
fn encodes_the_marker_character_itself() {
    let cc = CunnyCode::new();
    let r = cc.encode(&chars_of("^"));
    assert_eq!(text_of(&r.text), code("---.---"));
    let back = cc.decode(&r.text);
    assert_eq!(text_of(&back.text), "^");
}

#[test]
fn encode_trims_trailing_whitespace_once() {
    let cc = CunnyCode::new();
    let r = cc.encode(&chars_of("AB \t\n"));
    let expected = format!(
        "{}{} {}{}",
        CASE_MARKER,
        code(".-"),
        CASE_MARKER,
        code("-...")
    );
    assert_eq!(text_of(&r.text), expected);
}

#[test]
fn encode_of_empty_input_is_empty() {
    let cc = CunnyCode::new();
    let r = cc.encode(&chars_of(""));
    assert!(r.text.is_empty());
    assert!(r.unencodable.is_empty());
    let d = cc.decode(&chars_of(""));
    assert!(d.text.is_empty());
    assert!(d.undecodable.is_empty());
}

#[test]
fn decodes_bare_tokens_to_lowercase() {
    let cc = CunnyCode::new();
    let input = format!("{} {}", code(".-"), code("-..."));
    let r = cc.decode(&chars_of(&input));
    assert_eq!(text_of(&r.text), "ab");
    assert!(r.undecodable.is_empty());
}

#[test]
fn decodes_marked_tokens_to_uppercase() {
    let cc = CunnyCode::new();
    let input = format!("{}{}", CASE_MARKER, code(".-"));
    let r = cc.decode(&chars_of(&input));
    assert_eq!(text_of(&r.text), "A");
}

#[test]
fn decode_keeps_extra_spaces() {
    let cc = CunnyCode::new();
    let input = format!("{}  {}", code("."), code("-"));
    let r = cc.decode(&chars_of(&input));
    assert_eq!(text_of(&r.text), "e t");
}

#[test]
fn decode_of_whitespace_line_before_text() {
    let cc = CunnyCode::new();
    let input = format!("   \n{}", code("."));
    let r = cc.decode(&chars_of(&input));
    assert_eq!(text_of(&r.text), "    \ne");
}

#[test]
fn decode_rejects_lone_marker() {
    let cc = CunnyCode::new();
    let r = cc.decode(&chars_of("^"));
    assert_eq!(r.undecodable.len(), 1);
    assert_eq!(text_of(&r.undecodable[0]), "^");
    assert!(r.text.is_empty());
}

#[test]
fn decode_rejects_overlong_glyph_run() {
    let cc = CunnyCode::new();
    let long: String = std::iter::repeat(DOT_GLYPH).take(30).collect();
    let r = cc.decode(&chars_of(&long));
    assert!(r.text.is_empty());
    assert_eq!(r.undecodable.len(), 1);
    assert_eq!(text_of(&r.undecodable[0]), long);
}

#[test]
fn decode_rejects_token_with_inner_whitespace() {
    let cc = CunnyCode::new();
    let input = format!("{}\t{}", code("."), code("."));
    let r = cc.decode(&chars_of(&input));
    assert!(r.text.is_empty());
    assert_eq!(r.undecodable.len(), 1);
    assert_eq!(text_of(&r.undecodable[0]), input);
}

#[test]
fn decode_records_marked_unknown_token_whole() {
    let cc = CunnyCode::new();
    let r = cc.decode(&chars_of("^xyz"));
    assert_eq!(r.undecodable.len(), 1);
    assert_eq!(text_of(&r.undecodable[0]), "^xyz");
}

#[test]
fn decode_mixes_known_and_unknown_tokens() {
    let cc = CunnyCode::new();
    let input = format!("{} bogus {}", code("."), code("-"));
    let r = cc.decode(&chars_of(&input));
    assert_eq!(text_of(&r.text), "et");
    assert_eq!(r.undecodable.len(), 1);
    assert_eq!(text_of(&r.undecodable[0]), "bogus");
}

#[test]
fn decode_two_lines() {
    let cc = CunnyCode::new();
    let input = format!("{}\n{}", code("."), code("-"));
    let r = cc.decode(&chars_of(&input));
    assert_eq!(text_of(&r.text), "e\nt");
}

#[test]
fn encode_of_only_unmappable_input_is_empty() {
    let cc = CunnyCode::new();
    let r = cc.encode(&chars_of("\u{1f980}\u{1f409}"));
    assert!(r.text.is_empty());
    assert_eq!(r.unencodable, vec!['\u{1f980}', '\u{1f409}']);
}

#[test]
fn detects_decode_for_glyph_starts() {
    assert_eq!(detect_direction(&vec![DOT_GLYPH]), Direction::Decode);
    assert_eq!(detect_direction(&vec![DASH_GLYPH, 'x']), Direction::Decode);
    assert_eq!(
        detect_direction(&vec![CASE_MARKER, DOT_GLYPH]),
        Direction::Decode
    );
}

#[test]
fn detects_encode_otherwise() {
    assert_eq!(detect_direction(&chars_of("")), Direction::Encode);
    assert_eq!(detect_direction(&chars_of("TEST")), Direction::Encode);
    assert_eq!(detect_direction(&chars_of("^A")), Direction::Encode);
    assert_eq!(detect_direction(&vec![CASE_MARKER]), Direction::Encode);
}
