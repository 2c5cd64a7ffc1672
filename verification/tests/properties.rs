use cunny_code::codec::CunnyCode;
use cunny_code::codec::Transformed;
use cunny_code::glyphs::CASE_MARKER;
use cunny_code::glyphs::DASH_GLYPH;
use cunny_code::glyphs::DOT_GLYPH;

fn chars_of(s: &str) -> Vec<char> {
    s.chars().collect()
}

fn text_of(v: &[char]) -> String {
    v.iter().collect()
}

fn code(pattern: &str) -> String {
    pattern
        .chars()
        .map(|c| if c == '.' { DOT_GLYPH } else { DASH_GLYPH })
        .collect()
}

const ALPHABET: &str = "ABCDEFGHIJKLMNOPQRSTUVWXYZ0123456789.,!?'\"/():;=+-_@`~\\|#$%^*{}[]<>";

#[test]
fn every_table_character_round_trips() {
    let cc = CunnyCode::new();
    for c in ALPHABET.chars() {
        let encoded = cc.encode(&vec![c]);
        assert!(encoded.unencodable.is_empty());
        let decoded = cc.decode(&encoded.text);
        assert!(decoded.undecodable.is_empty());
        // A table character is uppercase or caseless, so it comes back as is.
        assert_eq!(decoded.text, vec![c], "character {:?}", c);
    }
}

#[test]
fn every_lowercase_letter_round_trips() {
    let cc = CunnyCode::new();
    for c in "abcdefghijklmnopqrstuvwxyz".chars() {
        let encoded = cc.encode(&vec![c]);
        let decoded = cc.decode(&encoded.text);
        assert_eq!(decoded.text, vec![c], "character {:?}", c);
    }
}

#[test]
fn single_spaced_text_round_trips() {
    let cc = CunnyCode::new();
    for s in ["Hello World", "rust 101", "a=b+c", "X", "over (and) out!"] {
        let input = chars_of(s);
        let encoded = cc.encode(&input);
        assert!(encoded.unencodable.is_empty());
        let decoded = cc.decode(&encoded.text);
        assert!(decoded.undecodable.is_empty());
        assert_eq!(text_of(&decoded.text), s);
    }
}

#[test]
fn unknown_character_is_omitted_and_reported() {
    let cc = CunnyCode::new();
    let with_crab = cc.encode(&chars_of("A\u{1f980}B"));
    let without = cc.encode(&chars_of("AB"));
    assert_eq!(with_crab.text, without.text);
    assert_eq!(with_crab.unencodable, vec!['\u{1f980}']);
}

#[test]
fn case_marker_round_trip_on_mixed_case() {
    let cc = CunnyCode::new();
    let encoded = cc.encode(&chars_of("Hello"));
    let tokens: Vec<String> = text_of(&encoded.text)
        .split(' ')
        .map(|t| t.to_string())
        .collect();
    assert_eq!(tokens.len(), 5);
    assert!(tokens[0].starts_with(CASE_MARKER));
    for t in &tokens[1..] {
        assert!(!t.starts_with(CASE_MARKER));
    }
    let decoded = cc.decode(&encoded.text);
    assert_eq!(text_of(&decoded.text), "Hello");
}

#[test]
fn tab_is_normalized_to_space() {
    let cc = CunnyCode::new();
    let encoded = cc.encode(&chars_of("A\tB"));
    let expected = format!(
        "{}{}  {}{}",
        CASE_MARKER,
        code(".-"),
        CASE_MARKER,
        code("-...")
    );
    assert_eq!(text_of(&encoded.text), expected);
    assert!(!encoded.text.contains(&'\t'));
}

#[test]
fn newline_is_preserved_both_ways() {
    let cc = CunnyCode::new();
    let encoded = cc.encode(&chars_of("A\nB"));
    let expected = format!(
        "{}{} \n{}{}",
        CASE_MARKER,
        code(".-"),
        CASE_MARKER,
        code("-...")
    );
    assert_eq!(text_of(&encoded.text), expected);
    assert_eq!(encoded.text.iter().filter(|&&c| c == '\n').count(), 1);
    let decoded = cc.decode(&encoded.text);
    assert_eq!(text_of(&decoded.text), "A \nB");
    assert_eq!(decoded.text.iter().filter(|&&c| c == '\n').count(), 1);
}

#[test]
fn encoded_output_routes_back_through_decode() {
    let cc = CunnyCode::new();
    let encoded = cc.encode(&chars_of("TEST"));
    match cc.transform(&encoded.text) {
        Transformed::Decoded(d) => {
            assert_eq!(text_of(&d.text), "TEST");
            assert!(d.undecodable.is_empty());
        }
        Transformed::Encoded(_) => panic!("expected the decode direction"),
    }
}

#[test]
fn plain_text_routes_through_encode() {
    let cc = CunnyCode::new();
    match cc.transform(&chars_of("TEST")) {
        Transformed::Encoded(e) => {
            let expected = format!(
                "{m}{t} {m}{e} {m}{s} {m}{t}",
                m = CASE_MARKER,
                t = code("-"),
                e = code("."),
                s = code("...")
            );
            assert_eq!(text_of(&e.text), expected);
        }
        Transformed::Decoded(_) => panic!("expected the encode direction"),
    }
}

#[test]
fn undecodable_tokens_are_collected_in_order() {
    let cc = CunnyCode::new();
    let r = cc.decode(&chars_of("xyz abc"));
    assert!(r.text.is_empty());
    let collected: Vec<String> = r.undecodable.iter().map(|t| text_of(t)).collect();
    assert_eq!(collected, vec!["xyz".to_string(), "abc".to_string()]);
    assert_eq!(collected.join(" "), "xyz abc");
}
