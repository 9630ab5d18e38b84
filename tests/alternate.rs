use altcase::case_convert::{advanced_alternate, simple_alternate};
use altcase::case_map::{map_chars, MappedChar};
use altcase::letters::SpecialLetters;

fn mapped(ch: char, lower: &str, upper: &str) -> MappedChar {
    MappedChar { ch, lower: lower.to_string(), upper: upper.to_string() }
}

#[test]
fn map_chars_pairs_each_character_with_its_mappings() {
    let chars = map_chars("a\u{df}7");
    assert_eq!(3, chars.len());
    assert_eq!(('a', "a", "A"), (chars[0].ch, chars[0].lower.as_str(), chars[0].upper.as_str()));
    assert_eq!(
        ('\u{df}', "\u{df}", "SS"),
        (chars[1].ch, chars[1].lower.as_str(), chars[1].upper.as_str())
    );
    assert_eq!(('7', "7", "7"), (chars[2].ch, chars[2].lower.as_str(), chars[2].upper.as_str()));
}

#[test]
fn simple_alternate_uses_the_given_mappings() {
    let chars = vec![mapped('q', "q", "QQ"), mapped('-', "-", "-"), mapped('z', "z", "Z")];
    assert_eq!("QQ-z", simple_alternate(&chars, true));
    assert_eq!("q-Z", simple_alternate(&chars, false));
}

#[test]
fn caseless_character_is_copied_not_mapped() {
    let chars = vec![mapped('#', "x", "x")];
    assert_eq!("#", simple_alternate(&chars, true));
    let letters = SpecialLetters::standard();
    assert_eq!("#", advanced_alternate(&chars, &letters));
}

#[test]
fn advanced_alternate_anchors_on_lowercase_lead() {
    let letters = SpecialLetters::standard();
    let chars = vec![mapped('a', "a", "A"), mapped('\u{130}', "i\u{307}", "\u{130}")];
    assert_eq!("Ai\u{307}", advanced_alternate(&chars, &letters));
    let chars = vec![mapped('b', "b", "B"), mapped('L', "l", "L"), mapped('c', "c", "C")];
    assert_eq!("bLc", advanced_alternate(&chars, &letters));
}

#[test]
fn advanced_alternate_without_anchor_starts_lowercase() {
    let letters = SpecialLetters::standard();
    let chars = vec![mapped('a', "a", "A"), mapped(' ', " ", " "), mapped('b', "b", "B")];
    assert_eq!("a B", advanced_alternate(&chars, &letters));
    assert_eq!(simple_alternate(&chars, false), advanced_alternate(&chars, &letters));
}
