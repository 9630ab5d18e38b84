use altcase::case_convert::{advanced_convert, advanced_convert_with, convert, simple_convert};
use altcase::case_map::case_mappings;
use altcase::letters::SpecialLetters;

#[test]
fn single_word() {
    {
        let result = simple_convert("simple", true);
        assert_eq!("SiMpLe", &result);
    }
    {
        let result = simple_convert("simple", false);
        assert_eq!("sImPlE", &result);
    }
}

#[test]
fn non_letters() {
    {
        let result = simple_convert("s-i_m/p~l*e", true);
        assert_eq!("S-i_M/p~L*e", &result);
    }
    {
        let result = simple_convert("s-i_m/p~l*e", false);
        assert_eq!("s-I_m/P~l*E", &result);
    }
}

#[test]
fn whitespace() {
    {
        let result = simple_convert("simple test 123 one two three", true);
        assert_eq!("SiMpLe TeSt 123 OnE tWo ThReE", &result);
    }
    {
        let result = simple_convert("simple test 123 one two three", false);
        assert_eq!("sImPlE tEsT 123 oNe TwO tHrEe", &result);
    }
}

#[test]
fn no_letters() {
    let input = "1984/*-  _+=";
    let result_upper = simple_convert(&input, true);
    let result_lower = simple_convert(&input, false);
    assert_eq!(&input, &result_upper);
    assert_eq!(&input, &result_lower);
}

#[test]
fn mixed_case_input() {
    {
        let result = simple_convert("WhAt iF wE gIvE iT ThIS", true);
        assert_eq!("WhAt If We GiVe It ThIs", &result);
    }
    {
        let result = simple_convert("WhAt iF wE gIvE iT ThIS", false);
        assert_eq!("wHaT iF wE gIvE iT tHiS", &result);
    }
}

#[test]
fn no_special_letters() {
    let input = "sentence sans spec chars";
    let result_adv = advanced_convert(&input);
    let result_smp = simple_convert(&input, false);
    assert_eq!(&result_adv, &result_smp);
}

#[test]
fn case_convert_non_letters() {
    {
        let result = advanced_convert("words-delimited_by/non*whitespace&chars");
        assert_eq!("wOrDs-DeLiMiTeD_bY/nOn*WhiTeSpAcE&cHaRs", &result);
    }
    {
        let result = advanced_convert("m-i/l%l (i@o!n");
        assert_eq!("M-i/L%L (i@O!n", &result);
    }
}

#[test]
fn case_convert_no_letters() {
    let input = "1984/*-  _+=";
    let result_upper = advanced_convert(&input);
    let result_lower = advanced_convert(&input);
    assert_eq!(&input, &result_upper);
    assert_eq!(&input, &result_lower);
}

#[test]
fn case_convert_mixed_case_input() {
    let result = advanced_convert("WhAt iF wE gIvE iT ThIS");
    assert_eq!("wHaT iF wE giVe iT tHiS", &result);
}

#[test]
fn choose_mode() {
    let input = "this is the function input";
    let result_smp = convert(&input, true);
    assert_eq!("ThIs Is ThE fUnCtIoN iNpUt", &result_smp);

    let result_adv = convert(&input, false);
    assert_eq!("tHiS iS tHe FuNcTiOn iNpUt", &result_adv);
}

#[test]
fn empty_input_stays_empty() {
    assert_eq!("", convert("", true));
    assert_eq!("", convert("", false));
    assert_eq!("", simple_convert("", false));
}

#[test]
fn caseless_text_is_kept_in_both_modes() {
    let input = "42 + 7 = 49 \u{6f22}\u{5b57} !?";
    assert_eq!(input, convert(input, true));
    assert_eq!(input, convert(input, false));
}

#[test]
fn length_is_kept_without_expanding_letters() {
    let input = "Alternating Letters, i and L";
    assert_eq!(input.chars().count(), convert(input, true).chars().count());
    assert_eq!(input.chars().count(), convert(input, false).chars().count());
}

#[test]
fn simple_mode_expands_sharp_s() {
    assert_eq!("SSa", simple_convert("\u{df}a", true));
    assert_eq!("\u{df}A", simple_convert("\u{df}a", false));
}

#[test]
fn backward_part_keeps_expansion_in_order() {
    assert_eq!("SSi", advanced_convert("\u{df}i"));
    assert_eq!("aSSi", advanced_convert("a\u{df}i"));
}

#[test]
fn anchorless_advanced_is_simple_starting_lowercase() {
    assert_eq!("aBc DeF", advanced_convert("abc def"));
    assert_eq!(simple_convert("Quack, Quack", false), advanced_convert("Quack, Quack"));
}

#[test]
fn advanced_ignores_input_case() {
    assert_eq!(advanced_convert("what if we give it this"), advanced_convert("WHAT IF WE GIVE IT THIS"));
    assert_eq!(convert("million", false), convert("MILLION", false));
    assert_eq!("MiLLiOn", convert("million", false));
    assert_eq!("MiLlIoN", convert("million", true));
}

#[test]
fn anchor_fixes_phase_before_it() {
    assert_eq!("AbCdL", advanced_convert("abcdl"));
    assert_eq!("aBcDi", advanced_convert("abcdi"));
}

#[test]
fn custom_letter_table() {
    let letters = SpecialLetters::new(vec!['o'], vec!['e']).unwrap();
    assert_eq!("hElLo", advanced_convert_with("hello", &letters));
}

#[test]
fn overlapping_letter_table_is_refused() {
    assert!(SpecialLetters::new(vec!['a', 'b'], vec!['c', 'b']).is_none());
    assert!(SpecialLetters::new(vec!['a'], vec!['c']).is_some());
}

#[test]
fn standard_table_membership() {
    let letters = SpecialLetters::standard();
    assert!(letters.keeps_lowercase('i'));
    assert!(!letters.keeps_lowercase('l'));
    assert!(letters.keeps_uppercase('l'));
    assert!(!letters.keeps_uppercase('i'));
}

#[test]
fn case_mappings_classify() {
    assert_eq!(Some(("a".to_string(), "A".to_string())), case_mappings('A'));
    assert_eq!(Some(("\u{df}".to_string(), "SS".to_string())), case_mappings('\u{df}'));
    assert_eq!(None, case_mappings('7'));
    assert_eq!(None, case_mappings(' '));
}
