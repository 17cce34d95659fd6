use surfer::action::{label_chars, parse_name_type, ActionBuilder};
use surfer::command::ParamGreed;
use surfer::expand::descent_text;
use surfer::fuzzy::{is_ranked_before, rank_candidates};
use surfer::message::{Message, SignalNameType};
use surfer::text::{
    char_is_whitespace, chars_of, folded, has_prefix_folded, has_subsequence, is_equal,
    is_equal_folded, is_lex_less, letters_match,
};

fn chars(s: &str) -> Vec<char> {
    s.chars().collect()
}

fn strings(list: &[&str]) -> Vec<String> {
    list.iter().map(|s| s.to_string()).collect()
}

#[test]
fn characters_are_read_in_order() {
    assert_eq!(chars_of(""), Vec::<char>::new());
    assert_eq!(chars_of("aé_b"), vec!['a', 'é', '_', 'b']);
}

#[test]
fn case_is_folded_for_ascii_letters_only() {
    assert_eq!(folded('A'), 'a');
    assert_eq!(folded('Z'), 'z');
    assert_eq!(folded('q'), 'q');
    assert_eq!(folded('@'), '@');
    assert_eq!(folded('['), '[');
    assert_eq!(folded('É'), 'É');
    for code in 0..=0x10ffffu32 {
        if let Some(c) = char::from_u32(code) {
            assert_eq!(folded(c), c.to_ascii_lowercase());
        }
    }
    assert!(letters_match('x', 'X'));
    assert!(letters_match('_', '_'));
    assert!(!letters_match('x', 'y'));
    assert!(!letters_match('é', 'É'));
}

#[test]
fn whitespace_is_what_unicode_calls_so() {
    for c in [' ', '\t', '\n', '\r', '\u{b}', '\u{c}', '\u{85}', '\u{a0}', '\u{1680}',
        '\u{2000}', '\u{200a}', '\u{2028}', '\u{2029}', '\u{202f}', '\u{205f}', '\u{3000}']
    {
        assert!(char_is_whitespace(c));
    }
    for c in ['a', '_', '0', '\u{8}', '\u{e}', '\u{200b}', '\u{feff}'] {
        assert!(!char_is_whitespace(c));
    }
    for code in 0..=0x10ffffu32 {
        if let Some(c) = char::from_u32(code) {
            assert_eq!(char_is_whitespace(c), c.is_whitespace());
        }
    }
}

#[test]
fn prefixes_and_equality_ignore_case() {
    assert!(has_prefix_folded(&chars("Signal_add"), &chars("sIG")));
    assert!(has_prefix_folded(&chars("abc"), &chars("")));
    assert!(has_prefix_folded(&chars("abc"), &chars("abc")));
    assert!(!has_prefix_folded(&chars("abc"), &chars("abcd")));
    assert!(!has_prefix_folded(&chars("abc"), &chars("b")));
    assert!(is_equal_folded(&chars("Local"), &chars("lOCAL")));
    assert!(!is_equal_folded(&chars("Local"), &chars("Loca")));
    assert!(is_equal(&chars("Local"), &chars("Local")));
    assert!(!is_equal(&chars("Local"), &chars("local")));
    assert!(!is_equal(&chars("Local"), &chars("Locals")));
}

#[test]
fn subsequences_keep_the_order() {
    assert!(has_subsequence(&chars("signal_add"), &chars("")));
    assert!(has_subsequence(&chars("signal_add"), &chars("sgad")));
    assert!(has_subsequence(&chars("signal_add"), &chars("SIGNAL_ADD")));
    assert!(has_subsequence(&chars("signal_add"), &chars("dd")));
    assert!(!has_subsequence(&chars("signal_add"), &chars("ddd")));
    assert!(!has_subsequence(&chars("signal_add"), &chars("das")));
    assert!(!has_subsequence(&chars("signal_add"), &chars("signal_add_")));
    assert!(!has_subsequence(&chars(""), &chars("a")));
}

#[test]
fn lexicographic_order_is_that_of_strings() {
    let samples = ["", "a", "A", "ab", "abc", "abd", "b", "_", "zz", "é", "aé", "a_"];
    for a in samples {
        for b in samples {
            assert_eq!(is_lex_less(&chars(a), &chars(b)), a < b);
        }
    }
}

#[test]
fn rank_prefers_prefix_then_length_then_alphabet() {
    let q = chars("ab");
    assert!(is_ranked_before(&q, &chars("abzzzz"), &chars("xab")));
    assert!(!is_ranked_before(&q, &chars("xab"), &chars("abzzzz")));
    assert!(is_ranked_before(&q, &chars("abc"), &chars("abcd")));
    assert!(is_ranked_before(&q, &chars("abc"), &chars("abd")));
    assert!(!is_ranked_before(&q, &chars("abc"), &chars("abc")));
    assert!(is_ranked_before(&q, &chars("ABc"), &chars("abc")));
}

#[test]
fn candidates_are_filtered_and_ranked() {
    let candidates = strings(&["xaxb", "abd", "none", "abc", "ab_long", "a_b", "cab", "abc"]);
    assert_eq!(
        rank_candidates(&chars("ab"), &candidates),
        strings(&["abc", "abc", "abd", "ab_long", "a_b", "cab", "xaxb"])
    );
    assert_eq!(rank_candidates(&chars("zz"), &candidates), Vec::<String>::new());
    assert_eq!(rank_candidates(&chars("ab"), &Vec::new()), Vec::<String>::new());
    assert_eq!(
        rank_candidates(&chars(""), &strings(&["bb", "a", "ab"])),
        strings(&["a", "ab", "bb"])
    );
}

#[test]
fn name_types_are_parsed_as_written() {
    assert_eq!(parse_name_type(&"Local".to_string()), Some(SignalNameType::Local));
    assert_eq!(parse_name_type(&"Unique".to_string()), Some(SignalNameType::Unique));
    assert_eq!(parse_name_type(&"Global".to_string()), Some(SignalNameType::Global));
    assert_eq!(parse_name_type(&"local".to_string()), None);
    assert_eq!(parse_name_type(&"".to_string()), None);
}

#[test]
fn label_is_what_stands_before_the_underscore() {
    assert_eq!(label_chars(&"ab_clk_q".to_string()), chars("ab"));
    assert_eq!(label_chars(&"ab".to_string()), chars("ab"));
    assert_eq!(label_chars(&"_x".to_string()), chars(""));
    assert_eq!(label_chars(&"".to_string()), chars(""));
}

#[test]
fn builders_make_their_actions() {
    assert_eq!(
        ActionBuilder::LoadVcd.build("a b.vcd".to_string()),
        Some((Message::LoadVcd("a b.vcd".to_string()), false))
    );
    assert_eq!(
        ActionBuilder::LoadVcdFromUrl.build("http://x".to_string()),
        Some((Message::LoadVcdFromUrl("http://x".to_string()), false))
    );
    assert_eq!(
        ActionBuilder::ChangeSignalNameType.build("Global".to_string()),
        Some((Message::ChangeSignalNameType(None, SignalNameType::Global), false))
    );
    assert_eq!(
        ActionBuilder::ChangeSignalNameType.build("global".to_string()),
        Some((Message::ChangeSignalNameType(None, SignalNameType::Local), true))
    );
    assert_eq!(
        ActionBuilder::ForceSignalNameTypes.build("Unique".to_string()),
        Some((Message::ForceSignalNameTypes(SignalNameType::Unique), false))
    );
    assert_eq!(
        ActionBuilder::ForceSignalNameTypes.build("".to_string()),
        Some((Message::ForceSignalNameTypes(SignalNameType::Local), true))
    );
    assert_eq!(
        ActionBuilder::FocusSignal(20).build("bd_clk".to_string()),
        Some((Message::FocusSignal(19), false))
    );
    assert_eq!(
        ActionBuilder::FocusSignal(20).build("bd".to_string()),
        Some((Message::FocusSignal(19), false))
    );
    assert_eq!(ActionBuilder::FocusSignal(19).build("bd_clk".to_string()), None);
    assert_eq!(ActionBuilder::FocusSignal(20).build("_clk".to_string()), None);
    assert_eq!(ActionBuilder::FocusSignal(20).build("x_clk".to_string()), None);
    assert_eq!(ActionBuilder::FocusSignal(0).build("a".to_string()), None);
}

#[test]
fn descent_tells_the_text_that_leads_on() {
    let candidates = strings(&["alpha", "beta", "Beta2"]);
    let word = ParamGreed::Word;
    assert_eq!(descent_text("alpha", word, &candidates), Some("alpha".to_string()));
    assert_eq!(descent_text(" ALPHA rest", word, &candidates), Some("alpha".to_string()));
    assert_eq!(descent_text("al", word, &candidates), None);
    assert_eq!(descent_text("al ", word, &candidates), Some("alpha".to_string()));
    assert_eq!(descent_text("be ", word, &candidates), None);
    assert_eq!(descent_text("zzz", word, &candidates), Some("zzz".to_string()));
    assert_eq!(descent_text("", word, &candidates), None);
    assert_eq!(descent_text("   ", word, &candidates), None);
    assert_eq!(descent_text("al", ParamGreed::Rest, &candidates), None);
    assert_eq!(
        descent_text("al x", ParamGreed::Rest, &candidates),
        Some("al x".to_string())
    );
    assert_eq!(
        descent_text("q x ", ParamGreed::Rest, &candidates),
        Some("q x ".to_string())
    );
}
