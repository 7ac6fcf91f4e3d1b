use reflect_mem::clock::{millis_of, now_ms, now_parts, parts_of};
use reflect_mem::json::{copy_doc, doc_text, parse_doc, set_field, zero, Doc, Fields, Fraction, Num};
use reflect_mem::number::{count_text, int_text, parse_usize};
use reflect_mem::pattern::{
    contains, join, replace_char, replace_str, split_char, split_str, starts_with, strip_prefix,
    trim_end_matches, trim_start_matches,
};
use reflect_mem::storage::groups::{is_before, Groups};
use reflect_mem::text::{
    has, is_blank, is_white, to_ascii_lower, to_ascii_upper, trim, trim_end, trim_start, unique,
};
use reflect_mem::uid::Uuid;

#[test]
fn white_space_is_what_the_standard_library_says() {
    for n in 0..=0x10ffffu32 {
        if let Some(c) = char::from_u32(n) {
            assert_eq!(is_white(c), c.is_whitespace(), "{n:x}");
        }
    }
}

#[test]
fn trimming_agrees_with_the_standard_library() {
    for s in ["", "  ", " a ", "\u{3000}字\u{a0}", "a b", "\n\tx"] {
        assert_eq!(trim(s), s.trim());
        assert_eq!(trim_start(s), s.trim_start());
        assert_eq!(trim_end(s), s.trim_end());
        assert_eq!(is_blank(s), s.trim().is_empty());
    }
}

#[test]
fn ascii_case_agrees_with_the_standard_library() {
    for s in ["", "aZ09_é", "ÀÉ", "[`{@}"] {
        assert_eq!(to_ascii_lower(s), s.to_ascii_lowercase());
        assert_eq!(to_ascii_upper(s), s.to_ascii_uppercase());
    }
}

#[test]
fn patterns_agree_with_the_standard_library() {
    for s in ["", "a", "aXbXc", "XX", "ab/cd//", "aaXaa"] {
        assert_eq!(split_char(s, 'X'), s.split('X').collect::<Vec<_>>());
        assert_eq!(split_str(s, "Xb"), s.split("Xb").collect::<Vec<_>>());
        assert_eq!(replace_char(s, 'X', "--"), s.replace('X', "--"));
        assert_eq!(replace_str(s, "aX", "y"), s.replace("aX", "y"));
        assert_eq!(contains(s, "Xb"), s.contains("Xb"));
        assert_eq!(starts_with(s, "a"), s.starts_with('a'));
        assert_eq!(strip_prefix(s, "a").as_deref(), s.strip_prefix("a"));
        assert_eq!(trim_end_matches(s, "/"), s.trim_end_matches('/'));
        assert_eq!(trim_start_matches(s, "a"), s.trim_start_matches("a"));
    }
    assert_eq!(join(&["a".into(), "b".into()], ", "), "a, b");
}

#[test]
fn numbers_are_spelled_and_read() {
    assert_eq!(count_text(0), "0");
    assert_eq!(count_text(1024), "1024");
    assert_eq!(int_text(i64::MIN), i64::MIN.to_string());
    for s in ["", "+", "0", "+7", "12a", " 1", "18446744073709551616", "-1"] {
        assert_eq!(parse_usize(s), s.parse::<usize>().ok(), "{s:?}");
    }
}

#[test]
fn documents_read_back_what_they_spell() {
    let text = "{\"a\":[1,-2,0.5,null,true,\"x\\n\"],\"b\":{\"c\":\"\u{5b57}\"}}";
    let doc = parse_doc(text).unwrap();
    assert_eq!(doc_text(&doc), text);
    assert_eq!(parse_doc(&doc_text(&doc)).unwrap(), doc);
    assert_eq!(copy_doc(&doc), doc);
    assert_eq!(doc_text(&zero()), "0.0");
    assert!(parse_doc("{").is_none());
    assert_eq!(parse_doc("-5").unwrap(), Doc::Num(Num::Neg(-5)));
    assert_eq!(parse_doc("18446744073709551615").unwrap().as_i64(), None);
    assert_eq!(parse_doc("7").unwrap().as_i64(), Some(7));
}

#[test]
fn the_last_of_two_equal_keys_is_read() {
    assert_eq!(doc_text(&parse_doc("{\"a\":1,\"b\":2,\"a\":3}").unwrap()), "{\"a\":3,\"b\":2}");
}

#[test]
fn a_field_is_set_in_its_place() {
    let mut fields: Fields = vec![("a".into(), Doc::Null), ("b".into(), Doc::Null)];
    set_field(&mut fields, "a", Doc::Bool(true));
    set_field(&mut fields, "c", Doc::Null);
    assert_eq!(doc_text(&Doc::Object(fields)), "{\"a\":true,\"b\":null,\"c\":null}");
}

#[test]
fn identifiers_read_back() {
    let text = "58ab7a91-6767-556d-be2c-624d9c12128d";
    let u = Uuid::parse_str(text).unwrap();
    assert_eq!(u.to_string(), text);
    assert_eq!(u.simple(), "58ab7a916767556dbe2c624d9c12128d");
    assert_eq!(Uuid::parse_str(&u.simple()), Some(u));
    assert_eq!(Uuid::parse_str("{58AB7A91-6767-556d-be2c-624d9c12128d}"), Some(u));
    assert_eq!(Uuid::parse_str("URN:uuid:58ab7a91-6767-556d-be2c-624d9c12128d"), Some(u));
    for s in ["", "58ab7a91", "58ab7a91-6767-556d-be2c624d9c12128d-", "g8ab7a916767556dbe2c624d9c12128d"] {
        assert_eq!(Uuid::parse_str(s), None, "{s:?}");
        assert!(uuid::Uuid::parse_str(s).is_err(), "{s:?}");
    }
    assert_ne!(Uuid::new_v4(), Uuid::new_v4());
    assert_eq!(Uuid::nil().value, 0);
    assert_eq!(Uuid::new_v4().to_string().as_bytes()[14], b'4');
}

#[test]
fn fractions_are_told_from_integers() {
    let five = serde_json::Number::from(5u64);
    assert!(Fraction::new(five).is_none());
    assert!(Fraction::new(serde_json::Number::from(-5i64)).is_none());
    let half = Fraction::new(serde_json::Number::from_f64(0.5).unwrap()).unwrap();
    assert_eq!(half.number().as_f64(), Some(0.5));
    let doc = Doc::Num(Num::Float(half.copy()));
    assert_eq!(doc_text(&doc), "0.5");
    assert_eq!(parse_doc("0.5").unwrap(), doc);
    assert_eq!(parse_doc("5").unwrap(), Doc::Num(Num::Pos(5)));
}

#[test]
fn time_since_the_epoch_is_cut_into_parts() {
    let elapsed = std::time::Duration::new(1_500_000_000, 123_456_789);
    assert_eq!(millis_of(Some(elapsed)), 1_500_000_000_123);
    assert_eq!(parts_of(Some(elapsed)), (1_500_000_000, 123_456));
    assert_eq!(millis_of(None), 0);
    assert_eq!(parts_of(None), (0, 0));
    assert_eq!(parts_of(Some(std::time::Duration::from_secs(u64::MAX))), (-1, 0));
}

#[test]
fn the_clock_runs() {
    let (secs, micros) = now_parts();
    assert!(secs > 1_700_000_000);
    assert!(micros < 1_000_000);
    assert!(now_ms() >= secs * 1000);
}

#[test]
fn groups_come_out_in_order() {
    let mut g: Groups<u8> = Groups::new();
    g.add_item("b", 1);
    g.add_item("a", 2);
    g.add_item("b", 3);
    g.add_item("ab", 4);
    assert_eq!(
        g.into_entries(),
        vec![
            ("a".to_string(), vec![2]),
            ("ab".to_string(), vec![4]),
            ("b".to_string(), vec![1, 3]),
        ]
    );
    let mut names = vec!["b", "a", "", "字", "ab", "é"];
    names.sort();
    for w in names.windows(2) {
        assert!(is_before(w[0], w[1]), "{w:?}");
        assert!(!is_before(w[1], w[0]), "{w:?}");
    }
}

#[test]
fn lists_of_texts_are_searched_and_deduplicated() {
    let list: Vec<String> = ["b", "a", "b"].iter().map(|s| s.to_string()).collect();
    assert_eq!(unique(&list), vec!["b", "a"]);
    assert!(has(&list, "a"));
    assert!(!has(&list, "c"));
}
