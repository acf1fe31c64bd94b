use acf_workshop::acf::grammar::ParseErrorKind;
use acf_workshop::acf::parser::{file_to_acf, AcfParser, ParseError};
use acf_workshop::acf::value::AcfValue;

const TWO_ITEMS: &str = "\"Root\"{\"WorkshopItemsInstalled\"{\"111\"{\"timeupdated\" \"100\"}\"222\"{\"timeupdated\" \"200\"}}}";

const AS_STEAM_WRITES_IT: &str = "\"AppWorkshop\"\n{\n    \"WorkshopItemsInstalled\"\n    {\n        \"123456789\"\n        {\n            \"timeupdated\"        \"1700000000\"\n        }\n    }\n}\n";

fn fault(kind: ParseErrorKind, position: usize) -> Result<AcfValue<'static>, ParseError> {
    Err(ParseError { kind, position })
}

#[test]
fn parses_a_document_written_without_blanks() {
    let expected = AcfValue::Collection(
        "Root",
        vec![AcfValue::Collection(
            "WorkshopItemsInstalled",
            vec![
                AcfValue::Collection("111", vec![AcfValue::Pair("timeupdated", "100")]),
                AcfValue::Collection("222", vec![AcfValue::Pair("timeupdated", "200")]),
            ],
        )],
    );
    assert_eq!(file_to_acf(TWO_ITEMS), Ok(expected));
}

#[test]
fn parses_the_layout_that_steam_writes() {
    let expected = AcfValue::Collection(
        "AppWorkshop",
        vec![AcfValue::Collection(
            "WorkshopItemsInstalled",
            vec![AcfValue::Collection(
                "123456789",
                vec![AcfValue::Pair("timeupdated", "1700000000")],
            )],
        )],
    );
    assert_eq!(AcfParser::parse(AS_STEAM_WRITES_IT), Ok(expected));
}

#[test]
fn file_to_acf_is_the_parser() {
    for text in [TWO_ITEMS, AS_STEAM_WRITES_IT, "", "\"a\"", "\"a\"{}", "\"a\"{}}", "\"a\"{\"b\"}"] {
        assert_eq!(file_to_acf(text), AcfParser::parse(text), "{:?}", text);
    }
}

#[test]
fn blanks_between_tokens_do_not_matter() {
    let tight = AcfParser::parse("\"a\"{\"b\"\"c\"\"d\"{}}");
    let loose = AcfParser::parse(" \t\r\n\"a\" \n{\r\n\t\"b\"\t \"c\"\n\n\"d\"\r{ }\t}\n \n");
    let expected = AcfValue::Collection(
        "a",
        vec![AcfValue::Pair("b", "c"), AcfValue::Collection("d", vec![])],
    );
    assert_eq!(tight, Ok(expected.clone()));
    assert_eq!(loose, Ok(expected));
}

#[test]
fn strings_are_kept_as_they_stand() {
    let text = "\"  Key With Blanks \"{\"\"\"\"\"a{b}c\"\" \\n\\t \"\"UPPER lower\"\"\ttab\nline\r\"}";
    let expected = AcfValue::Collection(
        "  Key With Blanks ",
        vec![
            AcfValue::Pair("", ""),
            AcfValue::Pair("a{b}c", " \\n\\t "),
            AcfValue::Pair("UPPER lower", "\ttab\nline\r"),
        ],
    );
    assert_eq!(AcfParser::parse(text), Ok(expected));
}

#[test]
fn keeps_characters_outside_ascii() {
    let text = "\"é\"\n{\n\t\"naïve\"\t\t\"日本語 ok\"\n\t\"🙂\"{\"ключ\" \"значение\"}\n}\n";
    let expected = AcfValue::Collection(
        "é",
        vec![
            AcfValue::Pair("naïve", "日本語 ok"),
            AcfValue::Collection("🙂", vec![AcfValue::Pair("ключ", "значение")]),
        ],
    );
    assert_eq!(AcfParser::parse(text), Ok(expected));
}

#[test]
fn the_strings_of_the_tree_are_borrowed_from_the_text() {
    let text = String::from("\"root\"{\"key\" \"value\"}");
    let tree = AcfParser::parse(&text).unwrap();
    let range = text.as_ptr() as usize..text.as_ptr() as usize + text.len();
    match tree {
        AcfValue::Collection(name, entries) => {
            assert!(range.contains(&(name.as_ptr() as usize)));
            match entries[0] {
                AcfValue::Pair(key, value) => {
                    assert_eq!(key.as_ptr() as usize, text.as_ptr() as usize + 8);
                    assert_eq!(value.as_ptr() as usize, text.as_ptr() as usize + 14);
                }
                _ => panic!("no pair"),
            }
        }
        _ => panic!("no collection"),
    }
}

#[test]
fn keys_may_repeat_and_keep_their_order() {
    let expected = AcfValue::Collection(
        "a",
        vec![
            AcfValue::Pair("k", "1"),
            AcfValue::Pair("k", "2"),
            AcfValue::Collection("k", vec![]),
            AcfValue::Pair("k", "1"),
        ],
    );
    assert_eq!(AcfParser::parse("\"a\"{\"k\" \"1\" \"k\" \"2\" \"k\"{} \"k\" \"1\"}"), Ok(expected));
}

#[test]
fn collections_nest_deeply() {
    let depth = 200;
    let mut text = String::new();
    for _ in 0..depth {
        text.push_str("\"n\"{");
    }
    for _ in 0..depth {
        text.push('}');
    }
    let mut tree = AcfParser::parse(&text).unwrap();
    let mut seen = 0;
    loop {
        match tree {
            AcfValue::Collection("n", mut entries) => {
                seen += 1;
                match entries.pop() {
                    Some(inner) => {
                        assert!(entries.is_empty());
                        tree = inner;
                    }
                    None => break,
                }
            }
            other => panic!("unexpected {:?}", other),
        }
    }
    assert_eq!(seen, depth);
}

#[test]
fn an_empty_text_is_no_document() {
    assert_eq!(AcfParser::parse(""), fault(ParseErrorKind::MissingName, 0));
    assert_eq!(AcfParser::parse(" \n\t"), fault(ParseErrorKind::MissingName, 3));
}

#[test]
fn a_document_begins_with_a_quoted_name() {
    assert_eq!(AcfParser::parse("{}"), fault(ParseErrorKind::MissingName, 0));
    assert_eq!(AcfParser::parse("  Root{}"), fault(ParseErrorKind::MissingName, 2));
    assert_eq!(AcfParser::parse("// comment\n\"a\"{}"), fault(ParseErrorKind::MissingName, 0));
}

#[test]
fn a_quote_that_is_never_closed_is_reported_where_it_opens() {
    assert_eq!(AcfParser::parse("\"Root"), fault(ParseErrorKind::UnterminatedString, 0));
    assert_eq!(AcfParser::parse("\""), fault(ParseErrorKind::UnterminatedString, 0));
    assert_eq!(AcfParser::parse("\"a\"{\"b\" \"c}"), fault(ParseErrorKind::UnterminatedString, 8));
    assert_eq!(AcfParser::parse("\"a\"{ \"b}"), fault(ParseErrorKind::UnterminatedString, 5));
    assert_eq!(AcfParser::parse("\"é\"{\"ü\" \"ö}"), fault(ParseErrorKind::UnterminatedString, 8));
}

#[test]
fn a_document_is_a_collection() {
    assert_eq!(AcfParser::parse("\"a\""), fault(ParseErrorKind::MissingOpenBrace, 3));
    assert_eq!(AcfParser::parse("\"a\" \"b\""), fault(ParseErrorKind::MissingOpenBrace, 4));
    assert_eq!(AcfParser::parse("\"a\"\n}"), fault(ParseErrorKind::MissingOpenBrace, 4));
}

#[test]
fn a_name_inside_a_collection_needs_a_value() {
    assert_eq!(AcfParser::parse("\"a\"{\"b\"}"), fault(ParseErrorKind::MissingValue, 7));
    assert_eq!(AcfParser::parse("\"a\"{\"b\" x}"), fault(ParseErrorKind::MissingValue, 8));
    assert_eq!(AcfParser::parse("\"a\"{\"b\""), fault(ParseErrorKind::MissingValue, 7));
}

#[test]
fn a_collection_must_be_closed() {
    assert_eq!(AcfParser::parse("\"a\" {"), fault(ParseErrorKind::MissingEntry, 5));
    assert_eq!(AcfParser::parse("\"a\"{\"b\"{\"c\" \"d\"}"), fault(ParseErrorKind::MissingEntry, 16));
    assert_eq!(AcfParser::parse("\"a\"{\"b\" \"c\" "), fault(ParseErrorKind::MissingEntry, 12));
}

#[test]
fn only_entries_may_stand_inside_a_collection() {
    assert_eq!(AcfParser::parse("\"a\"{{}}"), fault(ParseErrorKind::MissingEntry, 4));
    assert_eq!(AcfParser::parse("\"a\"{ b }"), fault(ParseErrorKind::MissingEntry, 5));
    assert_eq!(AcfParser::parse("\"é\"{\"ü\" \"ö\" ß}"), fault(ParseErrorKind::MissingEntry, 12));
}

#[test]
fn nothing_may_follow_the_document() {
    assert_eq!(AcfParser::parse("\"a\"{}}"), fault(ParseErrorKind::TrailingContent, 5));
    assert_eq!(AcfParser::parse("\"a\"{} \"b\"{}"), fault(ParseErrorKind::TrailingContent, 6));
    assert_eq!(AcfParser::parse("\"a\"{}\n\nx"), fault(ParseErrorKind::TrailingContent, 7));
    assert_eq!(AcfParser::parse("\"a\"{}\u{a0}"), fault(ParseErrorKind::TrailingContent, 5));
}

#[test]
fn every_kind_of_fault_has_its_words() {
    let kinds = [
        ParseErrorKind::MissingName,
        ParseErrorKind::UnterminatedString,
        ParseErrorKind::MissingOpenBrace,
        ParseErrorKind::MissingValue,
        ParseErrorKind::MissingEntry,
        ParseErrorKind::TrailingContent,
    ];
    let mut seen: Vec<&str> = Vec::new();
    for kind in kinds {
        let words = ParseError { kind, position: 0 }.description();
        assert!(!words.is_empty());
        assert!(!seen.contains(&words));
        seen.push(words);
    }
    assert_eq!(
        AcfParser::parse("\"a\"{").unwrap_err().description(),
        "expected a quoted name or `}`"
    );
}

#[test]
fn the_text_of_a_tree_has_one_space_in_each_pair() {
    let tree = AcfParser::parse(AS_STEAM_WRITES_IT).unwrap();
    assert_eq!(
        tree.to_text(),
        "\"AppWorkshop\"{\"WorkshopItemsInstalled\"{\"123456789\"{\"timeupdated\" \"1700000000\"}}}"
    );
    assert_eq!(AcfValue::Pair("k", "v").to_text(), "\"k\" \"v\"");
    assert_eq!(AcfValue::Collection("", vec![]).to_text(), "\"\"{}");
    assert_eq!(AcfValue::Null.to_text(), "");
    assert_eq!(AcfParser::parse(TWO_ITEMS).unwrap().to_text(), TWO_ITEMS);
}

#[test]
fn the_text_of_a_parsed_tree_parses_to_the_same_tree() {
    for text in [
        TWO_ITEMS,
        AS_STEAM_WRITES_IT,
        "\"a\"{}",
        " \"a\" { \"b\" \"c\" \"d\" { \"e\" { } \"f\" \"\" } } ",
        "\"é\"{\"naïve\"\t\"日本語 {ok}\"}",
    ] {
        let tree = AcfParser::parse(text).unwrap();
        let written = tree.to_text();
        assert_eq!(AcfParser::parse(&written), Ok(tree.clone()), "{:?}", text);
        assert_eq!(AcfParser::parse(&written).unwrap().to_text(), written);
    }
}

#[test]
fn a_copy_of_a_tree_is_the_same_tree() {
    let tree = AcfParser::parse(AS_STEAM_WRITES_IT).unwrap();
    assert_eq!(tree.clone(), tree);
    assert_eq!(AcfValue::Null.clone(), AcfValue::Null);
    assert_eq!(AcfValue::Pair("k", "v").clone(), AcfValue::Pair("k", "v"));
}

#[test]
fn a_fault_says_what_was_missing_and_where() {
    assert_eq!(
        AcfParser::parse("\"a\" {").unwrap_err().message(),
        "expected a quoted name or `}` at character 5"
    );
    assert_eq!(
        AcfParser::parse("").unwrap_err().message(),
        "expected the quoted name of the document at character 0"
    );
    assert_eq!(
        ParseError { kind: ParseErrorKind::UnterminatedString, position: 1234567 }.message(),
        "this quote is never closed at character 1234567"
    );
}
