use binlens::document::Document;
use binlens::expression::Expression;
use binlens::parsers::{load_schema, Parsers};
use binlens::rule::{IntegerWidth, Rule};
use binlens::schema::{
    byte_of, bytes_of, expression_of, expressions_of, find, find_text, rule_of, rules_of,
    SchemaError,
};
use binlens::tree::clone_id;
use binlens::text::str_eq;
use binlens::yaml::load;

fn text(s: &str) -> Document {
    Document::Text(s.to_string())
}

fn num(v: i64) -> Document {
    Document::Integer(v)
}

fn table(entries: Vec<(&str, Document)>) -> Document {
    Document::Mapping(entries.into_iter().map(|(k, v)| (text(k), v)).collect())
}

fn list(items: Vec<Document>) -> Document {
    Document::Sequence(items)
}

fn id(name: &str) -> Option<String> {
    Some(name.to_string())
}

#[test]
fn strings_compare_by_their_characters() {
    assert!(str_eq("", ""));
    assert!(str_eq("tuple", "tuple"));
    assert!(!str_eq("tuple", "tuplf"));
    assert!(!str_eq("tuple", "tupl"));
    assert!(!str_eq("", "a"));
    assert!(str_eq("\u{884c}", "\u{884c}"));
    assert!(!str_eq("\u{884c}", "\u{884d}"));
}

#[test]
fn yaml_scalars() {
    assert_eq!(load(b"42"), Some(num(42)));
    assert_eq!(load(b"-14"), Some(num(-14)));
    assert_eq!(load(b"9223372036854775807"), Some(num(i64::MAX)));
    assert_eq!(load(b"hello world"), Some(text("hello world")));
    assert_eq!(load(b"\"+\""), Some(text("+")));
    assert_eq!(load(b"true"), Some(Document::Other));
    assert_eq!(load(b"1.5"), Some(Document::Other));
    assert_eq!(load(b"~"), Some(Document::Other));
    assert_eq!(load(b"18446744073709551615"), Some(Document::Other));
    assert_eq!(load(b"!tagged 7"), Some(num(7)));
}

#[test]
fn yaml_collections() {
    assert_eq!(load(b"[1, two, [3]]"), Some(list(vec![num(1), text("two"), list(vec![num(3)])])));
    assert_eq!(
        load(b"type: u16\nid: n\n"),
        Some(table(vec![("type", text("u16")), ("id", text("n"))]))
    );
    assert_eq!(
        load(b"b: 1\na: {x: [1, 2]}\n"),
        Some(table(vec![("b", num(1)), ("a", table(vec![("x", list(vec![num(1), num(2)]))]))]))
    );
    assert_eq!(
        load(b"1: one\n"),
        Some(Document::Mapping(vec![(num(1), text("one"))]))
    );
    assert_eq!(load(b"[]"), Some(list(vec![])));
    assert_eq!(load(b"{}"), Some(Document::Mapping(vec![])));
}

#[test]
fn text_that_is_no_yaml() {
    assert_eq!(load(b"a: [1, 2"), None);
    assert_eq!(load(b"a: 1\na: 2\n"), None);
    assert_eq!(load(&[0xff, 0xfe, 0x00]), None);
    assert_eq!(load(b"--- 1\n--- 2\n"), None);
}

#[test]
fn entries_are_found_by_key() {
    let entries = vec![
        (text("type"), text("u16")),
        (num(3), text("number key")),
        (text("id"), num(5)),
        (text("type"), text("later")),
    ];
    assert_eq!(find(&entries, "type"), Some(&text("u16")));
    assert_eq!(find(&entries, "id"), Some(&num(5)));
    assert_eq!(find(&entries, "3"), None);
    assert_eq!(find(&entries, "missing"), None);
    assert_eq!(find_text(&entries, "type"), Some("u16"));
    assert_eq!(find_text(&entries, "id"), None);
    assert_eq!(find_text(&entries, "missing"), None);
}

#[test]
fn bytes_are_integers_from_0_to_255() {
    assert_eq!(byte_of(&num(0)), Ok(0));
    assert_eq!(byte_of(&num(255)), Ok(255));
    assert_eq!(byte_of(&num(256)), Err(SchemaError::ByteOutOfRange));
    assert_eq!(byte_of(&num(-1)), Err(SchemaError::ByteOutOfRange));
    assert_eq!(byte_of(&text("10")), Err(SchemaError::WrongType));
    assert_eq!(bytes_of(&vec![num(66), num(77)]), Ok(vec![66, 77]));
    assert_eq!(bytes_of(&vec![]), Ok(vec![]));
    assert_eq!(bytes_of(&vec![num(66), num(300), text("x")]), Err(SchemaError::ByteOutOfRange));
    assert_eq!(bytes_of(&vec![text("x"), num(300)]), Err(SchemaError::WrongType));
}

#[test]
fn expressions_of_every_form() {
    assert_eq!(expression_of(&num(-4)), Ok(Expression::Literal(-4)));
    assert_eq!(expression_of(&text("header size")), Ok(Expression::Variable("header size".to_string())));
    assert_eq!(
        expression_of(&table(vec![("+", list(vec![text("n"), num(-4)]))])),
        Ok(Expression::Sum(vec![Expression::Variable("n".to_string()), Expression::Literal(-4)]))
    );
    assert_eq!(
        expression_of(&table(vec![("*", list(vec![num(2), num(3)]))])),
        Ok(Expression::Product(vec![Expression::Literal(2), Expression::Literal(3)]))
    );
    assert_eq!(
        expression_of(&table(vec![("//", num(8)), ("input", text("bits"))])),
        Ok(Expression::IntegerDivide(
            Box::new(Expression::Variable("bits".to_string())),
            Box::new(Expression::Literal(8)),
        ))
    );
    assert_eq!(
        expression_of(&table(vec![("input", text("row")), ("to_floor_multiple_of", num(4))])),
        Ok(Expression::RoundUpToMultiple(
            Box::new(Expression::Variable("row".to_string())),
            Box::new(Expression::Literal(4)),
        ))
    );
}

#[test]
fn operators_are_tried_in_order() {
    // `+` over something that is no list is passed over.
    assert_eq!(
        expression_of(&table(vec![("+", num(1)), ("*", list(vec![num(2)]))])),
        Ok(Expression::Product(vec![Expression::Literal(2)]))
    );
    assert_eq!(
        expression_of(&table(vec![("*", list(vec![num(2)])), ("+", list(vec![num(1)]))])),
        Ok(Expression::Sum(vec![Expression::Literal(1)]))
    );
    assert_eq!(
        expression_of(&table(vec![("to_floor_multiple_of", num(4)), ("//", num(2)), ("input", num(9))])),
        Ok(Expression::IntegerDivide(Box::new(Expression::Literal(9)), Box::new(Expression::Literal(2))))
    );
}

#[test]
fn documents_that_are_no_expression() {
    assert_eq!(expression_of(&Document::Other), Err(SchemaError::BadExpression));
    assert_eq!(expression_of(&list(vec![num(1)])), Err(SchemaError::BadExpression));
    assert_eq!(expression_of(&table(vec![])), Err(SchemaError::BadExpression));
    assert_eq!(expression_of(&table(vec![("-", list(vec![]))])), Err(SchemaError::BadExpression));
    assert_eq!(expression_of(&table(vec![("+", num(1))])), Err(SchemaError::BadExpression));
    assert_eq!(expression_of(&table(vec![("//", num(2))])), Err(SchemaError::MissingField));
    assert_eq!(
        expression_of(&table(vec![("to_floor_multiple_of", num(2))])),
        Err(SchemaError::MissingField)
    );
    assert_eq!(
        expression_of(&table(vec![("+", list(vec![num(1), Document::Other, table(vec![("//", num(1))])]))])),
        Err(SchemaError::BadExpression)
    );
    assert_eq!(
        expression_of(&table(vec![("//", Document::Other), ("input", table(vec![("//", num(1))]))])),
        Err(SchemaError::MissingField)
    );
}

#[test]
fn rules_of_every_kind() {
    assert_eq!(
        rule_of(&table(vec![("type", text("u16")), ("id", text("n"))])),
        Ok(Rule::FixedWidthInteger { id: id("n"), width: IntegerWidth::Two })
    );
    assert_eq!(
        rule_of(&table(vec![("type", text("u32"))])),
        Ok(Rule::FixedWidthInteger { id: None, width: IntegerWidth::Four })
    );
    assert_eq!(
        rule_of(&table(vec![("type", text("constants")), ("constants", list(vec![num(66), num(77)]))])),
        Ok(Rule::Constants { id: None, bytes: vec![66, 77] })
    );
    assert_eq!(
        rule_of(&table(vec![("id", text("gap")), ("type", text("skim")), ("len_bytes", text("n"))])),
        Ok(Rule::RawSpan { id: id("gap"), length: Expression::Variable("n".to_string()) })
    );
    assert_eq!(
        rule_of(&table(vec![("type", text("until_byte")), ("byte", num(10))])),
        Ok(Rule::UntilByte { id: None, sentinel: 10 })
    );
    assert_eq!(
        rule_of(&table(vec![
            ("type", text("tuple")),
            ("items", list(vec![table(vec![("type", text("u16"))]), table(vec![("type", text("u32"))])])),
        ])),
        Ok(Rule::Tuple {
            id: None,
            items: vec![
                Rule::FixedWidthInteger { id: None, width: IntegerWidth::Two },
                Rule::FixedWidthInteger { id: None, width: IntegerWidth::Four },
            ],
        })
    );
    assert_eq!(
        rule_of(&table(vec![
            ("type", text("repeat")),
            ("id", text("table")),
            ("repeat_times", num(3)),
            ("children", table(vec![("type", text("u16"))])),
        ])),
        Ok(Rule::Repeat {
            id: id("table"),
            count: Expression::Literal(3),
            child: Box::new(Rule::FixedWidthInteger { id: None, width: IntegerWidth::Two }),
        })
    );
    assert_eq!(
        rule_of(&table(vec![("type", text("repeat0")), ("children", table(vec![("type", text("u16"))]))])),
        Ok(Rule::Repeat0 {
            id: None,
            child: Box::new(Rule::FixedWidthInteger { id: None, width: IntegerWidth::Two }),
        })
    );
}

#[test]
fn rules_of_unknown_kind() {
    assert_eq!(rule_of(&table(vec![("type", text("u64"))])), Ok(Rule::Unknown));
    assert_eq!(rule_of(&table(vec![("id", text("n"))])), Ok(Rule::Unknown));
    assert_eq!(rule_of(&table(vec![("type", num(16))])), Ok(Rule::Unknown));
    assert_eq!(rule_of(&table(vec![])), Ok(Rule::Unknown));
}

#[test]
fn id_that_is_no_string_is_no_id() {
    assert_eq!(
        rule_of(&table(vec![("type", text("u16")), ("id", num(7))])),
        Ok(Rule::FixedWidthInteger { id: None, width: IntegerWidth::Two })
    );
}

#[test]
fn documents_that_are_no_rule() {
    assert_eq!(rule_of(&text("u16")), Err(SchemaError::NotAMapping));
    assert_eq!(rule_of(&list(vec![])), Err(SchemaError::NotAMapping));
    assert_eq!(rule_of(&table(vec![("type", text("skim"))])), Err(SchemaError::MissingField));
    assert_eq!(rule_of(&table(vec![("type", text("until_byte"))])), Err(SchemaError::MissingField));
    assert_eq!(rule_of(&table(vec![("type", text("tuple"))])), Err(SchemaError::MissingField));
    assert_eq!(rule_of(&table(vec![("type", text("constants"))])), Err(SchemaError::MissingField));
    assert_eq!(rule_of(&table(vec![("type", text("repeat0"))])), Err(SchemaError::MissingField));
    assert_eq!(
        rule_of(&table(vec![("type", text("repeat")), ("repeat_times", num(1))])),
        Err(SchemaError::MissingField)
    );
    assert_eq!(
        rule_of(&table(vec![("type", text("repeat")), ("children", table(vec![]))])),
        Err(SchemaError::MissingField)
    );
    assert_eq!(
        rule_of(&table(vec![("type", text("tuple")), ("items", num(1))])),
        Err(SchemaError::WrongType)
    );
    assert_eq!(
        rule_of(&table(vec![("type", text("constants")), ("constants", text("BM"))])),
        Err(SchemaError::WrongType)
    );
    assert_eq!(
        rule_of(&table(vec![("type", text("until_byte")), ("byte", text("x"))])),
        Err(SchemaError::WrongType)
    );
    assert_eq!(
        rule_of(&table(vec![("type", text("until_byte")), ("byte", num(256))])),
        Err(SchemaError::ByteOutOfRange)
    );
    assert_eq!(
        rule_of(&table(vec![("type", text("repeat0")), ("children", list(vec![]))])),
        Err(SchemaError::NotAMapping)
    );
    assert_eq!(
        rule_of(&table(vec![("type", text("tuple")), ("items", list(vec![table(vec![]), num(1)]))])),
        Err(SchemaError::NotAMapping)
    );
    assert_eq!(
        rule_of(&table(vec![("type", text("skim")), ("len_bytes", Document::Other)])),
        Err(SchemaError::BadExpression)
    );
    assert_eq!(
        rule_of(&table(vec![
            ("type", text("repeat")),
            ("repeat_times", Document::Other),
            ("children", num(1)),
        ])),
        Err(SchemaError::BadExpression)
    );
}

#[test]
fn text_schema_is_lines_to_the_end() {
    assert_eq!(
        load_schema(&Parsers::TextFileUTF8),
        Some(Rule::Repeat0 {
            id: id("text file"),
            child: Box::new(Rule::UntilByte { id: id("line"), sentinel: 10 }),
        })
    );
}

#[test]
fn bitmap_schema_is_read() {
    let rule = load_schema(&Parsers::WindowsBitMap);
    match rule {
        Some(Rule::Tuple { id: root, items }) => {
            assert_eq!(root, id("bitmap"));
            assert_eq!(items.len(), 4);
            assert_eq!(
                items[2],
                Rule::RawSpan {
                    id: id("color table"),
                    length: Expression::Sum(vec![
                        Expression::Variable("pixel data offset".to_string()),
                        Expression::Literal(-14),
                        Expression::Product(vec![
                            Expression::Variable("header size".to_string()),
                            Expression::Literal(-1),
                        ]),
                    ]),
                }
            );
        }
        other => panic!("{:?}", other),
    }
}

#[test]
fn schema_text_is_yaml() {
    for parser in [Parsers::TextFileUTF8, Parsers::WindowsBitMap] {
        let text = parser.get_syntax();
        assert!(!text.is_empty());
        assert!(load(text).is_some());
    }
    assert!(Parsers::TextFileUTF8.get_syntax().starts_with(b"type: repeat0\n"));
}

#[test]
fn lists_fail_with_their_first_error() {
    assert_eq!(expressions_of(&vec![]), Ok(vec![]));
    assert_eq!(
        expressions_of(&vec![num(1), text("n")]),
        Ok(vec![Expression::Literal(1), Expression::Variable("n".to_string())])
    );
    assert_eq!(
        expressions_of(&vec![num(1), table(vec![("//", num(2))]), Document::Other]),
        Err(SchemaError::MissingField)
    );
    assert_eq!(rules_of(&vec![]), Ok(vec![]));
    assert_eq!(
        rules_of(&vec![table(vec![("type", text("u16"))]), table(vec![])]),
        Ok(vec![Rule::FixedWidthInteger { id: None, width: IntegerWidth::Two }, Rule::Unknown])
    );
    assert_eq!(
        rules_of(&vec![table(vec![("type", text("tuple"))]), num(1)]),
        Err(SchemaError::MissingField)
    );
    assert_eq!(
        rules_of(&vec![num(1), table(vec![("type", text("tuple"))])]),
        Err(SchemaError::NotAMapping)
    );
}

#[test]
fn identifiers_are_copied() {
    assert_eq!(clone_id(&None), None);
    assert_eq!(clone_id(&id("file size")), id("file size"));
    assert_eq!(clone_id(&id("")), id(""));
}
