use json_localizer::document::Document;
use json_localizer::failure::Failure;

fn text(s: &str) -> Document {
    Document::Text(s.to_string())
}

fn entry(key: &str, value: Document) -> (String, Document) {
    (key.to_string(), value)
}

fn number(n: u64) -> Document {
    Document::Number(serde_json::Number::from(n))
}

fn texts(items: &[&str]) -> Vec<String> {
    items.iter().map(|s| s.to_string()).collect()
}

fn sample() -> Document {
    Document::Object(vec![
        entry("a", text("hello")),
        entry("b", Document::Object(vec![entry("c", text(""))])),
    ])
}

fn mixed() -> Document {
    Document::Object(vec![
        entry("title", text("Welcome")),
        entry("count", number(3)),
        entry("draft", Document::Bool(false)),
        entry("note", Document::Null),
        entry("blank", text("")),
        entry(
            "menu",
            Document::Array(vec![
                text("Open"),
                number(7),
                Document::Object(vec![entry("label", text("Close"))]),
                text(""),
            ]),
        ),
        entry("footer", text("Bye")),
    ])
}

#[test]
fn leaves_skip_empty_strings() {
    assert_eq!(sample().leaves(), texts(&["hello"]));
}

#[test]
fn leaves_follow_document_order() {
    assert_eq!(mixed().leaves(), texts(&["Welcome", "Open", "Close", "Bye"]));
}

#[test]
fn leaves_of_scalars_are_none() {
    assert_eq!(Document::Null.leaves(), Vec::<String>::new());
    assert_eq!(Document::Bool(true).leaves(), Vec::<String>::new());
    assert_eq!(number(1).leaves(), Vec::<String>::new());
    assert_eq!(text("").leaves(), Vec::<String>::new());
    assert_eq!(text("x").leaves(), texts(&["x"]));
}

#[test]
fn substitute_replaces_leaves_in_order() {
    let translated = mixed()
        .substitute(&texts(&["Bienvenue", "Ouvrir", "Fermer", "Salut"]))
        .unwrap();
    let expected = Document::Object(vec![
        entry("title", text("Bienvenue")),
        entry("count", number(3)),
        entry("draft", Document::Bool(false)),
        entry("note", Document::Null),
        entry("blank", text("")),
        entry(
            "menu",
            Document::Array(vec![
                text("Ouvrir"),
                number(7),
                Document::Object(vec![entry("label", text("Fermer"))]),
                text(""),
            ]),
        ),
        entry("footer", text("Salut")),
    ]);
    assert_eq!(translated, expected);
}

#[test]
fn substitute_with_own_leaves_gives_the_document_back() {
    let leaves = mixed().leaves();
    assert_eq!(mixed().substitute(&leaves), Some(mixed()));
    let leaves = sample().leaves();
    assert_eq!(sample().substitute(&leaves), Some(sample()));
}

#[test]
fn substitute_wants_one_text_for_each_leaf() {
    assert_eq!(mixed().substitute(&texts(&["a", "b", "c"])), None);
    assert_eq!(mixed().substitute(&texts(&["a", "b", "c", "d", "e"])), None);
    assert_eq!(sample().substitute(&texts(&[])), None);
    assert_eq!(text("").substitute(&texts(&["x"])), None);
    assert_eq!(text("").substitute(&texts(&[])), Some(text("")));
}

#[test]
fn substitute_leaves_empty_strings_empty() {
    let translated = sample().substitute(&texts(&["bonjour"])).unwrap();
    assert_eq!(
        translated,
        Document::Object(vec![
            entry("a", text("bonjour")),
            entry("b", Document::Object(vec![entry("c", text(""))])),
        ])
    );
}

#[test]
fn substitute_may_put_an_empty_answer() {
    assert_eq!(text("x").substitute(&texts(&[""])), Some(text("")));
}

#[test]
fn parse_reads_nested_objects() {
    let doc = Document::parse("{\"a\":\"hello\",\"b\":{\"c\":\"\"}}").unwrap();
    assert_eq!(doc, sample());
}

#[test]
fn parse_reads_every_kind_of_value() {
    let doc = Document::parse("[null, true, 12, \"x\", [], {}]").unwrap();
    assert_eq!(
        doc,
        Document::Array(vec![
            Document::Null,
            Document::Bool(true),
            number(12),
            text("x"),
            Document::Array(vec![]),
            Document::Object(vec![]),
        ])
    );
}

#[test]
fn parse_keeps_the_last_of_equal_keys() {
    let doc = Document::parse("{\"a\":\"x\",\"a\":\"y\"}").unwrap();
    assert_eq!(doc, Document::Object(vec![entry("a", text("y"))]));
}

#[test]
fn parse_rejects_what_is_not_json() {
    assert_eq!(Document::parse("{\"a\":"), Err(Failure::Parse));
    assert_eq!(Document::parse(""), Err(Failure::Parse));
    assert_eq!(Document::parse("{} trailing"), Err(Failure::Parse));
}

#[test]
fn into_pretty_prints_with_two_spaces() {
    assert_eq!(
        sample().into_pretty(),
        "{\n  \"a\": \"hello\",\n  \"b\": {\n    \"c\": \"\"\n  }\n}"
    );
    assert_eq!(
        Document::Array(vec![number(1), Document::Null, Document::Bool(true)]).into_pretty(),
        "[\n  1,\n  null,\n  true\n]"
    );
    assert_eq!(text("x").into_pretty(), "\"x\"");
}

#[test]
fn into_pretty_takes_the_later_of_equal_keys() {
    let doc = Document::Object(vec![entry("k", text("first")), entry("k", text("second"))]);
    assert_eq!(doc.into_pretty(), "{\n  \"k\": \"second\"\n}");
}

#[test]
fn printed_document_parses_back() {
    let printed = mixed().into_pretty();
    let back = Document::parse(&printed).unwrap();
    assert_eq!(back.leaves().len(), 4);
    assert_eq!(back.into_pretty(), printed);
}

#[test]
fn example_document_is_translated() {
    let doc = Document::parse("{\"a\":\"hello\",\"b\":{\"c\":\"\"}}").unwrap();
    let answers: Vec<String> = doc
        .leaves()
        .iter()
        .map(|leaf| if leaf == "hello" { "bonjour".to_string() } else { leaf.clone() })
        .collect();
    let translated = doc.substitute(&answers).unwrap();
    let expected = Document::parse("{\"a\":\"bonjour\",\"b\":{\"c\":\"\"}}").unwrap();
    assert_eq!(translated, expected);
    assert_eq!(
        translated.into_pretty(),
        "{\n  \"a\": \"bonjour\",\n  \"b\": {\n    \"c\": \"\"\n  }\n}"
    );
}

#[test]
fn numbers_pass_through_unchanged() {
    let input = "{\"big\":18446744073709551615,\"half\":1.5,\"minus\":-3,\"t\":\"x\"}";
    let doc = Document::parse(input).unwrap();
    assert_eq!(
        doc,
        Document::Object(vec![
            entry("big", Document::Number(serde_json::Number::from(u64::MAX))),
            entry("half", Document::Number(serde_json::Number::from_f64(1.5).unwrap())),
            entry("minus", Document::Number(serde_json::Number::from(-3i64))),
            entry("t", text("x")),
        ])
    );
    let translated = doc.substitute(&texts(&["y"])).unwrap();
    assert_eq!(
        translated.into_pretty(),
        "{\n  \"big\": 18446744073709551615,\n  \"half\": 1.5,\n  \"minus\": -3,\n  \"t\": \"y\"\n}"
    );
}

#[test]
fn strings_keep_their_characters() {
    let doc = Document::parse("{\"k\":\"h\\u00e9llo \\\"you\\\"\\n\"}").unwrap();
    assert_eq!(doc.leaves(), texts(&["h\u{e9}llo \"you\"\n"]));
    assert_eq!(
        doc.into_pretty(),
        "{\n  \"k\": \"h\u{e9}llo \\\"you\\\"\\n\"\n}"
    );
}

#[test]
fn deep_nesting_is_walked_in_order() {
    let doc = Document::Array(vec![
        Document::Array(vec![text("a"), Document::Array(vec![text("b")])]),
        Document::Object(vec![
            entry("x", Document::Array(vec![text(""), text("c")])),
            entry("y", text("d")),
        ]),
        text("e"),
    ]);
    assert_eq!(doc.leaves(), texts(&["a", "b", "c", "d", "e"]));
    let translated = doc.substitute(&texts(&["1", "2", "3", "4", "5"])).unwrap();
    assert_eq!(
        translated,
        Document::Array(vec![
            Document::Array(vec![text("1"), Document::Array(vec![text("2")])]),
            Document::Object(vec![
                entry("x", Document::Array(vec![text(""), text("3")])),
                entry("y", text("4")),
            ]),
            text("5"),
        ])
    );
}
