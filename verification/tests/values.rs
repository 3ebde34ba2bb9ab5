use session_repair::config::{parse_toml, parse_toml_value, Toml};
use session_repair::json::{parse, parse_or_explain, render, Json};
use session_repair::stamps::{millis_of, moment_texts};

fn reading(text: &str) -> Json {
    match parse(text) {
        Some(value) => value,
        None => panic!("not read: {text}"),
    }
}

#[test]
fn documents_are_read_and_written_compactly() {
    let value = reading(" { \"b\" : [1, -2, 2.5, null, true] , \"a\" : \"x\\u0041\" } ");
    assert_eq!(value.get_str("a").map(|text| text.as_str()), Some("xA"));
    assert!(value.has_str("a", "xA"));
    assert!(!value.has_str("b", "xA"));
    let items = match value.get_list("b") {
        Some(items) => items,
        None => panic!("no list"),
    };
    assert!(matches!(items[0], Json::Unsigned(1)));
    assert!(matches!(items[1], Json::Negative(-2)));
    assert!(matches!(items[2], Json::Fraction(_)));
    assert!(matches!(items[3], Json::Null));
    assert!(matches!(items[4], Json::Bool(true)));
    let again: serde_json::Value = match serde_json::from_str(&render(&value)) {
        Ok(again) => again,
        Err(error) => panic!("{error}"),
    };
    let expected: serde_json::Value =
        match serde_json::from_str("{\"a\":\"xA\",\"b\":[1,-2,2.5,null,true]}") {
            Ok(expected) => expected,
            Err(error) => panic!("{error}"),
        };
    assert_eq!(again, expected);
    assert!(!render(&value).contains(' '));
}

#[test]
fn the_last_of_two_members_counts() {
    let value = reading("{\"a\":\"first\",\"a\":\"second\"}");
    assert!(value.has_str("a", "second"));
    let set = value.set_str("a", "third");
    assert!(set.has_str("a", "third"));
    assert_eq!(render(&set), "{\"a\":\"third\"}");
    assert_eq!(render(&set.without("a")), "{}");
}

#[test]
fn objects_are_built_member_by_member() {
    let value = Json::object()
        .set_str("quote", "\"\\")
        .set("none", Json::Null);
    assert_eq!(
        reading(&render(&value)).get_str("quote").map(|t| t.as_str()),
        Some("\"\\")
    );
    assert!(matches!(value.get("none"), Some(Json::Null)));
    assert!(value.get("missing").is_none());
    assert!(Json::text("x").get("quote").is_none());
    assert!(Json::text("x").set_str("a", "b").get("a").is_none());
}

#[test]
fn broken_documents_are_explained() {
    assert!(parse("not json").is_none());
    assert!(parse("{} trailing").is_none());
    match parse_or_explain("{\"a\":") {
        Ok(_) => panic!("read"),
        Err(error) => {
            let expected = match serde_json::from_str::<serde_json::Value>("{\"a\":") {
                Ok(_) => panic!("read"),
                Err(error) => error.to_string(),
            };
            assert_eq!(error, expected);
        }
    }
}

#[test]
fn configuration_documents_are_read_by_table() {
    let document = match parse_toml("top = 1\n[a.b]\nname = \"x\"\nflag = true\n") {
        Ok(document) => document,
        Err(error) => panic!("{error}"),
    };
    assert!(matches!(document.get("top"), Some(Toml::Integer(1))));
    let inner = match document.get_table("a").and_then(|a| a.get_table("b")) {
        Some(inner) => inner,
        None => panic!("no table"),
    };
    assert!(matches!(inner.get("name"), Some(Toml::Text(name)) if name == "x"));
    assert!(matches!(inner.get("flag"), Some(Toml::Other)));
    assert!(document.get_table("top").is_none());
    match parse_toml("a = [\n") {
        Ok(_) => panic!("read"),
        Err(error) => assert!(!error.is_empty()),
    }
}

#[test]
fn moments_are_read_to_the_millisecond() {
    assert_eq!(millis_of("1970-01-01T00:00:01.250Z"), Some(1250));
    assert_eq!(millis_of("2026-04-22T00:00:00Z"), Some(1_776_816_000_000));
    assert_eq!(millis_of("2026-04-22T08:00:00+08:00"), Some(1_776_816_000_000));
    assert_eq!(millis_of("2026-04-22"), None);
    assert_eq!(millis_of(""), None);
}

#[test]
fn moments_are_written_in_parts() {
    let moment = match moment_texts(1_776_816_005) {
        Some(moment) => moment,
        None => panic!("not written"),
    };
    assert_eq!(moment.year, "2026");
    assert_eq!(moment.month, "04");
    assert_eq!(moment.day, "22");
    assert_eq!(moment.stamp, "2026-04-22T00-00-05");
    assert!(moment_texts(i64::MAX).is_none());
}

#[test]
fn texts_are_escaped_between_quotes() {
    let value = Json::object()
        .set_str("b", "\u{1}\u{1f}\u{8}\u{c}\n\r\t\"\\/é\u{7f}")
        .set_str("a", "x");
    assert_eq!(
        render(&value),
        "{\"a\":\"x\",\"b\":\"\\u0001\\u001f\\b\\f\\n\\r\\t\\\"\\\\/é\u{7f}\"}"
    );
    assert_eq!(
        reading(&render(&value)).get_str("b").map(|text| text.as_str()),
        value.get_str("b").map(|text| text.as_str())
    );
}

#[test]
fn values_are_read_back_up_to_a_depth() {
    let nested = |depth: usize| "[".repeat(depth) + &"]".repeat(depth);
    let deep = reading(&nested(127));
    assert_eq!(render(&deep), nested(127));
    assert!(parse(&nested(128)).is_none());
    let numbers = reading("[18446744073709551615,-9223372036854775808,0]");
    assert_eq!(render(&numbers), "[18446744073709551615,-9223372036854775808,0]");
}

#[test]
fn only_two_quotes_are_the_empty_text() {
    assert!(matches!(parse(" \"\"\n"), Some(Json::Text(text)) if text.is_empty()));
    assert!(matches!(parse("\" \""), Some(Json::Text(text)) if text == " "));
    assert!(matches!(parse("\"\\u0000\""), Some(Json::Text(text)) if text.len() == 1));
}

#[test]
fn integers_keep_their_sign() {
    assert_eq!(Json::Negative(5).as_u64(), Some(5));
    assert_eq!(Json::Negative(-5).as_u64(), None);
    assert_eq!(Json::Unsigned(5).as_u64(), Some(5));
    assert_eq!(render(&Json::Negative(5)), "5");
    assert_eq!(render(&Json::Negative(-5)), "-5");
    assert_eq!(render(&reading("2.5")), "2.5");
    assert_eq!(render(&reading("2.5").copy()), "2.5");
}

#[test]
fn configuration_values_are_read_from_whole_texts() {
    let value = match parse_toml_value("[a]\nname = \"x\"\n") {
        Ok(value) => value,
        Err(error) => panic!("{error}"),
    };
    let inner = match value.get_table("a") {
        Some(inner) => inner,
        None => panic!("no table"),
    };
    assert!(matches!(inner.get("name"), Some(Toml::Text(name)) if name == "x"));
    assert!(value.get("name").is_none());
    assert!(parse_toml_value("a = [\n").is_err());
}
