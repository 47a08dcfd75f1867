use microjson::{JSONParsingError, JSONValue, JSONValueType};

#[test]
fn well_formed_text_verifies_with_matching_tag() {
    let cases = [
        ("null", JSONValueType::Null),
        ("true", JSONValueType::Bool),
        ("false", JSONValueType::Bool),
        ("-12.5e3", JSONValueType::Number),
        ("\"a \\\"quoted\\\" piece\"", JSONValueType::String),
        ("[]", JSONValueType::Array),
        ("[1, [2, {}], \"x\"]", JSONValueType::Array),
        ("{}", JSONValueType::Object),
        ("  {\"a\": [1, 2], \"b\": {\"c\": null}}  ", JSONValueType::Object),
    ];
    for (text, tag) in cases {
        let value = JSONValue::load_and_verify(text).unwrap();
        assert_eq!(value.value_type, tag);
    }
}

#[test]
fn scanning_twice_is_deterministic() {
    let text = "  {\"a\": [1, 2e4, \"x\"]} trailing";
    let first = JSONValue::parse_with_len(text).unwrap();
    let second = JSONValue::parse_with_len(text).unwrap();
    assert_eq!(first.1, second.1);
    assert_eq!(first.0.value_type, second.0.value_type);
}

#[test]
fn lookup_agrees_with_iteration() {
    let object = JSONValue::load("{\"a\":1}");
    let looked_up = object.get_key_value("a").unwrap();
    let mut members = object.iter_object().unwrap();
    let (key, iterated) = members.next().unwrap().unwrap();
    assert_eq!(key, "a");
    assert_eq!(looked_up.value_type, iterated.value_type);
    assert_eq!(looked_up.read_integer(), iterated.read_integer());
    assert_eq!(looked_up.read_integer(), Ok(1));
}

#[test]
fn whitespace_tolerant_integer_reads() {
    assert_eq!(JSONValue::load("  42  ").read_integer(), Ok(42));
    assert_eq!(JSONValue::load("42").read_integer(), Ok(42));
    assert_eq!(JSONValue::load("  42").read_integer(), Ok(42));
}

#[test]
fn escape_decoding_sequence() {
    let mut decoded = String::new();
    let mut chars = JSONValue::load(r#""\"I\n\thave\b\fa\\dream\/\"\u00a3""#)
        .iter_string()
        .unwrap();
    while let Some(item) = chars.next() {
        decoded.push(item.unwrap());
    }
    let expected: Vec<char> = vec![
        '"', 'I', '\n', '\t', 'h', 'a', 'v', 'e', '\x08', '\x0c', 'a', '\\', 'd', 'r', 'e', 'a',
        'm', '/', '"', '£',
    ];
    let collected: Vec<char> = decoded.chars().collect();
    assert_eq!(collected, expected);
}

#[test]
fn squares_by_index() {
    let text = "[0,1,4,9,16,25]";
    let value = JSONValue::load(text);
    for i in 0..6 {
        let element = value.iter_array().unwrap().nth(i).unwrap();
        assert_eq!(element.read_integer(), Ok((i * i) as isize));
    }
    assert!(value.iter_array().unwrap().nth(6).is_none());
    assert!(value.iter_array().unwrap().nth(100).is_none());
}

#[test]
fn missing_key_and_malformed_objects() {
    let object = JSONValue::load("{\"a\":1}");
    assert_eq!(
        object.get_key_value("b").err(),
        Some(JSONParsingError::KeyNotFound)
    );
    assert_eq!(
        JSONValue::load("{\"a\":}").verify().err(),
        Some(JSONParsingError::UnexpectedToken)
    );
    assert_eq!(
        JSONValue::load("{\"a\":1").verify().err(),
        Some(JSONParsingError::EndOfStream)
    );
}

#[test]
fn lookup_forwards_scan_errors() {
    let object = JSONValue::load("{\"a\":}");
    assert_eq!(
        object.get_key_value("b").err(),
        Some(JSONParsingError::UnexpectedToken)
    );
}

#[test]
fn nested_lookup() {
    let object = JSONValue::load("{\"outer\": {\"inner\": [10, 20]}}");
    let inner = object.get_key_value("outer").unwrap();
    let list = inner.get_key_value("inner").unwrap();
    assert_eq!(list.value_type, JSONValueType::Array);
    assert_eq!(
        list.iter_array().unwrap().nth(1).unwrap().read_integer(),
        Ok(20)
    );
}

#[test]
fn duplicate_keys_first_wins() {
    let object = JSONValue::load("{\"k\": 1, \"k\": 2}");
    assert_eq!(object.get_key_value("k").unwrap().read_integer(), Ok(1));
}

#[test]
fn array_iterator_stops_at_malformed_tail() {
    // a scan failure on trailing content ends iteration exactly like the
    // closing bracket does
    let value = JSONValue::load("[1, 2, x]");
    let mut elements = value.iter_array().unwrap();
    assert_eq!(elements.next().unwrap().read_integer(), Ok(1));
    assert_eq!(elements.next().unwrap().read_integer(), Ok(2));
    assert!(elements.next().is_none());
    assert!(elements.next().is_none());
}

#[test]
fn unterminated_leading_brace_scans() {
    // the member loop accepts text that is exhausted at its very top, so
    // a lone opening brace passes verification
    assert!(JSONValue::load_and_verify("{").is_ok());
    assert!(JSONValue::load_and_verify("[").is_ok());
}

#[test]
fn lone_quote_read_string_fails() {
    assert_eq!(
        JSONValue::load("\"").read_string().err(),
        Some(JSONParsingError::EndOfStream)
    );
}

#[test]
fn empty_object_and_array_iterate_nothing() {
    let mut elements = JSONValue::load("[  ]").iter_array().unwrap();
    assert!(elements.next().is_none());
    let mut members = JSONValue::load("{  }").iter_object().unwrap();
    assert!(members.next().is_none());
}

#[test]
fn keys_compare_raw() {
    // the search term is compared against the raw key text: a key that
    // needs escape decoding to equal the term does not match
    let object = JSONValue::load("{\"a\\\"b\": 7}");
    assert_eq!(
        object.get_key_value("a\"b").err(),
        Some(JSONParsingError::KeyNotFound)
    );
    assert_eq!(
        object.get_key_value("a\\\"b").unwrap().read_integer(),
        Ok(7)
    );
}

#[test]
fn literals_verify() {
    assert!(JSONValue::load_and_verify("true").is_ok());
    assert!(JSONValue::load_and_verify("false").is_ok());
    assert!(JSONValue::load_and_verify("null").is_ok());
    assert_eq!(
        JSONValue::load("tru").verify().err(),
        Some(JSONParsingError::UnexpectedToken)
    );
    assert_eq!(
        JSONValue::load("nil").verify().err(),
        Some(JSONParsingError::UnexpectedToken)
    );
    assert!(JSONValue::load_and_verify("[[[[[1]]]]]").is_ok());
}

#[test]
fn object_iterator_empties_after_error() {
    let mut members = JSONValue::load("{\"a\":,\"b\":2}").iter_object().unwrap();
    assert!(matches!(
        members.next(),
        Some(Err(JSONParsingError::UnexpectedToken))
    ));
    assert!(members.next().is_none());
}
