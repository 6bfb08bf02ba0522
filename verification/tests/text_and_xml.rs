use smoqs::action::{parse_action, Action};
use smoqs::dict::Dict;
use smoqs::errors::MyError;
use smoqs::misc::{
    escape_xml, get_attributes, get_message_attribute_names, get_message_attributes, get_new_id,
};
use smoqs::state::State;
use smoqs::text::{last_segment_of, parse_u64, parse_u8, str_eq, u64_to_string};
use smoqs::xml::FormatXML;

fn form(pairs: &[(&str, &str)]) -> Dict {
    let mut d = Dict::new();
    for (k, v) in pairs {
        d.insert(k.to_string(), v.to_string());
    }
    d
}

#[test]
fn escape_xml_escapes_the_five_characters() {
    assert_eq!(escape_xml("a<b>&'\"z"), "a&lt;b&gt;&amp;&apos;&quot;z");
    assert_eq!(escape_xml("plain"), "plain");
    assert_eq!(escape_xml(""), "");
}

#[test]
fn decimal_parsing_and_rendering() {
    assert_eq!(parse_u64("123"), Some(123));
    assert_eq!(parse_u64("+5"), Some(5));
    assert_eq!(parse_u64("0"), Some(0));
    assert_eq!(parse_u64(""), None);
    assert_eq!(parse_u64("+"), None);
    assert_eq!(parse_u64("12x"), None);
    assert_eq!(parse_u64("18446744073709551615"), Some(u64::MAX));
    assert_eq!(parse_u64("18446744073709551616"), None);
    assert_eq!(parse_u8("255"), Some(255));
    assert_eq!(parse_u8("256"), None);
    assert_eq!(u64_to_string(0), "0");
    assert_eq!(u64_to_string(3566), "3566");
    assert_eq!(u64_to_string(u64::MAX), "18446744073709551615");
}

#[test]
fn str_eq_compares_by_characters() {
    assert!(str_eq("abc", "abc"));
    assert!(!str_eq("abc", "abd"));
    assert!(!str_eq("abc", "abcd"));
    assert!(str_eq("", ""));
}

#[test]
fn last_segment_takes_what_follows_the_separator() {
    assert_eq!(last_segment_of("a/b/c", '/'), "c");
    assert_eq!(last_segment_of("abc", '/'), "abc");
    assert_eq!(last_segment_of("a:b:", ':'), "");
}

#[test]
fn queue_path_derivation_handles_urls_and_arns() {
    let state = State::new(3566, "ap-southeast-2", "000000000000");
    let path = state.get_queue_path("http://localhost:3566/000000000000/Q1");
    assert_eq!(path.0, "Q1");
    let path = state.get_queue_path("arn:aws:sqs:ap-southeast-2:000000000000:Q2");
    assert_eq!(path.0, "Q2");
    let url = state.get_queue_url("Q1");
    assert_eq!(url, "http://localhost:3566/000000000000/Q1");
    let arn = state.get_topic_arn("T1");
    assert_eq!(arn.0, "arn:aws:sns:ap-southeast-2:000000000000:T1");
}

#[test]
fn numbered_form_attributes_are_collected_in_order() {
    let f = form(&[
        ("Attribute.1.Name", "A"),
        ("Attribute.1.Value", "1"),
        ("Attribute.2.Name", "B"),
        ("Attribute.2.Value", "2"),
        ("Attribute.4.Name", "D"),
        ("Attribute.4.Value", "4"),
    ]);
    let attrs = get_attributes(&f);
    // The gap at index 3 stops the scan.
    assert_eq!(attrs.entries.len(), 2);
    assert_eq!(attrs.entries[0], ("A".to_string(), "1".to_string()));
    assert_eq!(attrs.entries[1], ("B".to_string(), "2".to_string()));

    let f = form(&[
        ("MessageAttribute.1.Name", "K"),
        ("MessageAttribute.1.Value", "V"),
        ("MessageAttribute.2.Name", "NameOnly"),
    ]);
    let attrs = get_message_attributes(&f);
    assert_eq!(attrs.entries.len(), 1);
    let names = get_message_attribute_names(&f);
    assert_eq!(names, vec!["K".to_string(), "NameOnly".to_string()]);
}

#[test]
fn dict_insert_replaces_and_gets_first_match() {
    let mut d = Dict::new();
    d.insert("k".to_string(), "v1".to_string());
    d.insert("k".to_string(), "v2".to_string());
    d.insert("other".to_string(), "x".to_string());
    assert_eq!(d.entries.len(), 2);
    assert_eq!(d.get("k").map(|s| s.as_str()), Some("v2"));
    assert_eq!(d.get("missing"), None);
    assert!(d.contains_key("other"));
    assert_eq!(d.len(), 2);
}

#[test]
fn format_xml_escapes_and_concatenates() {
    let v = vec!["a&b".to_string(), "c".to_string()];
    assert_eq!(v.to_xml_string("Tag"), "<Tag>a&amp;b</Tag><Tag>c</Tag>");
    assert_eq!("x<y".to_string().to_xml_string("T"), "<T>x&lt;y</T>");
}

#[test]
fn fresh_ids_are_long_and_distinct() {
    let a = get_new_id();
    let b = get_new_id();
    assert_eq!(a.chars().count(), 36);
    assert_eq!(b.chars().count(), 36);
    assert_ne!(a, b);
}

#[test]
fn actions_parse_to_operations() {
    assert!(matches!(
        parse_action(&form(&[("Action", "SendMessage")])),
        Ok(Action::SendMessage)
    ));
    assert!(matches!(
        parse_action(&form(&[("Action", "ListSubscriptionsByTopic")])),
        Ok(Action::ListSubscriptionsByTopic)
    ));
    match parse_action(&form(&[("Action", "Nonsense")])) {
        Err(MyError::UnknownAction(a)) => assert_eq!(a, "Nonsense"),
        other => panic!("unexpected result: {:?}", other.map(|_| ())),
    }
    assert!(matches!(parse_action(&Dict::new()), Err(MyError::MissingAction)));
}

#[test]
fn message_xml_carries_escaped_body_and_digest() {
    let mut state = State::new(3566, "r", "a");
    smoqs::sqs::create_queue(&form(&[("QueueName", "Q")]), &mut state).unwrap();
    let url = state.get_queue_url("Q");
    smoqs::sqs::send_message(
        &form(&[
            ("QueueUrl", url.as_str()),
            ("MessageBody", "a<b"),
            ("MessageAttribute.1.Name", "color"),
            ("MessageAttribute.1.Value", "bl&ue"),
        ]),
        &mut state,
    )
    .unwrap();
    let got = smoqs::sqs::receive_message_resume(
        &form(&[("QueueUrl", url.as_str()), ("MessageAttribute.1.Name", "color")]),
        &mut state,
    )
    .unwrap();
    assert!(got.contains("<Body>a&lt;b</Body>"));
    assert!(got.contains("<Attribute><Name>color</Name><Value>bl&amp;ue</Value></Attribute>"));
    // MD5("a<b")
    assert!(got.contains("<MD5OfBody>1a382af93ed4b8a29ebd8e859a0168d7</MD5OfBody>"));
}
