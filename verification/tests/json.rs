use looking_glass::json::{
    address_message, disconnect_document, disconnect_json, status_document, status_json,
};

fn expected_status(brand: &str, protocol: i32) -> serde_json::Value {
    let mut version = serde_json::Map::new();
    version.insert("name".to_string(), serde_json::Value::from(brand));
    version.insert("protocol".to_string(), serde_json::Value::from(protocol));
    let mut players = serde_json::Map::new();
    players.insert("max".to_string(), serde_json::Value::from(0));
    players.insert("online".to_string(), serde_json::Value::from(0));
    players.insert("sample".to_string(), serde_json::Value::Array(Vec::new()));
    let mut root = serde_json::Map::new();
    root.insert("version".to_string(), serde_json::Value::Object(version));
    root.insert("players".to_string(), serde_json::Value::Object(players));
    serde_json::Value::Object(root)
}

fn expected_disconnect(peer: &str) -> serde_json::Value {
    let mut root = serde_json::Map::new();
    root.insert(
        "text".to_string(),
        serde_json::Value::from(format!("Your IP address is {}", peer)),
    );
    serde_json::Value::Object(root)
}

#[test]
fn status_document_has_the_exact_text() {
    assert_eq!(
        status_json("Void", 767),
        "{\"players\":{\"max\":0,\"online\":0,\"sample\":[]},\"version\":{\"name\":\"Void\",\"protocol\":767}}"
    );
}

#[test]
fn status_document_is_what_serde_json_writes() {
    for (brand, protocol) in [("Void", 767), ("", 1), ("a b c", 47), ("x", 2147483647)] {
        assert_eq!(status_json(brand, protocol), expected_status(brand, protocol).to_string());
    }
}

#[test]
fn status_document_parses_back() {
    let text = status_json("Void", 767);
    let value: serde_json::Value = serde_json::from_str(&text).unwrap();
    assert_eq!(value["version"]["name"], serde_json::Value::from("Void"));
    assert_eq!(value["version"]["protocol"], serde_json::Value::from(767));
    assert_eq!(value["players"]["max"], serde_json::Value::from(0));
    assert_eq!(value["players"]["online"], serde_json::Value::from(0));
    assert_eq!(value["players"]["sample"], serde_json::Value::Array(Vec::new()));
    assert_eq!(value.as_object().unwrap().len(), 2);
    assert_eq!(value["version"].as_object().unwrap().len(), 2);
    assert_eq!(value["players"].as_object().unwrap().len(), 3);
}

#[test]
fn brand_is_escaped() {
    let brands = [
        "say \"hi\"",
        "back\\slash",
        "line\nbreak\ttab",
        "\u{0}\u{1f}",
        "caf\u{e9} \u{1f600}",
        "}{\",:[]",
    ];
    for brand in brands {
        let text = status_json(brand, 5);
        assert_eq!(text, expected_status(brand, 5).to_string());
        let value: serde_json::Value = serde_json::from_str(&text).unwrap();
        assert_eq!(value["version"]["name"], serde_json::Value::from(brand));
        assert_eq!(value, expected_status(brand, 5));
    }
    assert_eq!(
        status_json("a\"b", 1),
        "{\"players\":{\"max\":0,\"online\":0,\"sample\":[]},\"version\":{\"name\":\"a\\\"b\",\"protocol\":1}}"
    );
}

#[test]
fn protocol_number_is_plain_decimal() {
    let tail = |text: String| text[text.rfind(':').unwrap() + 1..].to_string();
    assert_eq!(tail(status_json("v", 0)), "0}}");
    assert_eq!(tail(status_json("v", 7)), "7}}");
    assert_eq!(tail(status_json("v", 10)), "10}}");
    assert_eq!(tail(status_json("v", 767)), "767}}");
    assert_eq!(tail(status_json("v", 1073741923)), "1073741923}}");
    assert_eq!(tail(status_json("v", 2147483647)), "2147483647}}");
    assert_eq!(tail(status_json("v", -1)), "-1}}");
    assert_eq!(tail(status_json("v", -2147483648)), "-2147483648}}");
}

#[test]
fn status_layout_takes_its_parts_as_they_are() {
    assert_eq!(
        status_document("\"N\"", "12"),
        "{\"players\":{\"max\":0,\"online\":0,\"sample\":[]},\"version\":{\"name\":\"N\",\"protocol\":12}}"
    );
    assert_eq!(
        status_document("", ""),
        "{\"players\":{\"max\":0,\"online\":0,\"sample\":[]},\"version\":{\"name\":,\"protocol\":}}"
    );
}

#[test]
fn disconnect_document_has_the_exact_text() {
    assert_eq!(
        disconnect_json("203.0.113.7"),
        "{\"text\":\"Your IP address is 203.0.113.7\"}"
    );
    assert_eq!(disconnect_json("::1"), "{\"text\":\"Your IP address is ::1\"}");
}

#[test]
fn disconnect_document_is_what_serde_json_writes() {
    for peer in ["203.0.113.7", "2001:db8::1", "", "odd \"peer\"\n"] {
        let text = disconnect_json(peer);
        assert_eq!(text, expected_disconnect(peer).to_string());
        let value: serde_json::Value = serde_json::from_str(&text).unwrap();
        assert_eq!(
            value["text"],
            serde_json::Value::from(format!("Your IP address is {}", peer))
        );
        assert_eq!(value.as_object().unwrap().len(), 1);
    }
}

#[test]
fn disconnect_layout_takes_its_message_as_it_is() {
    assert_eq!(disconnect_document("\"bye\""), "{\"text\":\"bye\"}");
    assert_eq!(disconnect_document(""), "{\"text\":}");
}

#[test]
fn address_message_names_the_peer() {
    assert_eq!(address_message("203.0.113.7"), "Your IP address is 203.0.113.7");
    assert_eq!(address_message(""), "Your IP address is ");
}
