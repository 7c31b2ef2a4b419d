use http_server::json::encode_orders_json;
use http_server::order::OrderStatus;
use http_server::parse::parse_orders;

fn order(id: i32, date: &str, status: &str) -> OrderStatus {
    OrderStatus { order_id: id, order_date: date.to_string(), status: status.to_string() }
}

#[test]
fn encodes_one_record_exactly() {
    let orders = vec![order(1, "2023-01-01", "shipped")];
    assert_eq!(
        encode_orders_json(&orders),
        "[{\"order_id\":1,\"order_date\":\"2023-01-01\",\"status\":\"shipped\"}]"
    );
}

#[test]
fn encodes_empty_list() {
    let orders: Vec<OrderStatus> = Vec::new();
    assert_eq!(encode_orders_json(&orders), "[]");
}

#[test]
fn encodes_several_records_and_negative_ids() {
    let orders = vec![order(-3, "2021-12-31", "open"), order(0, "2022-02-02", "done")];
    assert_eq!(
        encode_orders_json(&orders),
        "[{\"order_id\":-3,\"order_date\":\"2021-12-31\",\"status\":\"open\"},{\"order_id\":0,\"order_date\":\"2022-02-02\",\"status\":\"done\"}]"
    );
}

#[test]
fn encodes_escapes() {
    let orders = vec![order(1, "a\"b\\c", "line\nbreak\tand\u{1}control")];
    assert_eq!(
        encode_orders_json(&orders),
        "[{\"order_id\":1,\"order_date\":\"a\\\"b\\\\c\",\"status\":\"line\\nbreak\\tand\\u0001control\"}]"
    );
}

#[test]
fn parses_compact_document() {
    let doc = "[{\"order_id\":1,\"order_date\":\"2023-01-01\",\"status\":\"shipped\"}]";
    let orders = parse_orders(doc).unwrap();
    assert_eq!(orders.len(), 1);
    assert_eq!(orders[0].order_id, 1);
    assert_eq!(orders[0].order_date, "2023-01-01");
    assert_eq!(orders[0].status, "shipped");
}

#[test]
fn parses_pretty_printed_document() {
    let doc = "  [\n  { \"order_id\" : 10 ,\n    \"order_date\" : \"2024-06-01\" ,\n    \"status\" : \"packed\" },\n  { \"order_id\" : -2 , \"order_date\" : \"2020-01-01\" , \"status\" : \"lost\" }\n]\n";
    let orders = parse_orders(doc).unwrap();
    assert_eq!(orders.len(), 2);
    assert_eq!(orders[0].order_id, 10);
    assert_eq!(orders[1].order_id, -2);
    assert_eq!(orders[1].status, "lost");
}

#[test]
fn parses_empty_array() {
    assert_eq!(parse_orders(" [ ] ").unwrap().len(), 0);
    assert_eq!(parse_orders("[]").unwrap().len(), 0);
}

#[test]
fn parses_escapes() {
    let doc = "[{\"order_id\":1,\"order_date\":\"a\\\"b\\\\c\\/d\",\"status\":\"x\\n\\t\\u0041\\u0007y\"}]";
    let orders = parse_orders(doc).unwrap();
    assert_eq!(orders[0].order_date, "a\"b\\c/d");
    assert_eq!(orders[0].status, "x\n\tA\u{7}y");
}

#[test]
fn parses_unicode_escapes() {
    let doc = "[{\"order_id\":1,\"order_date\":\"\\u0416\\u00e9\\u041D\",\"status\":\"pair \\ud83d\\ude00 end\"}]";
    let orders = parse_orders(doc).unwrap();
    assert_eq!(orders[0].order_date, "\u{416}\u{e9}\u{41d}");
    assert_eq!(orders[0].status, "pair \u{1F600} end");
}

#[test]
fn rejects_lone_surrogates() {
    for doc in [
        "[{\"order_id\":1,\"order_date\":\"\\ud83d x\",\"status\":\"s\"}]",
        "[{\"order_id\":1,\"order_date\":\"\\ude00\",\"status\":\"s\"}]",
        "[{\"order_id\":1,\"order_date\":\"\\ud83d\\u0041\",\"status\":\"s\"}]",
        "[{\"order_id\":1,\"order_date\":\"\\uZZ00\",\"status\":\"s\"}]",
    ] {
        assert!(parse_orders(doc).is_none(), "accepted {:?}", doc);
    }
}

#[test]
fn rejects_malformed_documents() {
    for doc in [
        "",
        "   ",
        "{}",
        "[",
        "[{]",
        "[{\"order_id\":1}]",
        "[{\"order_id\":01,\"order_date\":\"d\",\"status\":\"s\"}]",
        "[{\"order_id\":1.5,\"order_date\":\"d\",\"status\":\"s\"}]",
        "[{\"order_id\":99999999999,\"order_date\":\"d\",\"status\":\"s\"}]",
        "[{\"order_id\":1,\"order_date\":\"d\",\"status\":\"s\"}] trailing",
        "[{\"order_id\":1,\"order_date\":\"d\",\"status\":\"s\"},]",
        "[{\"order_id\":1,\"order_id\":2,\"order_date\":\"d\",\"status\":\"s\"}]",
        "[{\"order_id\":1,\"order_date\":\"d\",\"status\":\"s\",\"extra\":0}]",
        "[{\"order_id\":1,\"order_date\":\"unterminated,\"status\":\"s\"}]",
    ] {
        assert!(parse_orders(doc).is_none(), "accepted {:?}", doc);
    }
}

#[test]
fn accepts_members_in_any_order() {
    for doc in [
        "[{\"order_id\":9,\"order_date\":\"2024-02-02\",\"status\":\"sent\"}]",
        "[{\"order_date\":\"2024-02-02\",\"order_id\":9,\"status\":\"sent\"}]",
        "[{\"status\":\"sent\",\"order_date\":\"2024-02-02\",\"order_id\":9}]",
        "[{\"status\":\"sent\",\"order_id\":9,\"order_date\":\"2024-02-02\"}]",
        "[ { \"order_date\" : \"2024-02-02\" , \"status\" : \"sent\" , \"order_id\" : 9 } ]",
    ] {
        let orders = parse_orders(doc).unwrap();
        assert_eq!(orders.len(), 1, "doc {:?}", doc);
        assert_eq!(orders[0].order_id, 9);
        assert_eq!(orders[0].order_date, "2024-02-02");
        assert_eq!(orders[0].status, "sent");
    }
}

#[test]
fn accepts_extreme_ids() {
    let doc = "[{\"order_id\":2147483647,\"order_date\":\"d\",\"status\":\"s\"},{\"order_id\":-2147483648,\"order_date\":\"d\",\"status\":\"s\"}]";
    let orders = parse_orders(doc).unwrap();
    assert_eq!(orders[0].order_id, i32::MAX);
    assert_eq!(orders[1].order_id, i32::MIN);
    assert!(parse_orders("[{\"order_id\":2147483648,\"order_date\":\"d\",\"status\":\"s\"}]").is_none());
    assert!(parse_orders("[{\"order_id\":-2147483649,\"order_date\":\"d\",\"status\":\"s\"}]").is_none());
}

#[test]
fn encode_then_parse_returns_the_records() {
    let orders = vec![
        order(i32::MAX, "2023-01-01", "shipped"),
        order(i32::MIN, "quote\" backslash\\ slash/", "ctrl\u{0}\u{1f}\r\x08\x0c"),
        order(0, "", ""),
        order(42, "naïve déjà-vu ☃", "line\nfeed"),
    ];
    let text = encode_orders_json(&orders);
    let back = parse_orders(&text).unwrap();
    assert_eq!(back.len(), orders.len());
    for (a, b) in orders.iter().zip(back.iter()) {
        assert_eq!(a.order_id, b.order_id);
        assert_eq!(a.order_date, b.order_date);
        assert_eq!(a.status, b.status);
    }
}

#[test]
fn encoded_document_is_json_for_serde() {
    let orders = vec![
        order(-17, "2023-07-09", "esc\"aped\\ and\ncontrol\u{2}"),
        order(3, "2024-01-31", "βeta"),
    ];
    let text = encode_orders_json(&orders);
    let value: serde_json::Value = serde_json::from_str(&text).unwrap();
    let records = value.as_array().unwrap();
    assert_eq!(records.len(), 2);
    assert_eq!(records[0]["order_id"].as_i64().unwrap(), -17);
    assert_eq!(records[0]["order_date"].as_str().unwrap(), "2023-07-09");
    assert_eq!(records[0]["status"].as_str().unwrap(), "esc\"aped\\ and\ncontrol\u{2}");
    assert_eq!(records[1]["order_id"].as_i64().unwrap(), 3);
    assert_eq!(records[1]["status"].as_str().unwrap(), "βeta");
}

#[test]
fn parser_agrees_with_serde_on_a_plain_document() {
    let doc = " [ {\"order_id\": 5, \"order_date\": \"2022-03-04\", \"status\": \"new\"} ] ";
    let ours = parse_orders(doc).unwrap();
    let value: serde_json::Value = serde_json::from_str(doc).unwrap();
    let records = value.as_array().unwrap();
    assert_eq!(ours.len(), records.len());
    assert_eq!(ours[0].order_id as i64, records[0]["order_id"].as_i64().unwrap());
    assert_eq!(ours[0].order_date, records[0]["order_date"].as_str().unwrap());
    assert_eq!(ours[0].status, records[0]["status"].as_str().unwrap());
}
