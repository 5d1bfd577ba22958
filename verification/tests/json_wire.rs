use mollie_api_rust::payments::create::Amount;
use mollie_api_rust::payments::create::Metadata;
use mollie_api_rust::payments::create::PaymentRequest;
use mollie_api_rust::payments::create::parse_payment_response;
use mollie_api_rust::payments::create::serialize_payment_request;

fn request_with_description(description: &str) -> PaymentRequest {
    PaymentRequest {
        amount: Amount {
            currency: "EUR".to_string(),
            value: "10.00".to_string(),
        },
        description: description.to_string(),
        redirect_url: "https://x/".to_string(),
        webhook_url: "https://x/".to_string(),
        metadata: Metadata {
            order_id: "1".to_string(),
        },
    }
}

#[test]
fn quotes_backslashes_and_controls_are_escaped() {
    let req = request_with_description("a\"b\\c\nd\u{1}e");
    let body = serialize_payment_request(&req);
    assert!(body.contains("a\\\"b\\\\c\\u000ad\\u0001e"));
}

#[test]
fn escaped_description_round_trips() {
    let req = request_with_description("a\"b\\c\nd\u{1}e\ttab");
    let body = serialize_payment_request(&req);
    let resp = parse_payment_response(&body).expect("escaped text must round trip");
    assert_eq!(resp.description, "a\"b\\c\nd\u{1}e\ttab");
}

#[test]
fn non_ascii_text_round_trips() {
    let req = request_with_description("Bestellung Nr. 12345 — naïve café 😀");
    let body = serialize_payment_request(&req);
    let resp = parse_payment_response(&body).expect("unicode text must round trip");
    assert_eq!(resp.description, "Bestellung Nr. 12345 — naïve café 😀");
}

#[test]
fn whitespace_between_tokens_is_accepted() {
    let body = " {\n  \"amount\" : { \"currency\" : \"EUR\" , \"value\" : \"10.00\" } ,\
                \r\n\t\"description\" : \"Order #12345\" ,\
                \"redirectUrl\" : \"https://x/\" ,\
                \"webhookUrl\" : \"https://x/\" ,\
                \"metadata\" : { \"orderId\" : \"12345\" } } ";
    let resp = parse_payment_response(body).expect("whitespace is insignificant");
    assert_eq!(resp.amount.currency, "EUR");
    assert_eq!(resp.metadata.order_id, "12345");
}

#[test]
fn members_are_accepted_in_any_order() {
    let body = "{\"metadata\":{\"orderId\":\"12345\"},\"webhookUrl\":\"https://x/\",\
                \"redirectUrl\":\"https://x/\",\"description\":\"Order #12345\",\
                \"amount\":{\"value\":\"10.00\",\"currency\":\"EUR\"}}";
    let resp = parse_payment_response(body).expect("member order is free");
    assert_eq!(resp.amount.currency, "EUR");
    assert_eq!(resp.amount.value, "10.00");
    assert_eq!(resp.description, "Order #12345");
}

#[test]
fn short_escapes_are_decoded() {
    let body = "{\"amount\":{\"currency\":\"EUR\",\"value\":\"10.00\"},\
                \"description\":\"a\\tb\\nc\\rd\\be\\ff\\/g\\u0041h\",\
                \"redirectUrl\":\"https://x/\",\"webhookUrl\":\"https://x/\",\
                \"metadata\":{\"orderId\":\"1\"}}";
    let resp = parse_payment_response(body).expect("short escapes are part of JSON");
    assert_eq!(resp.description, "a\tb\nc\rd\u{8}e\u{c}f/g\u{41}h");
}

#[test]
fn duplicate_member_is_rejected() {
    let body = "{\"amount\":{\"currency\":\"EUR\",\"value\":\"10.00\"},\
                \"description\":\"a\",\"description\":\"b\",\
                \"redirectUrl\":\"https://x/\",\"webhookUrl\":\"https://x/\",\
                \"metadata\":{\"orderId\":\"1\"}}";
    assert!(parse_payment_response(body).is_err());
}

#[test]
fn unknown_members_are_skipped() {
    // The upstream response carries more members than the model keeps:
    // strings, objects, arrays, numbers, booleans and null all pass by.
    let body = "{\"resource\":\"payment\",\"id\":\"tr_7UhSN1zuXS\",\
                \"amount\":{\"currency\":\"EUR\",\"value\":\"10.00\"},\
                \"description\":\"Order #12345\",\"status\":\"open\",\
                \"createdAt\":\"2024-03-20T09:13:37+00:00\",\
                \"redirectUrl\":\"https://x/\",\"webhookUrl\":\"https://x/\",\
                \"metadata\":{\"orderId\":\"12345\"},\
                \"amountRemaining\":12.5,\"isCancelable\":false,\"details\":null,\
                \"_links\":{\"self\":{\"href\":\"https://api.example/p/1\",\
                \"type\":\"application/hal+json\"},\"list\":[1,2,{\"a\":[true,null]}]}}";
    let resp = parse_payment_response(body).expect("unknown members are ignored");
    assert_eq!(resp.amount.currency, "EUR");
    assert_eq!(resp.amount.value, "10.00");
    assert_eq!(resp.description, "Order #12345");
    assert_eq!(resp.metadata.order_id, "12345");
}

#[test]
fn unknown_members_do_not_excuse_a_missing_one() {
    let body = "{\"id\":\"tr_1\",\"amount\":{\"currency\":\"EUR\",\"value\":\"10.00\"},\
                \"description\":\"a\",\"redirectUrl\":\"https://x/\",\
                \"webhookUrl\":\"https://x/\"}";
    assert!(parse_payment_response(body).is_err());
}

#[test]
fn malformed_unknown_value_is_rejected() {
    let body = "{\"id\":{\"x\":,},\"amount\":{\"currency\":\"EUR\",\"value\":\"10.00\"},\
                \"description\":\"a\",\"redirectUrl\":\"https://x/\",\
                \"webhookUrl\":\"https://x/\",\"metadata\":{\"orderId\":\"1\"}}";
    assert!(parse_payment_response(body).is_err());
}

#[test]
fn truncated_document_is_rejected() {
    let body = "{\"amount\":{\"currency\":\"EUR\",\"value\":\"10.00\"},\
                \"description\":\"a";
    assert!(parse_payment_response(body).is_err());
}

#[test]
fn trailing_text_is_rejected() {
    let body = "{\"amount\":{\"currency\":\"EUR\",\"value\":\"10.00\"},\
                \"description\":\"a\",\"redirectUrl\":\"https://x/\",\
                \"webhookUrl\":\"https://x/\",\"metadata\":{\"orderId\":\"1\"}}x";
    assert!(parse_payment_response(body).is_err());
}

#[test]
fn empty_and_malformed_bodies_are_rejected() {
    assert!(parse_payment_response("").is_err());
    assert!(parse_payment_response("{}").is_err());
    assert!(parse_payment_response("null").is_err());
    assert!(parse_payment_response("[1,2,3]").is_err());
    assert!(parse_payment_response("{\"amount\":").is_err());
}

#[test]
fn unicode_escapes_are_decoded() {
    let body = "{\"amount\":{\"currency\":\"EUR\",\"value\":\"10.00\"},\
                \"description\":\"a\\u0100b\\u00C9c\\u20ACd\",\
                \"redirectUrl\":\"https://x/\",\"webhookUrl\":\"https://x/\",\
                \"metadata\":{\"orderId\":\"1\"}}";
    let resp = parse_payment_response(body).expect("any code point may be escaped");
    assert_eq!(resp.description, "a\u{100}b\u{c9}c\u{20ac}d");
}

#[test]
fn surrogate_pair_escapes_are_decoded() {
    let body = "{\"amount\":{\"currency\":\"EUR\",\"value\":\"10.00\"},\
                \"description\":\"a\\uD83D\\uDE00b\",\
                \"redirectUrl\":\"https://x/\",\"webhookUrl\":\"https://x/\",\
                \"metadata\":{\"orderId\":\"1\"}}";
    let resp = parse_payment_response(body).expect("a surrogate pair is one character");
    assert_eq!(resp.description, "a\u{1F600}b");
}

#[test]
fn lone_surrogate_escape_is_rejected() {
    let high_alone = "{\"amount\":{\"currency\":\"EUR\",\"value\":\"10.00\"},\
                \"description\":\"a\\uD83Db\",\
                \"redirectUrl\":\"https://x/\",\"webhookUrl\":\"https://x/\",\
                \"metadata\":{\"orderId\":\"1\"}}";
    assert!(parse_payment_response(high_alone).is_err());
    let low_first = "{\"amount\":{\"currency\":\"EUR\",\"value\":\"10.00\"},\
                \"description\":\"a\\uDE00b\",\
                \"redirectUrl\":\"https://x/\",\"webhookUrl\":\"https://x/\",\
                \"metadata\":{\"orderId\":\"1\"}}";
    assert!(parse_payment_response(low_first).is_err());
}

#[test]
fn truncated_unicode_escape_is_rejected() {
    let body = "{\"amount\":{\"currency\":\"EUR\",\"value\":\"10.00\"},\
                \"description\":\"a\\u12\",\
                \"redirectUrl\":\"https://x/\",\"webhookUrl\":\"https://x/\",\
                \"metadata\":{\"orderId\":\"1\"}}";
    assert!(parse_payment_response(body).is_err());
}

#[test]
fn unknown_escape_is_rejected() {
    let body = "{\"amount\":{\"currency\":\"EUR\",\"value\":\"10.00\"},\
                \"description\":\"a\\qb\",\
                \"redirectUrl\":\"https://x/\",\"webhookUrl\":\"https://x/\",\
                \"metadata\":{\"orderId\":\"1\"}}";
    assert!(parse_payment_response(body).is_err());
}
