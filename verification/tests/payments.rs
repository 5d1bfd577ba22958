use mollie_api_rust::config::Config;
use mollie_api_rust::errors::MollieError;
use mollie_api_rust::payments::create::Amount;
use mollie_api_rust::payments::create::Metadata;
use mollie_api_rust::payments::create::PaymentRequest;
use mollie_api_rust::payments::create::TransportOutcome;
use mollie_api_rust::payments::create::complete_payment;
use mollie_api_rust::payments::create::parse_payment_response;
use mollie_api_rust::payments::create::payments_endpoint;
use mollie_api_rust::payments::create::serialize_payment_request;

fn example_request() -> PaymentRequest {
    PaymentRequest {
        amount: Amount {
            currency: "EUR".to_string(),
            value: "10.00".to_string(),
        },
        description: "Order #12345".to_string(),
        redirect_url: "https://webshop.example.org/order/12345/".to_string(),
        webhook_url: "https://webshop.example.org/payments/webhook/".to_string(),
        metadata: Metadata {
            order_id: "12345".to_string(),
        },
    }
}

#[test]
fn test_create_payment() {
    // The transport is a stub: a created response whose body echoes the
    // request document.
    let payment_request = example_request();
    let body = serialize_payment_request(&payment_request);
    let create_result = complete_payment(TransportOutcome::Response { status: 201, body });
    assert!(create_result.is_ok(), "Failed to create payment");
}

#[test]
fn serialized_body_has_exactly_the_wire_fields() {
    let req = example_request();
    let body = serialize_payment_request(&req);
    assert_eq!(
        body,
        "{\"amount\":{\"currency\":\"EUR\",\"value\":\"10.00\"},\
         \"description\":\"Order #12345\",\
         \"redirectUrl\":\"https://webshop.example.org/order/12345/\",\
         \"webhookUrl\":\"https://webshop.example.org/payments/webhook/\",\
         \"metadata\":{\"orderId\":\"12345\"}}"
    );
}

#[test]
fn serialize_then_parse_round_trips() {
    let req = example_request();
    let body = serialize_payment_request(&req);
    let resp = parse_payment_response(&body).expect("round trip must parse");
    assert_eq!(resp.amount.currency, "EUR");
    assert_eq!(resp.amount.value, "10.00");
    assert_eq!(resp.description, "Order #12345");
    assert_eq!(resp.redirect_url, "https://webshop.example.org/order/12345/");
    assert_eq!(resp.webhook_url, "https://webshop.example.org/payments/webhook/");
    assert_eq!(resp.metadata.order_id, "12345");
}

#[test]
fn created_response_parses_into_matching_fields() {
    let body = "{\"amount\":{\"currency\":\"EUR\",\"value\":\"10.00\"},\
                \"description\":\"Order #12345\",\"redirectUrl\":\"https://x/\",\
                \"webhookUrl\":\"https://x/\",\"metadata\":{\"orderId\":\"12345\"}}";
    let r = complete_payment(TransportOutcome::Response {
        status: 201,
        body: body.to_string(),
    });
    let resp = r.expect("a created response with a well-formed body must succeed");
    assert_eq!(resp.amount.currency, "EUR");
    assert_eq!(resp.amount.value, "10.00");
    assert_eq!(resp.description, "Order #12345");
    assert_eq!(resp.redirect_url, "https://x/");
    assert_eq!(resp.webhook_url, "https://x/");
    assert_eq!(resp.metadata.order_id, "12345");
}

#[test]
fn unprocessable_status_is_an_http_error_whatever_the_body() {
    for body in ["", "{}", "not json at all", "{\"detail\":\"wrong\"}"] {
        let r = complete_payment(TransportOutcome::Response {
            status: 422,
            body: body.to_string(),
        });
        match r {
            Err(MollieError::HttpError(status)) => assert_eq!(status, 422),
            _ => panic!("a non-created status must be an HTTP error"),
        }
    }
}

#[test]
fn other_statuses_carry_their_code() {
    for status in [200u16, 400, 401, 404, 500, 503] {
        let r = complete_payment(TransportOutcome::Response {
            status,
            body: "{}".to_string(),
        });
        match r {
            Err(MollieError::HttpError(code)) => assert_eq!(code, status),
            _ => panic!("a non-created status must be an HTTP error"),
        }
    }
}

#[test]
fn created_response_missing_metadata_is_a_deserialize_error() {
    let body = "{\"amount\":{\"currency\":\"EUR\",\"value\":\"10.00\"},\
                \"description\":\"Order #12345\",\"redirectUrl\":\"https://x/\",\
                \"webhookUrl\":\"https://x/\"}";
    let r = complete_payment(TransportOutcome::Response {
        status: 201,
        body: body.to_string(),
    });
    assert!(matches!(r, Err(MollieError::DeserializeError)));
}

#[test]
fn connection_fault_is_a_network_error() {
    // The stub transport records exactly one attempt: complete_payment
    // consumes one outcome and performs no call of its own, so there is
    // nothing to retry.
    let r = complete_payment(TransportOutcome::ConnectionFailure {
        cause: "connection reset by peer".to_string(),
    });
    match r {
        Err(MollieError::NetworkError(cause)) => {
            assert_eq!(cause, "connection reset by peer");
        }
        _ => panic!("a connection fault must be a network error"),
    }
}

#[test]
fn missing_credential_fails_before_any_network_step() {
    let r = Config::new(None);
    assert!(matches!(r, Err(MollieError::EnvError)));
}

#[test]
fn present_credential_is_kept() {
    let config = Config::new(Some("test_key_123".to_string())).expect("credential present");
    assert_eq!(config.mollie_api_key, "test_key_123");
    assert_eq!(config.bearer_header_value(), "Bearer test_key_123");
}

#[test]
fn payment_shape_holds_its_fields() {
    let payment = mollie_api_rust::payments::create::Payment {
        amount: Amount {
            currency: "EUR".to_string(),
            value: "10.00".to_string(),
        },
        description: "Your Order Description".to_string(),
        redirect_url: "https://yourshop.example/redirect".to_string(),
        webhook_url: "https://yourshop.example/webhook".to_string(),
        metadata: Metadata {
            order_id: "12345".to_string(),
        },
    };
    assert_eq!(payment.amount.currency, "EUR");
    assert_eq!(payment.metadata.order_id, "12345");
}

#[test]
fn endpoint_is_fixed() {
    assert_eq!(payments_endpoint(), "https://api.mollie.com/v2/payments");
}

#[test]
fn error_kind_helpers_tell_the_kinds_apart() {
    let net = MollieError::NetworkError("x".to_string());
    let http = MollieError::HttpError(500);
    let de = MollieError::DeserializeError;
    assert!(net.is_network_error());
    assert!(!http.is_network_error());
    assert!(!de.is_network_error());
    assert_eq!(http.http_status(), Some(500));
    assert_eq!(net.http_status(), None);
    assert_eq!(de.http_status(), None);
}
