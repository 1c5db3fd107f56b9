use gaveldrop::adapters::web::subject::{SubjectError, not_ready};
use gaveldrop::adapters::web::names_for;
use gaveldrop::adapters::web::request::{Exchange, read, substituted, url_for};
use gaveldrop::strmap::StrMap;
use gaveldrop::value::Value;

fn map(pairs: &[(&str, &str)]) -> StrMap<String> {
    let mut m = StrMap::new();
    for (k, v) in pairs {
        m.insert(k.to_string(), v.to_string());
    }
    m
}

#[test]
fn an_isolation_variable_wins_over_a_capture_of_the_same_name() {
    let captured = map(&[("HOME", "/somewhere/else")]);
    let defined = map(&[("HOME", "/the/isolated/root")]);

    assert_eq!(
        names_for(&captured, &defined).get("HOME"),
        Some(&"/the/isolated/root".to_string()),
        "`HOME` means the isolated home in every case ever written"
    );
}

#[test]
fn a_capture_is_available_beside_the_isolation_names_not_instead_of_them() {
    let captured = map(&[("order_id", "7")]);
    let defined = map(&[("GAVELDROP_PORT", "8080")]);
    let names = names_for(&captured, &defined);

    assert_eq!(names.get("order_id"), Some(&"7".to_string()));
    assert_eq!(names.get("GAVELDROP_PORT"), Some(&"8080".to_string()));
}

#[test]
fn a_step_that_says_nothing_performs_a_get_on_the_root() {
    let exchange = read(&StrMap::new());

    assert_eq!(exchange.method, "GET");
    assert_eq!(exchange.path, "/", "a smoke exchange should be writable with no request block at all");
}

fn block(pairs: Vec<(&str, Value)>) -> StrMap<Value> {
    let mut m = StrMap::new();
    for (k, v) in pairs {
        m.insert(k.to_string(), v);
    }
    m
}

#[test]
fn a_lowercase_method_is_accepted_and_a_path_gets_its_slash() {
    let exchange = read(&block(vec![
        ("method", Value::String("post".to_string())),
        ("path", Value::String("orders".to_string())),
    ]));
    assert_eq!(exchange.method, "POST");
    assert_eq!(exchange.path, "/orders");
}

#[test]
fn a_body_written_as_a_mapping_is_sent_as_json() {
    let exchange = read(&block(vec![(
        "body",
        Value::Object(vec![
            ("name".to_string(), Value::String("x".to_string())),
            ("qty".to_string(), Value::Number("2".to_string())),
        ]),
    )]));
    assert_eq!(exchange.body, r#"{"name":"x","qty":2}"#);
}

#[test]
fn a_captured_name_is_substituted_into_the_path_and_the_url_joins_the_port() {
    let exchange = Exchange {
        method: "GET".to_string(),
        path: "/orders/$order_id".to_string(),
        body: String::new(),
        headers: map(&[("X-Order", "${order_id}")]),
    };
    let sent = substituted(exchange, &map(&[("order_id", "7")]));
    assert_eq!(sent.path, "/orders/7");
    assert_eq!(sent.headers.get("X-Order"), Some(&"7".to_string()));
    assert_eq!(url_for(&sent, 8080), "http://127.0.0.1:8080/orders/7");
}

#[test]
fn a_name_nothing_captured_is_left_literal_so_the_failure_is_visible() {
    let exchange = Exchange {
        method: "GET".to_string(),
        path: "/orders/$order_id".to_string(),
        body: String::new(),
        headers: StrMap::new(),
    };
    assert_eq!(substituted(exchange, &StrMap::new()).path, "/orders/$order_id");
}

#[test]
fn an_answer_is_observed_whatever_its_status() {
    let seen = gaveldrop::adapters::web::request::answered_with(
        404,
        vec![
            ("content-type".to_string(), "text/plain".to_string()),
            ("x-trace".to_string(), "1".to_string()),
            ("x-trace".to_string(), "2".to_string()),
        ],
        "missing".to_string(),
    );

    assert_eq!(seen.status, Some(404));
    assert_eq!(seen.body, "missing");
    assert_eq!(seen.headers.get("content-type"), Some(&"text/plain".to_string()));
    assert_eq!(seen.headers.get("x-trace"), Some(&"2".to_string()), "a repeated header keeps its last value");
}

#[test]
fn a_request_that_got_no_answer_says_why_on_stderr() {
    let seen = gaveldrop::adapters::web::request::unanswered("http://127.0.0.1:9/x", false, "connection refused");

    assert_eq!(seen.stderr, "requesting http://127.0.0.1:9/x: connection refused");
    assert_eq!(seen.status, None);
    let built = gaveldrop::adapters::web::request::unanswered("http://h/", true, "bad header");
    assert!(built.stderr.starts_with("building the request for http://h/: "));
}

#[test]
fn a_service_that_never_answers_names_what_was_probed_and_what_it_said() {
    let error = not_ready(std::time::Duration::from_secs(30), None, "  port in use\n".to_string());
    let message = error.message();
    assert!(message.starts_with("the service was not ready after 30s"), "{message}");
    assert!(message.ends_with("(probing a TCP connection). Its standard error said: port in use"), "{message}");

    let quiet = not_ready(std::time::Duration::from_millis(500), Some("http://localhost/health"), String::new());
    assert!(quiet.message().ends_with("(probing http://localhost/health). Its standard error said: nothing"));
    assert_eq!(SubjectError::NothingToServe.message(), "`serve:` is empty, so there is no service to start");
}

fn text(s: &str) -> Value {
    Value::String(s.to_string())
}

#[test]
fn a_lowercase_method_is_accepted() {
    assert_eq!(read(&block(vec![("method", text("post"))])).method, "POST");
}

#[test]
fn a_path_without_its_leading_slash_still_works() {
    assert_eq!(
        read(&block(vec![("path", text("orders"))])).path,
        "/orders",
        "forgetting the slash is a typo, not a different intention"
    );
}

#[test]
fn a_body_written_as_a_string_is_sent_verbatim() {
    let exchange = read(&block(vec![("body", text("not json at all"))]));

    assert_eq!(
        exchange.body, "not json at all",
        "an API taking plain text or a form must stay testable"
    );
}

#[test]
fn the_url_joins_the_chosen_port_to_the_declared_path() {
    let exchange = read(&block(vec![("path", text("/orders/7"))]));

    assert_eq!(
        url_for(&exchange, 54321),
        "http://127.0.0.1:54321/orders/7",
        "the case declares a path and the run supplies the port, so no interpolation enters \
         the format"
    );
}

#[test]
fn a_captured_name_is_substituted_into_the_path() {
    let exchange = read(&block(vec![("path", text("/orders/$order_id"))]));

    assert_eq!(
        substituted(exchange, &map(&[("order_id", "7")])).path,
        "/orders/7",
        "this is the whole point of a capture: one exchange creates a thing and the next asks \
         about it by the id it was given"
    );
}

#[test]
fn a_captured_name_is_substituted_into_the_body_and_headers() {
    let exchange = read(&block(vec![
        ("body", Value::Object(vec![("order".to_string(), text("$order_id"))])),
        ("headers", Value::Object(vec![("X-Trace".to_string(), text("$trace"))])),
    ]));
    let sent = substituted(exchange, &map(&[("order_id", "7"), ("trace", "abc")]));

    assert!(sent.body.contains("\"7\""), "got {:?}", sent.body);
    assert_eq!(sent.headers.get("X-Trace"), Some(&"abc".to_string()));
}
