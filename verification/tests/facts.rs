use firefly_orchestration::condition::{compare_values, evaluate, tokenize, CompareOp};
use firefly_orchestration::step_context::StepContext;
use firefly_orchestration::text_map::TextMap;
use firefly_orchestration::value::{Number, Rank, Value};

fn value_of(json: &serde_json::Value) -> Value {
    match json {
        serde_json::Value::Null => Value::Null,
        serde_json::Value::Bool(b) => Value::Bool(*b),
        serde_json::Value::Number(n) => Value::Number(match (n.as_u64(), n.as_i64()) {
            (Some(u), _) => Number::PosInt(u),
            (None, Some(i)) => Number::NegInt(i),
            (None, None) => Number::Float(n.as_f64().unwrap().to_bits()),
        }),
        serde_json::Value::String(s) => Value::String(s.clone()),
        serde_json::Value::Array(items) => Value::Array(items.iter().map(value_of).collect()),
        serde_json::Value::Object(fields) => {
            let mut map: TextMap<Value> = TextMap::new();
            for (key, item) in fields {
                map.insert(key.clone(), value_of(item));
            }
            Value::Object(map)
        }
    }
}

fn json(text: &str) -> Value {
    value_of(&serde_json::from_str(text).unwrap())
}

fn assert_same(found: Option<Value>, expected: &str) {
    let found = found.expect("present");
    assert!(found.equals(&json(expected)), "{found:?} is not {expected}");
}

fn ctx() -> StepContext {
    let mut c = StepContext::with_input(json(r#"{"amount": 100, "tier": "gold"}"#));
    c.set_result("always", json(r#""ran""#));
    c.set_result("score", json(r#"{"value": 42}"#));
    c.set_variable("approved", json("true"));
    c.set_header("x-tenant", "acme");
    c
}

#[test]
fn equality_condition_false() {
    assert!(!evaluate("results['always'] == 'nope'", &ctx()).unwrap());
    assert!(evaluate("results['always'] == 'ran'", &ctx()).unwrap());
}

#[test]
fn numeric_comparisons() {
    assert!(evaluate("input['amount'] > 50", &ctx()).unwrap());
    assert!(!evaluate("input['amount'] < 50", &ctx()).unwrap());
    assert!(evaluate("input['amount'] >= 100", &ctx()).unwrap());
    assert!(evaluate("input['amount'] != 99", &ctx()).unwrap());
}

#[test]
fn boolean_and_or_not() {
    assert!(evaluate("variables['approved'] and input['amount'] > 50", &ctx()).unwrap());
    assert!(evaluate("input['amount'] > 200 or input['tier'] == 'gold'", &ctx()).unwrap());
    assert!(evaluate("not (input['amount'] < 50)", &ctx()).unwrap());
}

#[test]
fn membership() {
    let mut c = ctx();
    c.set_result("tags", json(r#"["a", "b", "c"]"#));
    assert!(evaluate("'b' in results['tags']", &c).unwrap());
    assert!(evaluate("'z' not in results['tags']", &c).unwrap());
}

#[test]
fn field_accessor() {
    assert!(evaluate("results['score'].value == 42", &ctx()).unwrap());
}

#[test]
fn bare_truthiness() {
    assert!(evaluate("variables['approved']", &ctx()).unwrap());
    // A missing variable is null -> falsey.
    assert!(!evaluate("variables['missing']", &ctx()).unwrap());
}

#[test]
fn header_lookup() {
    assert!(evaluate("headers['x-tenant'] == 'acme'", &ctx()).unwrap());
}

#[test]
fn malformed_is_error() {
    assert!(evaluate("results[", &ctx()).is_err());
    assert!(evaluate("results['x'] === 1", &ctx()).is_err());
    assert!(evaluate("$$$", &ctx()).is_err());
}

#[test]
fn negative_and_fractional_numbers_compare() {
    let mut c = ctx();
    c.set_variable("t", json("-2.5"));
    assert!(evaluate("variables['t'] == -2.5", &c).unwrap());
    assert!(evaluate("variables['t'] < -1", &c).unwrap());
    assert!(evaluate("variables['t'] > -3", &c).unwrap());
    assert!(evaluate("input['amount'] == 100.0", &c).unwrap());
}

#[test]
fn texts_compare_and_contain() {
    assert!(evaluate("'ol' in input['tier']", &ctx()).unwrap());
    assert!(evaluate("'gold' < 'silver'", &ctx()).unwrap());
    assert!(!evaluate("'gold' < 3", &ctx()).unwrap());
    assert!(evaluate("'tier' in input", &ctx()).unwrap());
}

#[test]
fn literals_have_truth() {
    assert!(evaluate("true", &ctx()).unwrap());
    assert!(!evaluate("false", &ctx()).unwrap());
    assert!(!evaluate("null", &ctx()).unwrap());
    assert!(!evaluate("0", &ctx()).unwrap());
    assert!(!evaluate("''", &ctx()).unwrap());
    assert!(evaluate("'x'", &ctx()).unwrap());
}

#[test]
fn letters_and_spaces_beyond_ascii_are_read() {
    let mut c = ctx();
    c.set_variable("größe", json("7"));
    assert!(evaluate("variables['größe']\u{00a0}== 7", &c).unwrap());
    assert!(evaluate("größe == 7", &c).is_err());
}

#[test]
fn condition_errors_have_messages() {
    for bad in ["results[", "a &", "'open", "(1", "1 2", ""] {
        let error = evaluate(bad, &ctx()).expect_err(bad);
        assert!(!error.to_string().is_empty(), "{bad}");
    }
}

#[test]
fn tokens_are_counted() {
    assert_eq!(tokenize("results['a'].b >= 1.5").unwrap().len(), 8);
    assert_eq!(tokenize("").unwrap().len(), 0);
    assert!(tokenize("@").is_err());
}

#[test]
fn values_rank_only_with_their_kind() {
    assert_eq!(json("1").rank(&json("2")), Some(Rank::Below));
    assert_eq!(json("2.0").rank(&json("2")), Some(Rank::Level));
    assert_eq!(json(r#""b""#).rank(&json(r#""a""#)), Some(Rank::Above));
    assert_eq!(json("1").rank(&json(r#""a""#)), None);
    assert!(compare_values(&json("1"), CompareOp::NotEqual, &json(r#""a""#)));
    assert!(!compare_values(&json("1"), CompareOp::Less, &json(r#""a""#)));
}

#[test]
fn large_integers_compare_as_doubles() {
    // 2^53 and 2^53 + 1 are one double.
    let a = json("9007199254740992");
    let b = json("9007199254740993");
    assert!(!a.equals(&b));
    assert!(a.loosely_equals(&b));
    let c = json("-9007199254740992");
    let d = json("-9007199254740993");
    assert!(c.loosely_equals(&d));
    assert!(compare_values(&c, CompareOp::Less, &a));
}

#[test]
fn from_step_reads_prior_step_result() {
    let mut ctx = StepContext::new();
    ctx.set_result("reserve", json(r#"{"reservation_id": "R-1"}"#));
    let reserved = ctx.result("reserve").unwrap();
    assert_eq!(reserved.get("reservation_id").unwrap().as_str(), Some("R-1"));
    assert_same(ctx.result_field("reserve", "reservation_id"), r#""R-1""#);
    assert!(ctx.has_result("reserve"));
    assert!(!ctx.has_result("charge"));
    assert!(ctx.result("charge").is_none());
}

#[test]
fn input_and_input_field() {
    let ctx = StepContext::with_input(json(r#"{"amount": 100, "currency": "EUR"}"#));
    assert!(ctx.input().get("amount").unwrap().equals(&json("100")));
    assert_same(ctx.input_field("currency"), r#""EUR""#);
    assert!(ctx.input_field("missing").is_none());
}

#[test]
fn variables_round_trip() {
    let mut ctx = StepContext::new();
    ctx.set_variable("token", json(r#""abc""#));
    ctx.set_variable("count", json("3"));
    assert_same(ctx.variable("token"), r#""abc""#);
    assert!(ctx.variable("nope").is_none());
    let all = ctx.variables();
    assert_eq!(all.len(), 2);
    assert!(all.get("count").unwrap().equals(&json("3")));
}

#[test]
fn headers_and_correlation_id() {
    let mut ctx = StepContext::new();
    ctx.set_correlation_id("cid-7");
    ctx.set_header("x-tenant", "acme");
    assert_eq!(ctx.correlation_id(), "cid-7");
    assert_eq!(ctx.header("x-tenant").unwrap(), "acme");
    assert!(ctx.header("x-missing").is_none());
    assert_eq!(ctx.headers().len(), 1);
}

#[test]
fn result_field_on_non_object_is_none() {
    let mut ctx = StepContext::new();
    ctx.set_result("plain", json(r#""just-a-string""#));
    assert!(ctx.result_field("plain", "anything").is_none());
    assert_same(ctx.result("plain"), r#""just-a-string""#);
}

#[test]
fn snapshot_round_trip() {
    let mut ctx = StepContext::with_input(json(r#"{"order": "O-9"}"#));
    ctx.set_correlation_id("cid-42");
    ctx.set_result("reserve", json(r#"{"id": "R-1"}"#));
    ctx.set_variable("token", json(r#""abc""#));
    ctx.set_header("x-tenant", "acme");

    let snapshot = ctx.to_snapshot();
    let restored = StepContext::from_snapshot(&snapshot);

    assert_eq!(restored.correlation_id(), "cid-42");
    assert!(restored.input().equals(&json(r#"{"order": "O-9"}"#)));
    assert_same(restored.result("reserve"), r#"{"id": "R-1"}"#);
    assert_same(restored.variable("token"), r#""abc""#);
    assert_eq!(restored.header("x-tenant").unwrap(), "acme");
}

#[test]
fn from_partial_snapshot_defaults_missing() {
    let restored = StepContext::from_snapshot(&json(r#"{"correlation_id": "only-cid"}"#));
    assert_eq!(restored.correlation_id(), "only-cid");
    assert!(restored.results().is_empty());
    assert!(restored.variables().is_empty());
}
