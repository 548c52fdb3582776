use protohackers::problem1::PrimeTime;
use serde_json::Value;

#[test]
fn valid_resp_form() {
    let resp_raw = PrimeTime::form_resp(false);
    let resp: Value = serde_json::from_slice(&resp_raw).unwrap();

    let expected = Value::Object({
        let mut map = serde_json::Map::new();
        map.insert("method".to_owned(), Value::String("isPrime".to_owned()));
        map.insert("prime".to_owned(), Value::Bool(false));
        map
    });
    assert_eq!(expected, resp);
}

#[test]
fn form_resp_exact_bytes() {
    assert_eq!(
        PrimeTime::form_resp(true),
        b"{\"method\":\"isPrime\",\"prime\":true}\n".to_vec()
    );
    assert_eq!(
        PrimeTime::form_resp(false),
        b"{\"method\":\"isPrime\",\"prime\":false}\n".to_vec()
    );
}

#[test]
fn fallback_resp_exact_bytes() {
    assert_eq!(PrimeTime::fallback_resp(), b"{}\n".to_vec());
}

#[test]
fn end_to_end_prime() {
    let mut service = PrimeTime::default();
    let resp = service.call(b"{\"method\":\"isPrime\",\"number\":7}\n".to_vec());
    assert_eq!(resp, b"{\"method\":\"isPrime\",\"prime\":true}\n".to_vec());
}

#[test]
fn end_to_end_composite() {
    let mut service = PrimeTime::default();
    let resp = service.call(b"{\"method\":\"isPrime\",\"number\":8}\n".to_vec());
    assert_eq!(resp, b"{\"method\":\"isPrime\",\"prime\":false}\n".to_vec());
}

#[test]
fn end_to_end_malformed_keeps_serving() {
    let mut service = PrimeTime::default();
    let resp = service.call(b"garbage\n".to_vec());
    assert_eq!(resp, b"{}\n".to_vec());
    // the next request on the same connection is still answered
    let resp = service.call(b"{\"method\":\"isPrime\",\"number\":13}\n".to_vec());
    assert_eq!(resp, b"{\"method\":\"isPrime\",\"prime\":true}\n".to_vec());
}

#[test]
fn end_to_end_cache_hit_and_miss() {
    let mut service = PrimeTime::default();
    let first = service.call(b"{\"method\":\"isPrime\",\"number\":100}\n".to_vec());
    assert_eq!(first, b"{\"method\":\"isPrime\",\"prime\":false}\n".to_vec());
    // now a hit inside the grown cache
    let second = service.call(b"{\"method\":\"isPrime\",\"number\":97}\n".to_vec());
    assert_eq!(second, b"{\"method\":\"isPrime\",\"prime\":true}\n".to_vec());
}
