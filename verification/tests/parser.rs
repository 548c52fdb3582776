use protohackers::problem1::parse::all;

#[test]
fn round_trip() {
    assert_eq!(all(b"{\"method\":\"isPrime\",\"number\":7}\n"), Some(7));
}

#[test]
fn order_tolerance() {
    assert_eq!(all(b"{\"number\":7,\"method\":\"isPrime\"}\n"), Some(7));
}

#[test]
fn quoting_tolerance() {
    assert_eq!(all(b"{'method':'isPrime','number':7}\n"), Some(7));
}

#[test]
fn mixed_quoting() {
    assert_eq!(all(b"{\"method\":'isPrime',\"number\":7}\n"), Some(7));
}

#[test]
fn string_number_rejected() {
    assert_eq!(all(b"{\"method\":\"isPrime\",\"number\":\"5\"}\n"), None);
}

#[test]
fn garbage_rejected() {
    assert_eq!(all(b"garbage\n"), None);
}

#[test]
fn missing_line_ending_rejected() {
    assert_eq!(all(b"{\"method\":\"isPrime\",\"number\":7}"), None);
}

#[test]
fn crlf_line_ending_accepted() {
    assert_eq!(all(b"{\"method\":\"isPrime\",\"number\":7}\r\n"), Some(7));
}

#[test]
fn whitespace_tolerance() {
    assert_eq!(
        all(b"{  \"method\"\t: \"isPrime\" ,\r\n \"number\" :\t42 }\n"),
        Some(42)
    );
}

#[test]
fn mismatched_quotes_rejected() {
    assert_eq!(all(b"{\"method':\"isPrime\",\"number\":7}\n"), None);
}

#[test]
fn wrong_method_rejected() {
    assert_eq!(all(b"{\"method\":\"isOdd\",\"number\":7}\n"), None);
}

#[test]
fn missing_field_rejected() {
    assert_eq!(all(b"{\"method\":\"isPrime\"}\n"), None);
}

#[test]
fn extra_field_rejected() {
    assert_eq!(all(b"{\"method\":\"isPrime\",\"number\":7,\"extra\":1}\n"), None);
}

#[test]
fn unclosed_brace_rejected() {
    assert_eq!(all(b"{\"method\":\"isPrime\",\"number\":7\n"), None);
}

#[test]
fn empty_input_rejected() {
    assert_eq!(all(b""), None);
    assert_eq!(all(b"\n"), None);
}

#[test]
fn leading_zeroes_accepted() {
    assert_eq!(all(b"{\"method\":\"isPrime\",\"number\":007}\n"), Some(7));
}

#[test]
fn zero_accepted() {
    assert_eq!(all(b"{\"method\":\"isPrime\",\"number\":0}\n"), Some(0));
}

#[test]
fn largest_number_accepted() {
    assert_eq!(
        all(b"{\"method\":\"isPrime\",\"number\":4294967295}\n"),
        Some(4294967295)
    );
}

#[test]
fn number_overflow_rejected() {
    assert_eq!(all(b"{\"method\":\"isPrime\",\"number\":4294967296}\n"), None);
}

#[test]
fn trailing_bytes_ignored() {
    assert_eq!(
        all(b"{\"method\":\"isPrime\",\"number\":11}\n{\"method\":"),
        Some(11)
    );
}

#[test]
fn signed_number_rejected() {
    assert_eq!(all(b"{\"method\":\"isPrime\",\"number\":-7}\n"), None);
}
