use protohackers::challenge;
use protohackers::problem0::{SmokeTest, TcpEcho};

#[test]
fn known_challenges_accepted() {
    assert_eq!(challenge("0"), Ok(0));
    assert_eq!(challenge("1"), Ok(1));
}

#[test]
fn unknown_challenge_refused() {
    assert_eq!(challenge("2"), Err("No challenge known for 2".to_owned()));
    assert_eq!(challenge("255"), Err("No challenge known for 255".to_owned()));
}

#[test]
fn plus_sign_accepted() {
    assert_eq!(challenge("+1"), Ok(1));
}

#[test]
fn smoke_test_echoes() {
    let req = b"hello there\n".to_vec();
    assert_eq!(SmokeTest::respond(req.clone()), req);
}

#[test]
fn tcp_echo_echoes() {
    let req = vec![0u8, 255, 7, 42];
    assert_eq!(TcpEcho::respond(req.clone()), req);
}
