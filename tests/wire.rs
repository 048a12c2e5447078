use grel::frame::{JSockError, SockError};
use grel::proto::{End, Env, Rcvr, Sndr, SndOp};
use grel::proto2::{Endpoint, Env as Env2, Msg, Op};
use grel::user::UserError;

#[test]
fn ping_encodes_as_a_bare_string() {
    assert_eq!(Sndr::Ping.bytes(), b"\"Ping\"".to_vec());
}

#[test]
fn text_encodes_with_tag_and_fields() {
    let m = Sndr::Text { who: "Some Dude", lines: &["one", "two \"quoted\""] };
    let v: serde_json::Value = serde_json::from_slice(&m.bytes()).unwrap();
    assert_eq!(v["Text"]["who"], "Some Dude");
    assert_eq!(v["Text"]["lines"][0], "one");
    assert_eq!(v["Text"]["lines"][1], "two \"quoted\"");
}

#[test]
fn op_kick_encodes_nested() {
    let m = Sndr::Op(SndOp::Kick("FpS DoUg"));
    assert_eq!(m.bytes(), br#"{"Op":{"Kick":"FpS DoUg"}}"#.to_vec());
}

#[test]
fn noisy_variants() {
    assert!(Rcvr::Text { who: String::new(), lines: vec![] }.counts());
    assert!(Rcvr::Priv { who: "a".to_string(), text: "b".to_string() }.counts());
    assert!(Rcvr::Name("a".to_string()).counts());
    assert!(Rcvr::Join("a".to_string()).counts());
    assert!(!Rcvr::Ping.counts());
    assert!(!Rcvr::Logout("x".to_string()).counts());
}

#[test]
fn envelope_keeps_endpoints() {
    let e = Env::new(End::User(100), End::Room(0), &Sndr::Info("hi"));
    assert_eq!(e.source(), End::User(100));
    assert_eq!(e.dest(), End::Room(0));
    assert_eq!(e.into_bytes(), br#"{"Info":"hi"}"#.to_vec());
}

#[test]
fn single_type_messages_encode_like_sndr() {
    assert_eq!(Msg::info("Santa isn't real.").bytes(), Sndr::Info("Santa isn't real.").bytes());
    assert_eq!(Msg::err("bad").bytes(), br#"{"Err":"bad"}"#.to_vec());
    assert_eq!(Msg::logout("bye").bytes(), br#"{"Logout":"bye"}"#.to_vec());
    assert_eq!(Msg::Op(Op::Give("x".to_string())).bytes(), br#"{"Op":{"Give":"x"}}"#.to_vec());
    let m = Msg::Misc { what: "roster".to_string(), data: vec!["you".to_string()], alt: "you".to_string() };
    assert_eq!(m.bytes(), Sndr::Misc { what: "roster", data: &["you"], alt: "you" }.bytes());
    let e = Env2::new(Endpoint::Server, Endpoint::All, &Msg::Ping);
    assert_eq!(e.bytes(), b"\"Ping\"");
}

#[test]
fn error_types_keep_their_messages() {
    let e = JSockError::new("boom", true);
    assert!(e.fatal());
    assert!(!JSockError::string("x".to_string(), false).fatal());
    let s = SockError::new("Error reading from the underlying socket");
    assert_eq!(s.describe(), "SockError: Error reading from the underlying socket");
    assert_eq!(UserError::from_socket(&s).describe(), "UserError: Underlying socket error: SockError: Error reading from the underlying socket");
    let list = vec![SockError::string("a".to_string()), SockError::new("b")];
    assert_eq!(UserError::from_sockets(&list).describe(), "UserError: 2 Underlying socket error(s):\n  * SockError: a\n  * SockError: b");
    assert_eq!(UserError::new("x").describe(), "UserError: x");
}
