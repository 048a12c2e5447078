use grel::proto::{SndOp, Sndr};
use grel::proto2::{Msg, Op};
use serde_json::Value;

fn s(x: &str) -> Value {
    Value::String(x.to_string())
}

fn obj(fields: &[(&str, Value)]) -> Value {
    let mut m = serde_json::Map::new();
    for (k, v) in fields {
        m.insert(k.to_string(), v.clone());
    }
    Value::Object(m)
}

fn arr(xs: &[&str]) -> Value {
    Value::Array(xs.iter().map(|x| s(x)).collect())
}

fn decoded(bytes: &[u8]) -> Value {
    serde_json::from_slice(bytes).unwrap()
}

#[test]
fn visual_serde() {
    let m = Msg::Text {
        who: String::from("gre luser"),
        lines: vec!["This is a first line of text.".to_string(),
                    "Following the first is a second line of text.".to_string()],
    };
    assert_eq!(decoded(&m.bytes()), obj(&[("Text", obj(&[("who", s("gre luser")),
        ("lines", arr(&["This is a first line of text.", "Following the first is a second line of text."]))]))]));
    assert_eq!(decoded(&Msg::Ping.bytes()), s("Ping"));
    let m = Msg::Priv { who: String::from("naggum"), text: String::from("XML is bascially the Hitler of protocols.") };
    assert_eq!(decoded(&m.bytes()), obj(&[("Priv", obj(&[("who", s("naggum")), ("text", s("XML is bascially the Hitler of protocols."))]))]));
    let m = Msg::logout("You have been logged out because you touch yourself at night.");
    assert_eq!(decoded(&m.bytes()), obj(&[("Logout", s("You have been logged out because you touch yourself at night."))]));
    assert_eq!(decoded(&Msg::Name(String::from("New Lewser")).bytes()), obj(&[("Name", s("New Lewser"))]));
    assert_eq!(decoded(&Msg::Join(String::from("Gay Space Communism")).bytes()), obj(&[("Join", s("Gay Space Communism"))]));
    let m = Msg::Query { what: String::from("who"), arg: String::from("fink") };
    assert_eq!(decoded(&m.bytes()), obj(&[("Query", obj(&[("what", s("who")), ("arg", s("fink"))]))]));
    assert_eq!(decoded(&Msg::Block(String::from("Dickweed User")).bytes()), obj(&[("Block", s("Dickweed User"))]));
    assert_eq!(decoded(&Msg::Unblock(String::from("Misunderstood User")).bytes()), obj(&[("Unblock", s("Misunderstood User"))]));
    assert_eq!(decoded(&Msg::Op(Op::Close).bytes()), obj(&[("Op", s("Close"))]));
    assert_eq!(decoded(&Msg::Op(Op::Kick("FpS DoUgG".to_string())).bytes()), obj(&[("Op", obj(&[("Kick", s("FpS DoUgG"))]))]));
    assert_eq!(decoded(&Msg::info("Santa isn't real.").bytes()), obj(&[("Info", s("Santa isn't real."))]));
    assert_eq!(decoded(&Msg::err("Unrecognized Query \"meaning of life\".").bytes()), obj(&[("Err", s("Unrecognized Query \"meaning of life\"."))]));
    let m = Msg::Misc {
        what: String::from("roster"),
        data: vec!["you".to_string(), "me".to_string(), "a dog named foo".to_string()],
        alt: String::from("you, me, and a dog named foo"),
    };
    assert_eq!(decoded(&m.bytes()), obj(&[("Misc", obj(&[("what", s("roster")),
        ("data", arr(&["you", "me", "a dog named foo"])), ("alt", s("you, me, and a dog named foo"))]))]));
}

#[test]
fn printy_serde() {
    let m = Sndr::Text {
        who: "Some Dude",
        lines: &["This is the first line.", "And this is the second line; it comes after."],
    };
    assert_eq!(decoded(&m.bytes()), obj(&[("Text", obj(&[("who", s("Some Dude")),
        ("lines", arr(&["This is the first line.", "And this is the second line; it comes after."]))]))]));
    assert_eq!(decoded(&Sndr::Ping.bytes()), s("Ping"));
    let m = Sndr::Priv { who: "naggum", text: "XML is basically the Hitler of protocols." };
    assert_eq!(decoded(&m.bytes()), obj(&[("Priv", obj(&[("who", s("naggum")), ("text", s("XML is basically the Hitler of protocols."))]))]));
    let m = Sndr::Logout("You have been logged out because everyone hates you.");
    assert_eq!(decoded(&m.bytes()), obj(&[("Logout", s("You have been logged out because everyone hates you."))]));
    assert_eq!(decoded(&Sndr::Op(SndOp::Close).bytes()), obj(&[("Op", s("Close"))]));
    assert_eq!(decoded(&Sndr::Op(SndOp::Kick("FpS DoUg")).bytes()), obj(&[("Op", obj(&[("Kick", s("FpS DoUg"))]))]));
}
