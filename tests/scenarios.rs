use grel::config::{ServerConfig, ServerConfigFile};
use grel::frame::Sock;
use grel::proto::{RcvOp, Rcvr};
use grel::server::Server;
use grel::tick::Intake;
use grel::user::User;
use serde_json::Value;

fn cfg() -> ServerConfig {
    ServerConfig::from_file(ServerConfigFile::empty())
}

fn add(s: &mut Server, id: u64, name: &str, c: &ServerConfig) {
    let mut u = User::new(Sock::new(), id, 0);
    u.set_name(name);
    assert!(s.accept_user(u, c));
}

fn values(bytes: &[u8]) -> Vec<Value> {
    serde_json::Deserializer::from_slice(bytes)
        .into_iter::<Value>()
        .map(|v| v.unwrap())
        .collect()
}

fn drain(s: &mut Server, uid: u64) -> Vec<Value> {
    let b = s.pending(uid);
    s.sent(uid, b.len());
    values(&b)
}

fn msg(uid: u64, m: Rcvr) -> Vec<(u64, Intake)> {
    vec![(uid, Intake::Message(m, 10))]
}

/// A server with alice (100) and bob (101) in the lobby, outputs cleared.
fn two_users() -> (Server, ServerConfig) {
    let c = cfg();
    let mut s = Server::new("Lobby".to_string());
    add(&mut s, 100, "alice", &c);
    add(&mut s, 101, "bob", &c);
    s.process_room(0, 0, vec![], &c);
    drain(&mut s, 100);
    drain(&mut s, 101);
    (s, c)
}

fn misc(what: &str, data: &[&str]) -> Value {
    let mut o = serde_json::Map::new();
    o.insert("what".to_string(), Value::String(what.to_string()));
    o.insert(
        "data".to_string(),
        Value::Array(data.iter().map(|d| Value::String(d.to_string())).collect()),
    );
    let mut v = serde_json::Map::new();
    v.insert("Misc".to_string(), Value::Object(o));
    Value::Object(v)
}

fn without_alt(v: &Value) -> Value {
    let mut v = v.clone();
    if let Some(o) = v.get_mut("Misc").and_then(|m| m.as_object_mut()) {
        o.remove("alt");
    }
    v
}

fn tagged(tag: &str, text: &str) -> Value {
    let mut v = serde_json::Map::new();
    v.insert(tag.to_string(), Value::String(text.to_string()));
    Value::Object(v)
}

#[test]
fn rename_to_own_normalized_name_is_announced() {
    let (mut s, c) = two_users();
    s.process_room(0, 1, msg(100, Rcvr::Name("ALICE  ".to_string())), &c);
    let a = drain(&mut s, 100);
    let b = drain(&mut s, 101);
    assert_eq!(a.iter().map(without_alt).collect::<Vec<_>>(), vec![misc("name", &["alice", "ALICE  "])]);
    assert_eq!(b.iter().map(without_alt).collect::<Vec<_>>(), vec![misc("name", &["alice", "ALICE  "])]);
    assert_eq!(s.user_id_named("alice"), Some(100));
    assert_eq!(s.user_ref(100).get_name(), "ALICE  ");
}

#[test]
fn rename_onto_another_users_name_is_refused() {
    let (mut s, c) = two_users();
    s.process_room(0, 1, msg(101, Rcvr::Name("Alice".to_string())), &c);
    let b = drain(&mut s, 101);
    assert_eq!(b, vec![tagged("Err", "There is already a user named \"alice\".")]);
    assert_eq!(s.user_ref(101).get_name(), "bob");
    assert_eq!(s.user_id_named("bob"), Some(101));
}

#[test]
fn private_message_echo_and_block() {
    let (mut s, c) = two_users();
    let priv_msg = Rcvr::Priv { who: "bob".to_string(), text: "hi".to_string() };
    s.process_room(0, 1, msg(100, priv_msg), &c);
    let a = drain(&mut s, 100);
    let b = drain(&mut s, 101);
    assert_eq!(a.iter().map(without_alt).collect::<Vec<_>>(), vec![misc("priv_echo", &["bob", "hi"])]);
    let mut p = serde_json::Map::new();
    p.insert("who".to_string(), Value::String("alice".to_string()));
    p.insert("text".to_string(), Value::String("hi".to_string()));
    let mut expect = serde_json::Map::new();
    expect.insert("Priv".to_string(), Value::Object(p));
    assert_eq!(b, vec![Value::Object(expect)]);

    s.process_room(0, 2, msg(101, Rcvr::Block("alice".to_string())), &c);
    assert_eq!(drain(&mut s, 101), vec![tagged("Info", "You are now blocking alice.")]);
    let priv2 = Rcvr::Priv { who: "bob".to_string(), text: "hi2".to_string() };
    s.process_room(0, 3, msg(100, priv2), &c);
    assert_eq!(drain(&mut s, 100).len(), 1);
    assert!(drain(&mut s, 101).is_empty());
}

#[test]
fn room_is_created_joined_and_reaped() {
    let (mut s, c) = two_users();
    s.process_room(0, 1, msg(100, Rcvr::Join("Gaming".to_string())), &c);
    let gid = s.room_id_named("gaming").unwrap();
    assert_eq!(s.members_of(gid), vec![100]);
    assert_eq!(s.members_of(0), vec![101]);
    assert_eq!(s.room_ref(gid).get_op(), 100);
    let a = drain(&mut s, 100);
    assert_eq!(a[0], tagged("Info", "You create room \"Gaming\"."));
    let b = drain(&mut s, 101);
    assert_eq!(b.iter().map(without_alt).collect::<Vec<_>>(), vec![misc("leave", &["alice", "[ moved to another room ]"])]);
    s.process_room(gid, 2, vec![], &c);
    let a = drain(&mut s, 100);
    assert_eq!(a.iter().map(without_alt).collect::<Vec<_>>(), vec![misc("join", &["alice", "Gaming"])]);

    s.process_room(gid, 3, msg(100, Rcvr::Logout("bye".to_string())), &c);
    assert!(!s.has_user(100));
    assert!(s.reap_room(gid));
    assert_eq!(s.room_id_named("gaming"), None);
    assert!(!s.has_room(gid));
    let gone = s.take_departed();
    assert_eq!(gone.len(), 1);
    assert_eq!(gone[0].get_id(), 100);
}

#[test]
fn joining_the_room_one_is_in_sends_no_leave() {
    let (mut s, c) = two_users();
    s.process_room(0, 1, msg(100, Rcvr::Join("Lobby".to_string())), &c);
    assert_eq!(drain(&mut s, 100), vec![tagged("Info", "You are already in \"Lobby\".")]);
    assert!(drain(&mut s, 101).is_empty());
    assert_eq!(s.members_of(0), vec![100, 101]);
}

#[test]
fn operator_is_replaced_when_it_leaves() {
    let (mut s, c) = two_users();
    s.process_room(0, 1, msg(100, Rcvr::Join("Gaming".to_string())), &c);
    let gid = s.room_id_named("gaming").unwrap();
    s.process_room(0, 2, msg(101, Rcvr::Join("gaming".to_string())), &c);
    assert_eq!(s.members_of(gid), vec![100, 101]);
    drain(&mut s, 101);
    s.process_room(gid, 3, vec![(100, Intake::Message(Rcvr::Logout("bye".to_string()), 10)), (101, Intake::Nothing)], &c);
    assert_eq!(s.room_ref(gid).get_op(), 101);
    let b = drain(&mut s, 101);
    assert!(b.contains(&tagged("Info", "bob is now the Room operator.")));
}

#[test]
fn kick_moves_target_to_lobby_and_bans_it() {
    let (mut s, c) = two_users();
    s.process_room(0, 1, msg(100, Rcvr::Join("Gaming".to_string())), &c);
    let gid = s.room_id_named("gaming").unwrap();
    s.process_room(0, 2, msg(101, Rcvr::Join("Gaming".to_string())), &c);
    s.process_room(gid, 3, vec![], &c);
    drain(&mut s, 100);
    drain(&mut s, 101);
    s.process_room(gid, 4, msg(100, Rcvr::Op(RcvOp::Kick("bob".to_string()))), &c);
    let b = drain(&mut s, 101);
    assert_eq!(b[0], tagged("Info", "You have been kicked from Gaming."));
    let a = drain(&mut s, 100);
    assert_eq!(a.iter().map(without_alt).collect::<Vec<_>>(), vec![misc("kick_other", &["bob", "Gaming"])]);
    assert_eq!(s.members_of(0), vec![101]);
    assert_eq!(s.members_of(gid), vec![100]);
    assert!(s.room_ref(gid).is_banned(&101));
    s.process_room(0, 5, vec![], &c);
    let b = drain(&mut s, 101);
    assert_eq!(b.iter().map(without_alt).collect::<Vec<_>>(), vec![misc("join", &["bob", "Lobby"])]);
}

#[test]
fn idle_user_is_pinged_then_logged_out() {
    let (mut s, c) = two_users();
    s.process_room(0, 10_001, vec![(100, Intake::Nothing)], &c);
    assert_eq!(drain(&mut s, 100), vec![Value::String("Ping".to_string())]);
    s.process_room(0, 15_000, vec![(100, Intake::Message(Rcvr::Ping, 6))], &c);
    assert!(drain(&mut s, 100).is_empty());
    s.process_room(0, 30_000, vec![(100, Intake::Nothing)], &c);
    assert_eq!(drain(&mut s, 100), vec![Value::String("Ping".to_string())]);
    s.process_room(0, 35_001, vec![(100, Intake::Nothing)], &c);
    assert!(!s.has_user(100));
    let gone = s.take_departed();
    assert_eq!(
        values(gone[0].pending()),
        vec![tagged("Logout", "Too long since the server received data from the client.")]
    );
    let b = drain(&mut s, 101);
    assert_eq!(b.iter().map(without_alt).collect::<Vec<_>>(), vec![misc("leave", &["alice", "[ disconnected by server ]"])]);
}

#[test]
fn throttling_warns_once_each_way() {
    let (mut s, c) = two_users();
    let text = || Rcvr::Text { who: String::new(), lines: vec!["x".to_string()] };
    s.process_room(0, 1, vec![(100, Intake::Message(text(), 600))], &c);
    let a = drain(&mut s, 100);
    assert_eq!(a[0], tagged("Err", "You have exceeded your data quota and your messages will be ignored for a short time."));
    assert_eq!(drain(&mut s, 101).len(), 1);
    s.process_room(0, 2, vec![(100, Intake::Message(text(), 10))], &c);
    assert!(drain(&mut s, 101).is_empty());
    assert!(drain(&mut s, 100).is_empty());
    let mut again = 0;
    for t in 3..40 {
        s.process_room(0, t, vec![(100, Intake::Nothing)], &c);
        let a = drain(&mut s, 100);
        again += a.iter().filter(|v| **v == tagged("Err", "You may send messages again.")).count();
    }
    assert_eq!(again, 1);
    assert!(s.user_ref(100).get_byte_quota() <= 512);
    s.process_room(0, 41, vec![(100, Intake::Message(text(), 10))], &c);
    assert_eq!(drain(&mut s, 101).len(), 1);
}

#[test]
fn queries_who_rooms_and_unknown() {
    let (mut s, c) = two_users();
    let q = |w: &str, a: &str| Rcvr::Query { what: w.to_string(), arg: a.to_string() };
    s.process_room(0, 1, msg(100, q("who", "B")), &c);
    assert_eq!(drain(&mut s, 100).iter().map(without_alt).collect::<Vec<_>>(), vec![misc("who", &["bob"])]);
    s.process_room(0, 2, msg(100, q("who", "zz")), &c);
    assert_eq!(drain(&mut s, 100), vec![tagged("Info", "No users matching the pattern \"zz\".")]);
    s.process_room(0, 3, msg(100, q("rooms", "")), &c);
    assert_eq!(drain(&mut s, 100).iter().map(without_alt).collect::<Vec<_>>(), vec![misc("rooms", &["lobby"])]);
    s.process_room(0, 4, msg(100, q("roster", "")), &c);
    assert_eq!(drain(&mut s, 100).iter().map(without_alt).collect::<Vec<_>>(), vec![misc("roster", &["alice", "bob"])]);
    s.process_room(0, 5, msg(100, q("meaning", "")), &c);
    assert_eq!(drain(&mut s, 100), vec![tagged("Err", "Unknown \"Query\" type: \"meaning\".")]);
    s.process_room(0, 6, msg(100, q("addr", "")), &c);
    assert_eq!(drain(&mut s, 100).iter().map(without_alt).collect::<Vec<_>>(), vec![misc("addr", &["???"])]);
}

#[test]
fn lobby_has_no_operator() {
    let (mut s, c) = two_users();
    s.process_room(0, 1, msg(100, Rcvr::Op(RcvOp::Close)), &c);
    assert_eq!(drain(&mut s, 100), vec![tagged("Err", "You are not the operator of this Room.")]);
}

#[test]
fn closed_room_needs_an_invitation() {
    let (mut s, c) = two_users();
    s.process_room(0, 1, msg(100, Rcvr::Join("Den".to_string())), &c);
    drain(&mut s, 101);
    let gid = s.room_id_named("den").unwrap();
    s.process_room(gid, 2, msg(100, Rcvr::Op(RcvOp::Close)), &c);
    s.process_room(0, 3, msg(101, Rcvr::Join("Den".to_string())), &c);
    assert_eq!(drain(&mut s, 101), vec![tagged("Info", "\"Den\" is closed.")]);
    s.process_room(gid, 4, msg(100, Rcvr::Op(RcvOp::Invite("bob".to_string()))), &c);
    assert_eq!(drain(&mut s, 101), vec![tagged("Info", "You have been invited to join Den.")]);
    s.process_room(0, 5, msg(101, Rcvr::Join("Den".to_string())), &c);
    assert_eq!(s.members_of(gid), vec![100, 101]);
}

#[test]
fn colliding_newcomer_is_renamed() {
    let (mut s, c) = two_users();
    let mut u = User::new(Sock::new(), 102, 0);
    u.set_name("  Bob ");
    assert!(s.accept_user(u, &c));
    assert_eq!(s.user_ref(102).get_name(), "user102");
    assert_eq!(s.user_id_named("user102"), Some(102));
    let out = drain(&mut s, 102);
    assert_eq!(out[0], tagged("Info", "Welcome to a grel server."));
    assert_eq!(out[1], tagged("Err", "Name \"bob\" exists."));
    assert_eq!(without_alt(&out[2]), misc("name", &["  Bob ", "user102"]));
}

#[test]
fn tables_stay_consistent_through_moves() {
    let (mut s, c) = two_users();
    let mut u = User::new(Sock::new(), 102, 0);
    u.set_name("carol");
    assert!(s.accept_user(u, &c));
    s.process_room(0, 1, msg(100, Rcvr::Join("Gaming".to_string())), &c);
    s.process_room(0, 2, msg(101, Rcvr::Join("Den".to_string())), &c);
    s.process_room(0, 3, msg(102, Rcvr::Join("gaming".to_string())), &c);
    let gid = s.room_id_named("gaming").unwrap();
    s.process_room(gid, 4, msg(100, Rcvr::Op(RcvOp::Kick("carol".to_string()))), &c);
    s.process_room(gid, 5, msg(100, Rcvr::Name("Alicia".to_string())), &c);
    for id in [100u64, 101, 102] {
        let rooms_with: Vec<u64> = s.room_ids().into_iter().filter(|r| s.members_of(*r).contains(&id)).collect();
        assert_eq!(rooms_with.len(), 1);
        let idstr = s.user_ref(id).get_idstr().to_string();
        assert_eq!(s.user_id_named(&idstr), Some(id));
    }
    for rid in s.room_ids() {
        let idstr = s.room_ref(rid).get_idstr().to_string();
        assert_eq!(s.room_id_named(&idstr), Some(rid));
    }
    assert_eq!(s.user_id_named("alice"), None);
    assert_eq!(s.user_id_named("alicia"), Some(100));
}
