use grel::config::{ClientConfig, ClientConfigFile, ServerConfig, ServerConfigFile};
use grel::frame::{scan, Scan, Sock};
use grel::names::ascollapse;
use grel::proto::{SndOp, Sndr};
use grel::user::User;

#[test]
fn normalization_examples() {
    assert_eq!(ascollapse("ALICE  "), "alice");
    assert_eq!(ascollapse("Ünïcödé  Nâme"), "unicodename");
    assert_eq!(ascollapse(" \t\n"), "");
}

#[test]
fn normalization_is_idempotent_on_examples() {
    for s in ["ALICE  ", "Ünïcödé  Nâme", "Gay Space Communism", "xXx _ c0o1i0z _ xXx", "ÀÉÎÕÜ ÿ"] {
        let once = ascollapse(s);
        assert_eq!(ascollapse(&once), once);
    }
}

#[test]
fn block_then_unblock_restores_list() {
    let mut u = User::new(Sock::new(), 100, 0);
    assert!(u.block_id(7));
    assert!(u.block_id(3));
    let before = u.blocks_list();
    assert!(u.block_id(5));
    assert_eq!(u.blocks_list(), vec![3, 5, 7]);
    assert!(!u.block_id(5));
    assert!(u.unblock_id(5));
    assert_eq!(u.blocks_list(), before);
    assert!(!u.unblock_id(5));
}

#[test]
fn frames_survive_any_split() {
    let msgs = [
        Sndr::Ping,
        Sndr::Text { who: "Some Dude", lines: &["a {brace}", "b \"q\" \\ }"] },
        Sndr::Op(SndOp::Kick("FpS DoUg")),
        Sndr::Op(SndOp::Close),
        Sndr::Misc { what: "roster", data: &["you", "a dog named foo"], alt: "you, me" },
    ];
    let encs: Vec<Vec<u8>> = msgs.iter().map(|m| m.bytes()).collect();
    let all: Vec<u8> = encs.concat();
    for cut in 0..=all.len() {
        for chunk in [1usize, 3, 7, 1000] {
            let mut s = Sock::new();
            let mut got: Vec<Vec<u8>> = Vec::new();
            let mut pos = 0;
            while pos < all.len() {
                let end = std::cmp::min(pos + chunk, all.len());
                let end = if pos < cut && cut < end { cut } else { end };
                s.absorb(&all[pos..end]);
                pos = end;
                while let Ok(Some(f)) = s.try_get() {
                    got.push(f);
                }
            }
            assert_eq!(got, encs);
            assert_eq!(s.recv_buff_size(), 0);
        }
    }
}

#[test]
fn scan_cases() {
    assert_eq!(scan(b""), Scan::Incomplete);
    assert_eq!(scan(b"  \n"), Scan::Incomplete);
    assert_eq!(scan(b"{\"a\":"), Scan::Incomplete);
    assert_eq!(scan(b" {\"a\":\"}\"} {"), Scan::Complete(10));
    assert_eq!(scan(b"\"Ping\"\"Ping\""), Scan::Complete(6));
    assert_eq!(scan(b"12"), Scan::Invalid);
    let mut s = Sock::new();
    s.absorb(b"x{}");
    assert!(s.try_get().is_err());
}

#[test]
fn escapes_control_characters() {
    assert_eq!(Sndr::Info("a\u{1}\n").bytes(), b"{\"Info\":\"a\\u0001\\n\"}".to_vec());
}

#[test]
fn server_config_defaults_and_clamp() {
    let c = ServerConfig::from_file(ServerConfigFile::empty());
    assert_eq!(c.address, "127.0.0.1:51516");
    assert_eq!(c.byte_limit, 512);
    assert_eq!(c.byte_tick, 6);
    assert_eq!(c.blackout_time_to_ping, 10000);
    assert_eq!(c.blackout_time_to_kick, 20000);
    assert_eq!(c.lobby_name, "Lobby");
    let mut f = ServerConfigFile::empty();
    f.log_level = Some(9);
    f.byte_limit = Some(100);
    let c = ServerConfig::from_file(f);
    assert_eq!(c.log_level, 5);
    assert_eq!(c.byte_limit, 100);
}

fn client_file() -> ClientConfigFile {
    ClientConfigFile {
        address: None,
        name: None,
        timeout_ms: None,
        block_ms: None,
        read_size: None,
        roster_width: None,
        cmd_char: None,
        max_scrollback: None,
        min_scrollback: None,
        colors: None,
    }
}

#[test]
fn client_config_checks() {
    let c = ClientConfig::from_file(client_file()).ok().unwrap();
    assert_eq!(c.cmd_char, ';');
    assert_eq!(c.max_scrollback, 2000);
    let mut f = client_file();
    f.max_scrollback = Some(10);
    assert!(ClientConfig::from_file(f).is_err());
    let mut f = client_file();
    f.cmd_char = Some('é');
    assert!(ClientConfig::from_file(f).is_err());
}
