//! Configuration values. Reading and parsing the files is left to the
//! program around the library; here the values that were found are merged
//! with the defaults and checked.

use vstd::prelude::*;

verus! {

pub const ADDR: &'static str = "127.0.0.1:51516";
pub const SERVER_LOG: &'static str = "greld.log";
pub const NAME: &'static str = "grel user";
pub const LOBBY_NAME: &'static str = "Lobby";
pub const WELCOME: &'static str = "Welcome to a grel server.";
pub const SERVER_TICK: u64 = 500;
pub const BYTE_LIMIT: usize = 512;
pub const BYTE_TICK: usize = 6;
pub const LOG_LEVEL: u8 = 2;
pub const BLACKOUT_TO_PING: u64 = 10000;
pub const BLACKOUT_TO_KICK: u64 = 20000;
pub const CLIENT_TICK: u64 = 100;
pub const BLOCK_TIMEOUT: u64 = 5000;
pub const READ_SIZE: usize = 1024;
/// Roster width, and the server's longest user and room names.
pub const ROSTER_WIDTH: u16 = 24;
pub const CMD_CHAR: char = ';';
pub const MIN_SCROLLBACK: usize = 1000;
pub const MAX_SCROLLBACK: usize = 2000;

/// The server settings as found in a configuration file, each optional.
pub struct ServerConfigFile {
    pub address: Option<String>,
    pub tick_ms: Option<u64>,
    pub blackout_to_ping_ms: Option<u64>,
    pub blackout_to_kick_ms: Option<u64>,
    pub max_user_name_length: Option<usize>,
    pub max_room_name_length: Option<usize>,
    pub lobby_name: Option<String>,
    pub welcome: Option<String>,
    pub log_file: Option<String>,
    pub log_level: Option<u8>,
    pub byte_limit: Option<usize>,
    pub bytes_per_tick: Option<usize>,
}

/// The server settings in use. Times are in milliseconds; the log level
/// runs from 0 (off) to 5 (trace).
pub struct ServerConfig {
    pub address: String,
    pub min_tick: u64,
    pub blackout_time_to_ping: u64,
    pub blackout_time_to_kick: u64,
    pub max_user_name_length: usize,
    pub max_room_name_length: usize,
    pub lobby_name: String,
    pub welcome: String,
    pub log_file: String,
    pub log_level: u8,
    pub byte_limit: usize,
    pub byte_tick: usize,
}

pub open spec fn or_default<T>(o: Option<T>, d: T) -> T {
    match o {
        Some(v) => v,
        None => d,
    }
}

pub open spec fn or_default_str(o: Option<String>, d: &str) -> Seq<char> {
    match o {
        Some(v) => v@,
        None => d@,
    }
}

fn string_or(o: Option<String>, d: &str) -> (r: String)
    ensures
        r@ == or_default_str(o, d),
{
    match o {
        Some(v) => v,
        None => d.to_owned(),
    }
}

impl ServerConfigFile {
    /// A file that sets nothing.
    pub fn empty() -> (r: ServerConfigFile)
        ensures
            r.address is None && r.tick_ms is None && r.blackout_to_ping_ms is None
                && r.blackout_to_kick_ms is None && r.max_user_name_length is None
                && r.max_room_name_length is None && r.lobby_name is None && r.welcome is None
                && r.log_file is None && r.log_level is None && r.byte_limit is None
                && r.bytes_per_tick is None,
    {
        ServerConfigFile {
            address: None,
            tick_ms: None,
            blackout_to_ping_ms: None,
            blackout_to_kick_ms: None,
            max_user_name_length: None,
            max_room_name_length: None,
            lobby_name: None,
            welcome: None,
            log_file: None,
            log_level: None,
            byte_limit: None,
            bytes_per_tick: None,
        }
    }
}

impl ServerConfig {
    /// The settings of a file, with the defaults for what it leaves out; log
    /// levels above 5 count as 5.
    pub fn from_file(f: ServerConfigFile) -> (r: ServerConfig)
        ensures
            r.address@ == or_default_str(f.address, ADDR),
            r.min_tick == or_default(f.tick_ms, SERVER_TICK),
            r.blackout_time_to_ping == or_default(f.blackout_to_ping_ms, BLACKOUT_TO_PING),
            r.blackout_time_to_kick == or_default(f.blackout_to_kick_ms, BLACKOUT_TO_KICK),
            r.max_user_name_length == or_default(f.max_user_name_length, ROSTER_WIDTH as usize),
            r.max_room_name_length == or_default(f.max_room_name_length, ROSTER_WIDTH as usize),
            r.lobby_name@ == or_default_str(f.lobby_name, LOBBY_NAME),
            r.welcome@ == or_default_str(f.welcome, WELCOME),
            r.log_file@ == or_default_str(f.log_file, SERVER_LOG),
            r.log_level == (match f.log_level {
                Some(l) => if l > 5 {
                    5
                } else {
                    l
                },
                None => LOG_LEVEL,
            }),
            r.byte_limit == or_default(f.byte_limit, BYTE_LIMIT),
            r.byte_tick == or_default(f.bytes_per_tick, BYTE_TICK),
    {
        let log_level = match f.log_level {
            Some(l) => if l > 5 {
                5
            } else {
                l
            },
            None => LOG_LEVEL,
        };
        ServerConfig {
            address: string_or(f.address, ADDR),
            min_tick: match f.tick_ms {
                Some(v) => v,
                None => SERVER_TICK,
            },
            blackout_time_to_ping: match f.blackout_to_ping_ms {
                Some(v) => v,
                None => BLACKOUT_TO_PING,
            },
            blackout_time_to_kick: match f.blackout_to_kick_ms {
                Some(v) => v,
                None => BLACKOUT_TO_KICK,
            },
            max_user_name_length: match f.max_user_name_length {
                Some(v) => v,
                None => ROSTER_WIDTH as usize,
            },
            max_room_name_length: match f.max_room_name_length {
                Some(v) => v,
                None => ROSTER_WIDTH as usize,
            },
            lobby_name: string_or(f.lobby_name, LOBBY_NAME),
            welcome: string_or(f.welcome, WELCOME),
            log_file: string_or(f.log_file, SERVER_LOG),
            log_level,
            byte_limit: match f.byte_limit {
                Some(v) => v,
                None => BYTE_LIMIT,
            },
            byte_tick: match f.bytes_per_tick {
                Some(v) => v,
                None => BYTE_TICK,
            },
        }
    }
}

/// Terminal colors of the client, each optional.
pub struct Colors {
    pub dim_foreground: Option<u8>,
    pub dim_background: Option<u8>,
    pub highlight_foreground: Option<u8>,
    pub highlight_background: Option<u8>,
    pub underline_as_bold: Option<bool>,
}

/// The client settings as found in a configuration file, each optional.
pub struct ClientConfigFile {
    pub address: Option<String>,
    pub name: Option<String>,
    pub timeout_ms: Option<u64>,
    pub block_ms: Option<u64>,
    pub read_size: Option<usize>,
    pub roster_width: Option<u16>,
    pub cmd_char: Option<char>,
    pub max_scrollback: Option<usize>,
    pub min_scrollback: Option<usize>,
    pub colors: Option<Colors>,
}

/// The client settings in use; times in milliseconds.
pub struct ClientConfig {
    pub address: String,
    pub name: String,
    pub tick: u64,
    pub block: u64,
    pub read_size: usize,
    pub roster_width: u16,
    pub cmd_char: char,
    pub max_scrollback: usize,
    pub min_scrollback: usize,
    pub colors: Option<Colors>,
}

impl ClientConfig {
    /// The settings of a file with the defaults for what it leaves out.
    /// Refused when the scrollback bounds are crossed or the command
    /// character is not ASCII.
    pub fn from_file(f: ClientConfigFile) -> (r: Result<ClientConfig, String>)
        ensures
            r is Err <==> (or_default(f.max_scrollback, MAX_SCROLLBACK) < or_default(
                f.min_scrollback,
                MIN_SCROLLBACK,
            ) || or_default(f.cmd_char, CMD_CHAR) as u32 > 128),
            r matches Ok(c) ==> {
                &&& c.address@ == or_default_str(f.address, ADDR)
                &&& c.name@ == or_default_str(f.name, NAME)
                &&& c.tick == or_default(f.timeout_ms, CLIENT_TICK)
                &&& c.block == or_default(f.block_ms, BLOCK_TIMEOUT)
                &&& c.read_size == or_default(f.read_size, READ_SIZE)
                &&& c.roster_width == or_default(f.roster_width, ROSTER_WIDTH)
                &&& c.cmd_char == or_default(f.cmd_char, CMD_CHAR)
                &&& c.max_scrollback == or_default(f.max_scrollback, MAX_SCROLLBACK)
                &&& c.min_scrollback == or_default(f.min_scrollback, MIN_SCROLLBACK)
                &&& c.colors == f.colors
            },
    {
        let max_scroll = match f.max_scrollback {
            Some(v) => v,
            None => MAX_SCROLLBACK,
        };
        let min_scroll = match f.min_scrollback {
            Some(v) => v,
            None => MIN_SCROLLBACK,
        };
        let cmd_char = match f.cmd_char {
            Some(v) => v,
            None => CMD_CHAR,
        };
        if max_scroll < min_scroll {
            return Err("max_scrollback cannot be smaller than min_scrollback".to_owned());
        }
        if (cmd_char as u32) > 128 {
            return Err("cmd_char must be an ASCII character".to_owned());
        }
        Ok(ClientConfig {
            address: string_or(f.address, ADDR),
            name: string_or(f.name, NAME),
            tick: match f.timeout_ms {
                Some(v) => v,
                None => CLIENT_TICK,
            },
            block: match f.block_ms {
                Some(v) => v,
                None => BLOCK_TIMEOUT,
            },
            read_size: match f.read_size {
                Some(v) => v,
                None => READ_SIZE,
            },
            roster_width: match f.roster_width {
                Some(v) => v,
                None => ROSTER_WIDTH,
            },
            cmd_char,
            max_scrollback: max_scroll,
            min_scrollback: min_scroll,
            colors: f.colors,
        })
    }
}

} // verus!
