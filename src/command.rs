//! What a line typed into the client means: chat text to send, a command
//! that becomes a protocol message, or a notice for the user.

use vstd::prelude::*;
use vstd::string::StrSliceExecFns;
use crate::json::string_views;
use crate::names::{is_ws, lowercase, lower_of};
use crate::proto2::{Msg, Op};
use crate::text::{push_char, push_str, str_eq};

verus! {

broadcast use vstd::string::group_string_axioms;

/// A text cut into alternating runs of whitespace and non-whitespace.
pub open spec fn tokens(s: Seq<char>) -> Seq<Seq<char>>
    decreases s.len(),
{
    if s.len() == 0 {
        Seq::empty()
    } else {
        let t = tokens(s.drop_last());
        let c = s.last();
        if t.len() > 0 && t.last().len() > 0 && is_ws(t.last()[0]) == is_ws(c) {
            t.drop_last().push(t.last().push(c))
        } else {
            t.push(seq![c])
        }
    }
}

proof fn lemma_tokens_nonempty(s: Seq<char>)
    ensures
        s.len() > 0 ==> tokens(s).len() > 0,
        forall|i: int| 0 <= i < tokens(s).len() ==> (#[trigger] tokens(s)[i]).len() > 0,
    decreases s.len(),
{
    if s.len() > 0 {
        let p = s.drop_last();
        lemma_tokens_nonempty(p);
        let t = tokens(p);
        let c = s.last();
        if t.len() > 0 && t.last().len() > 0 && is_ws(t.last()[0]) == is_ws(c) {
            let u = t.drop_last().push(t.last().push(c));
            assert forall|i: int| 0 <= i < u.len() implies (#[trigger] u[i]).len() > 0 by {
                if i < t.len() - 1 {
                    assert(u[i] == t[i]);
                }
            }
        } else {
            let u = t.push(seq![c]);
            assert forall|i: int| 0 <= i < u.len() implies (#[trigger] u[i]).len() > 0 by {
                if i < t.len() {
                    assert(u[i] == t[i]);
                }
            }
        }
    }
}

/// Cuts `s` into alternating runs of whitespace and non-whitespace.
pub fn tokenize_the_whitespace_too(s: &str) -> (r: Vec<String>)
    ensures
        string_views(r@) == tokens(s@),
{
    let n = s.unicode_len();
    let mut toks: Vec<String> = Vec::new();
    let mut cur = String::new();
    let mut cur_ws = false;
    let mut i: usize = 0;
    while i < n
        invariant
            n == s@.len(),
            i <= n,
            i == 0 ==> toks@.len() == 0 && cur@.len() == 0,
            i > 0 ==> cur@.len() > 0 && cur_ws == is_ws(cur@[0]) && tokens(s@.take(i as int))
                == string_views(toks@).push(cur@),
        decreases n - i,
    {
        let c = s.get_char(i);
        let w = crate::names::is_ws_exec(c);
        proof {
            assert(s@.take(i + 1).drop_last() =~= s@.take(i as int));
            assert(s@.take(i + 1).last() == c);
            lemma_tokens_nonempty(s@.take(i as int));
        }
        let ghost before = string_views(toks@);
        if i > 0 && w == cur_ws {
            push_char(&mut cur, c);
            proof {
                assert(tokens(s@.take(i + 1)) =~= before.push(cur@));
            }
        } else {
            if i > 0 {
                let mut done = String::new();
                std::mem::swap(&mut done, &mut cur);
                toks.push(done);
                assert(string_views(toks@) =~= before.push(tokens(s@.take(i as int)).last()));
            } else {
                assert(tokens(s@.take(0)) =~= Seq::<Seq<char>>::empty());
            }
            push_char(&mut cur, c);
            cur_ws = w;
            proof {
                assert(cur@ =~= seq![c]);
                assert(tokens(s@.take(i + 1)) =~= string_views(toks@).push(cur@));
            }
        }
        i = i + 1;
    }
    assert(s@.take(n as int) =~= s@);
    if n > 0 {
        let ghost before = string_views(toks@);
        toks.push(cur);
        assert(string_views(toks@) =~= before.push(tokens(s@).last()));
        assert(string_views(toks@) =~= tokens(s@));
    } else {
        assert(string_views(toks@) =~= tokens(s@));
    }
    toks
}

/// The texts one after another.
pub open spec fn joined(ss: Seq<Seq<char>>) -> Seq<char>
    decreases ss.len(),
{
    if ss.len() == 0 {
        Seq::empty()
    } else {
        joined(ss.drop_last()) + ss.last()
    }
}

/// The tokens after the first `k`, joined; nothing if there are none.
pub open spec fn joined_from(toks: Seq<Seq<char>>, k: int) -> Seq<char> {
    if k <= toks.len() {
        joined(toks.skip(k))
    } else {
        Seq::empty()
    }
}

/// Splits tokens into `n_cmds` command words (the tokens at even
/// positions) and the rest joined as one argument, leaving out the
/// whitespace right after the last command word.
pub fn split_command_toks(toks: &Vec<String>, n_cmds: usize) -> (r: Result<(Vec<String>, String), ()>)
    ensures
        r is Err <==> (n_cmds == 0 || toks@.len() + 1 < 2 * n_cmds),
        r matches Ok((cmds, arg)) ==> {
            &&& cmds@.len() == n_cmds
            &&& forall|k: int| 0 <= k < n_cmds ==> (#[trigger] cmds@[k])@ == toks@[2 * k]@
            &&& arg@ == joined_from(string_views(toks@), 2 * n_cmds)
        },
{
    if n_cmds == 0 {
        return Err(());
    }
    if (toks.len() as u128) + 1 < 2 * (n_cmds as u128) {
        return Err(());
    }
    let mut cmds: Vec<String> = Vec::new();
    let mut k: usize = 0;
    while k < n_cmds
        invariant
            k <= n_cmds,
            2 * n_cmds <= toks@.len() + 1,
            cmds@.len() == k,
            forall|j: int| 0 <= j < k ==> (#[trigger] cmds@[j])@ == toks@[2 * j]@,
        decreases n_cmds - k,
    {
        let n = toks.len();
        assert(k + k < n);
        let idx: usize = k + k;
        cmds.push(toks[idx].clone());
        k = k + 1;
    }
    let mut arg = String::new();
    let start: usize = 2 * (n_cmds - 1) + 1;
    if start == toks.len() {
        return Ok((cmds, arg));
    }
    let mut m: usize = start + 1;
    let ghost rest = string_views(toks@).skip(2 * n_cmds);
    assert(rest.take(0) =~= Seq::<Seq<char>>::empty());
    while m < toks.len()
        invariant
            2 * n_cmds == m || 2 * n_cmds < m,
            2 * n_cmds <= m <= toks@.len(),
            rest == string_views(toks@).skip(2 * n_cmds),
            arg@ == joined(rest.take(m - 2 * n_cmds)),
        decreases toks@.len() - m,
    {
        push_str(&mut arg, toks[m].as_str());
        proof {
            let j = m - 2 * n_cmds;
            assert(rest.take(j + 1).drop_last() =~= rest.take(j));
            assert(rest.take(j + 1).last() == toks@[m as int]@);
        }
        m = m + 1;
    }
    assert(rest.take(m - 2 * n_cmds) =~= rest);
    Ok((cmds, arg))
}

/// A text cut at its newlines (which it drops).
pub open spec fn lines_of(s: Seq<char>) -> Seq<Seq<char>>
    decreases s.len(),
{
    if s.len() == 0 {
        seq![Seq::empty()]
    } else {
        let t = lines_of(s.drop_last());
        if s.last() == '\n' {
            t.push(Seq::empty())
        } else {
            t.drop_last().push(t.last().push(s.last()))
        }
    }
}

proof fn lemma_lines_nonempty(s: Seq<char>)
    ensures
        lines_of(s).len() > 0,
    decreases s.len(),
{
    if s.len() > 0 {
        lemma_lines_nonempty(s.drop_last());
    }
}

/// Cuts typed text into the lines of a `Text` message.
pub fn split_lines(ipt: &Vec<char>) -> (r: Vec<String>)
    ensures
        string_views(r@) == lines_of(ipt@),
{
    let mut lines: Vec<String> = Vec::new();
    let mut cur = String::new();
    let mut i: usize = 0;
    while i < ipt.len()
        invariant
            i <= ipt@.len(),
            lines_of(ipt@.take(i as int)) == string_views(lines@).push(cur@),
        decreases ipt@.len() - i,
    {
        let c = ipt[i];
        let ghost before = string_views(lines@);
        proof {
            assert(ipt@.take(i + 1).drop_last() =~= ipt@.take(i as int));
            lemma_lines_nonempty(ipt@.take(i as int));
        }
        if c == '\n' {
            let mut done = String::new();
            std::mem::swap(&mut done, &mut cur);
            lines.push(done);
            proof {
                assert(string_views(lines@) =~= before.push(lines_of(ipt@.take(i as int)).last()));
                assert(lines_of(ipt@.take(i + 1)) =~= string_views(lines@).push(cur@));
            }
        } else {
            push_char(&mut cur, c);
            proof {
                assert(lines_of(ipt@.take(i + 1)) =~= before.push(cur@));
            }
        }
        i = i + 1;
    }
    assert(ipt@.take(i as int) =~= ipt@);
    let ghost before = string_views(lines@);
    lines.push(cur);
    assert(string_views(lines@) =~= before.push(lines_of(ipt@).last()));
    proof {
        lemma_lines_nonempty(ipt@);
    }
    assert(string_views(lines@) =~= lines_of(ipt@));
    lines
}

/// The command line after the command character, newlines turned to spaces.
pub open spec fn command_line(ipt: Seq<char>) -> Seq<char> {
    ipt.skip(1).map_values(|c: char| if c == '\n' { ' ' } else { c })
}

/// What a typed line comes to.
pub enum UserInput {
    /// Nothing to do.
    Nothing,
    /// A message to send to the server.
    Send(Msg),
    /// A notice to show the user.
    Notice(String),
}

pub const OP_ERROR: &'static str = "# The recognized OP subcommands are OPEN, CLOSE, KICK, INVITE, and GIVE.";

/// The first word of a command line, lower-cased.
pub open spec fn command_word(ipt: Seq<char>) -> Seq<char> {
    lower_of(tokens(command_line(ipt))[0])
}

/// The argument of a one-word command.
pub open spec fn arg1(ipt: Seq<char>) -> Seq<char> {
    joined_from(tokens(command_line(ipt)), 2)
}

fn op_sub(sub: &str, arg: String) -> (r: Option<Op>)
    ensures
        sub@ == "open"@ ==> r == Some(Op::Open),
        sub@ == "close"@ ==> r == Some(Op::Close),
        (sub@ == "ban"@ || sub@ == "kick"@) ==> (r matches Some(Op::Kick(a)) && a@ == arg@),
        sub@ == "invite"@ ==> (r matches Some(Op::Invite(a)) && a@ == arg@),
        sub@ == "give"@ ==> (r matches Some(Op::Give(a)) && a@ == arg@),
        !(sub@ == "open"@ || sub@ == "close"@ || sub@ == "ban"@ || sub@ == "kick"@ || sub@
            == "invite"@ || sub@ == "give"@) ==> r is None,
{
    proof {
        reveal_strlit("open");
        reveal_strlit("close");
        reveal_strlit("ban");
        reveal_strlit("kick");
        reveal_strlit("invite");
        reveal_strlit("give");
        assert("open"@.len() == 4 && "open"@[0] == 'o');
        assert("close"@.len() == 5);
        assert("ban"@.len() == 3);
        assert("kick"@.len() == 4 && "kick"@[0] == 'k');
        assert("invite"@.len() == 6);
        assert("give"@.len() == 4 && "give"@[0] == 'g');
    }
    if str_eq(sub, "open") {
        Some(Op::Open)
    } else if str_eq(sub, "close") {
        Some(Op::Close)
    } else if str_eq(sub, "ban") || str_eq(sub, "kick") {
        Some(Op::Kick(arg))
    } else if str_eq(sub, "invite") {
        Some(Op::Invite(arg))
    } else if str_eq(sub, "give") {
        Some(Op::Give(arg))
    } else {
        None
    }
}

/// Decides what a line typed in input mode means. A line that does not
/// start with the command character is chat text, one entry per line. A
/// command is its first word, lower-cased: `quit`, `name`, `join`,
/// `block`, `unblock`, `who` and `rooms` take the rest as argument; `priv`
/// and `op` take a second word first.
pub fn parse_input(ipt: &Vec<char>, cmd_char: char) -> (r: UserInput)
    ensures
        (ipt@.len() == 0 || ipt@[0] != cmd_char) ==> (r matches UserInput::Send(Msg::Text { who, lines })
            && who@.len() == 0 && string_views(lines@) == lines_of(ipt@)),
        ipt@.len() == 1 && ipt@[0] == cmd_char ==> r is Nothing,
        ipt@.len() > 1 && ipt@[0] == cmd_char ==> {
            let w = command_word(ipt@);
            let a = arg1(ipt@);
            &&& w == "quit"@ ==> (r matches UserInput::Send(Msg::Logout(s)) && s@ == a)
            &&& w == "name"@ ==> (r matches UserInput::Send(Msg::Name(s)) && s@ == a)
            &&& w == "join"@ ==> (r matches UserInput::Send(Msg::Join(s)) && s@ == a)
            &&& w == "block"@ ==> (r matches UserInput::Send(Msg::Block(s)) && s@ == a)
            &&& w == "unblock"@ ==> (r matches UserInput::Send(Msg::Unblock(s)) && s@ == a)
            &&& (w == "who"@ || w == "rooms"@) ==> (r matches UserInput::Send(
                Msg::Query { what, arg },
            ) && what@ == w && arg@ == a)
        },
{
    if ipt.len() == 0 || ipt[0] != cmd_char {
        let lines = split_lines(ipt);
        return UserInput::Send(Msg::Text { who: String::new(), lines });
    }
    if ipt.len() == 1 {
        return UserInput::Nothing;
    }
    let mut line = String::new();
    let mut i: usize = 1;
    while i < ipt.len()
        invariant
            1 <= i <= ipt@.len(),
            line@ == command_line(ipt@.take(i as int)),
        decreases ipt@.len() - i,
    {
        let c = if ipt[i] == '\n' {
            ' '
        } else {
            ipt[i]
        };
        push_char(&mut line, c);
        assert(command_line(ipt@.take(i + 1)) =~= line@);
        i = i + 1;
    }
    assert(ipt@.take(i as int) =~= ipt@);
    let toks = tokenize_the_whitespace_too(line.as_str());
    proof {
        lemma_tokens_nonempty(line@);
    }
    let cmd = lowercase(toks[0].as_str());
    proof {
        reveal_strlit("quit");
        reveal_strlit("name");
        reveal_strlit("join");
        reveal_strlit("block");
        reveal_strlit("unblock");
        reveal_strlit("who");
        reveal_strlit("rooms");
        reveal_strlit("priv");
        reveal_strlit("op");
        assert("quit"@.len() == 4 && "quit"@[0] == 'q');
        assert("name"@.len() == 4 && "name"@[0] == 'n');
        assert("join"@.len() == 4 && "join"@[0] == 'j');
        assert("priv"@.len() == 4 && "priv"@[0] == 'p');
        assert("block"@.len() == 5 && "block"@[0] == 'b');
        assert("rooms"@.len() == 5 && "rooms"@[0] == 'r');
        assert("unblock"@.len() == 7);
        assert("who"@.len() == 3);
        assert("op"@.len() == 2);
    }
    let one = split_command_toks(&toks, 1);
    let arg = match one {
        Ok((_, a)) => a,
        Err(_) => String::new(),
    };
    if str_eq(cmd.as_str(), "quit") {
        UserInput::Send(Msg::Logout(arg))
    } else if str_eq(cmd.as_str(), "name") {
        UserInput::Send(Msg::Name(arg))
    } else if str_eq(cmd.as_str(), "join") {
        UserInput::Send(Msg::Join(arg))
    } else if str_eq(cmd.as_str(), "block") {
        UserInput::Send(Msg::Block(arg))
    } else if str_eq(cmd.as_str(), "unblock") {
        UserInput::Send(Msg::Unblock(arg))
    } else if str_eq(cmd.as_str(), "who") || str_eq(cmd.as_str(), "rooms") {
        UserInput::Send(Msg::Query { what: cmd, arg })
    } else if str_eq(cmd.as_str(), "priv") {
        match split_command_toks(&toks, 2) {
            Ok((cmds, text)) => UserInput::Send(Msg::Priv { who: cmds[1].clone(), text }),
            Err(_) => UserInput::Notice(
                "# You must specify a recipient for a private message.".to_owned(),
            ),
        }
    } else if str_eq(cmd.as_str(), "op") {
        match split_command_toks(&toks, 2) {
            Ok((cmds, a)) => {
                let sub = lowercase(cmds[1].as_str());
                match op_sub(sub.as_str(), a) {
                    Some(op) => UserInput::Send(Msg::Op(op)),
                    None => UserInput::Notice(OP_ERROR.to_owned()),
                }
            },
            Err(_) => UserInput::Notice(OP_ERROR.to_owned()),
        }
    } else {
        let mut t = "# Unknown command ".to_owned();
        push_str(&mut t, cmd.as_str());
        UserInput::Notice(t)
    }
}

} // verus!
