use grel::command::{parse_input, split_command_toks, split_lines, tokenize_the_whitespace_too, UserInput};
use grel::proto2::{Msg, Op};

fn chars(s: &str) -> Vec<char> {
    s.chars().collect()
}

#[test]
fn tokens_alternate() {
    assert_eq!(tokenize_the_whitespace_too("priv  bob hi there"), vec!["priv", "  ", "bob", " ", "hi", " ", "there"]);
    assert_eq!(tokenize_the_whitespace_too("  x"), vec!["  ", "x"]);
    assert!(tokenize_the_whitespace_too("").is_empty());
}

#[test]
fn split_commands_and_argument() {
    let toks: Vec<String> = tokenize_the_whitespace_too("op kick  Some Guy").into_iter().collect();
    let (cmds, arg) = split_command_toks(&toks, 2).ok().unwrap();
    assert_eq!(cmds, vec!["op", "kick"]);
    assert_eq!(arg, "Some Guy");
    assert!(split_command_toks(&toks, 0).is_err());
    let one = vec!["quit".to_string()];
    let (c, a) = split_command_toks(&one, 1).ok().unwrap();
    assert_eq!(c, vec!["quit"]);
    assert_eq!(a, "");
    assert!(split_command_toks(&one, 2).is_err());
}

#[test]
fn lines_split_at_newlines() {
    assert_eq!(split_lines(&chars("a\nb\n")), vec!["a", "b", ""]);
    assert_eq!(split_lines(&chars("")), vec![""]);
}

#[test]
fn typed_lines_become_messages() {
    match parse_input(&chars("hello\nworld"), ';') {
        UserInput::Send(Msg::Text { who, lines }) => {
            assert_eq!(who, "");
            assert_eq!(lines, vec!["hello", "world"]);
        }
        _ => panic!("expected text"),
    }
    assert!(matches!(parse_input(&chars(";"), ';'), UserInput::Nothing));
    assert!(matches!(parse_input(&chars(";QUIT see ya"), ';'), UserInput::Send(Msg::Logout(s)) if s == "see ya"));
    assert!(matches!(parse_input(&chars(";join Gay Space"), ';'), UserInput::Send(Msg::Join(s)) if s == "Gay Space"));
    assert!(matches!(parse_input(&chars(";priv naggum XML\nrules"), ';'),
        UserInput::Send(Msg::Priv { who, text }) if who == "naggum" && text == "XML rules"));
    assert!(matches!(parse_input(&chars(";who fi"), ';'),
        UserInput::Send(Msg::Query { what, arg }) if what == "who" && arg == "fi"));
    assert!(matches!(parse_input(&chars(";op ban FpS DoUg"), ';'),
        UserInput::Send(Msg::Op(Op::Kick(s))) if s == "FpS DoUg"));
    assert!(matches!(parse_input(&chars(";op close"), ';'), UserInput::Send(Msg::Op(Op::Close))));
    assert!(matches!(parse_input(&chars(";op dance"), ';'), UserInput::Notice(_)));
    assert!(matches!(parse_input(&chars(";priv"), ';'), UserInput::Notice(_)));
    assert!(matches!(parse_input(&chars(";frob x"), ';'), UserInput::Notice(s) if s == "# Unknown command frob"));
}
