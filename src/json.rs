//! The byte-level JSON encoding used on the wire: string tokens, lists of
//! strings and small objects. Everything the protocol sends is built from
//! these pieces.

use vstd::prelude::*;

verus! {

pub const QUOTE: u8 = 0x22;
pub const BACKSLASH: u8 = 0x5c;
pub const COLON: u8 = 0x3a;
pub const COMMA: u8 = 0x2c;
pub const LBRACE: u8 = 0x7b;
pub const RBRACE: u8 = 0x7d;
pub const LBRACKET: u8 = 0x5b;
pub const RBRACKET: u8 = 0x5d;

/// Lower-case hexadecimal digit of a value below 16.
pub open spec fn hex_digit(n: u8) -> u8 {
    if n < 10 {
        (0x30 + n) as u8
    } else {
        (0x61 + n - 10) as u8
    }
}

/// How one byte of UTF-8 text stands inside a JSON string token.
pub open spec fn escape_byte(b: u8) -> Seq<u8> {
    if b == QUOTE {
        seq![BACKSLASH, QUOTE]
    } else if b == BACKSLASH {
        seq![BACKSLASH, BACKSLASH]
    } else if b == 0x0a {
        seq![BACKSLASH, 0x6eu8]
    } else if b == 0x0d {
        seq![BACKSLASH, 0x72u8]
    } else if b == 0x09 {
        seq![BACKSLASH, 0x74u8]
    } else if b == 0x08 {
        seq![BACKSLASH, 0x62u8]
    } else if b == 0x0c {
        seq![BACKSLASH, 0x66u8]
    } else if b < 0x20 {
        seq![BACKSLASH, 0x75u8, 0x30u8, 0x30u8, hex_digit(b / 16), hex_digit(b % 16)]
    } else {
        seq![b]
    }
}

pub open spec fn escape_bytes(s: Seq<u8>) -> Seq<u8>
    decreases s.len(),
{
    if s.len() == 0 {
        Seq::empty()
    } else {
        escape_bytes(s.drop_last()) + escape_byte(s.last())
    }
}

/// The JSON string token for a text.
pub open spec fn json_str(s: Seq<char>) -> Seq<u8> {
    seq![QUOTE] + escape_bytes(vstd::utf8::encode_utf8(s)) + seq![QUOTE]
}

/// The comma-separated string tokens of a list, without brackets.
pub open spec fn json_items(ss: Seq<Seq<char>>) -> Seq<u8>
    decreases ss.len(),
{
    if ss.len() == 0 {
        Seq::empty()
    } else if ss.len() == 1 {
        json_str(ss[0])
    } else {
        json_items(ss.drop_last()) + seq![COMMA] + json_str(ss.last())
    }
}

/// A JSON array of strings.
pub open spec fn json_list(ss: Seq<Seq<char>>) -> Seq<u8> {
    seq![LBRACKET] + json_items(ss) + seq![RBRACKET]
}

/// `"key":value`
pub open spec fn json_field(k: Seq<char>, v: Seq<u8>) -> Seq<u8> {
    json_str(k) + seq![COLON] + v
}

/// An object with one field.
pub open spec fn json_obj1(k: Seq<char>, v: Seq<u8>) -> Seq<u8> {
    seq![LBRACE] + json_field(k, v) + seq![RBRACE]
}

/// An object with two fields, in this order.
pub open spec fn json_obj2(k1: Seq<char>, v1: Seq<u8>, k2: Seq<char>, v2: Seq<u8>) -> Seq<u8> {
    seq![LBRACE] + json_field(k1, v1) + seq![COMMA] + json_field(k2, v2) + seq![RBRACE]
}

/// An object with three fields, in this order.
pub open spec fn json_obj3(
    k1: Seq<char>,
    v1: Seq<u8>,
    k2: Seq<char>,
    v2: Seq<u8>,
    k3: Seq<char>,
    v3: Seq<u8>,
) -> Seq<u8> {
    seq![LBRACE] + json_field(k1, v1) + seq![COMMA] + json_field(k2, v2) + seq![COMMA]
        + json_field(k3, v3) + seq![RBRACE]
}

pub open spec fn str_views(ss: Seq<&str>) -> Seq<Seq<char>> {
    ss.map_values(|s: &str| s@)
}

pub open spec fn string_views(ss: Seq<String>) -> Seq<Seq<char>> {
    ss.map_values(|s: String| s@)
}

fn hex_digit_exec(n: u8) -> (r: u8)
    requires
        n < 16,
    ensures
        r == hex_digit(n),
{
    if n < 10 {
        0x30 + n
    } else {
        0x61 + n - 10
    }
}

fn push_escaped_byte(out: &mut Vec<u8>, b: u8)
    ensures
        final(out)@ == old(out)@ + escape_byte(b),
{
    if b == QUOTE {
        out.push(BACKSLASH);
        out.push(QUOTE);
    } else if b == BACKSLASH {
        out.push(BACKSLASH);
        out.push(BACKSLASH);
    } else if b == 0x0a {
        out.push(BACKSLASH);
        out.push(0x6e);
    } else if b == 0x0d {
        out.push(BACKSLASH);
        out.push(0x72);
    } else if b == 0x09 {
        out.push(BACKSLASH);
        out.push(0x74);
    } else if b == 0x08 {
        out.push(BACKSLASH);
        out.push(0x62);
    } else if b == 0x0c {
        out.push(BACKSLASH);
        out.push(0x66);
    } else if b < 0x20 {
        out.push(BACKSLASH);
        out.push(0x75);
        out.push(0x30);
        out.push(0x30);
        out.push(hex_digit_exec(b / 16));
        out.push(hex_digit_exec(b % 16));
    } else {
        out.push(b);
    }
    assert(final(out)@ =~= old(out)@ + escape_byte(b));
}

/// Appends the JSON string token for `s`.
pub fn push_json_str(out: &mut Vec<u8>, s: &str)
    ensures
        final(out)@ == old(out)@ + json_str(s@),
{
    out.push(QUOTE);
    let bytes = s.as_bytes();
    let ghost start = out@;
    let mut i: usize = 0;
    while i < bytes.len()
        invariant
            i <= bytes@.len(),
            bytes@ == vstd::utf8::encode_utf8(s@),
            start == old(out)@ + seq![QUOTE],
            out@ == start + escape_bytes(bytes@.take(i as int)),
        decreases bytes@.len() - i,
    {
        push_escaped_byte(out, bytes[i]);
        proof {
            assert(bytes@.take(i + 1).drop_last() =~= bytes@.take(i as int));
        }
        i = i + 1;
    }
    assert(bytes@.take(i as int) =~= bytes@);
    out.push(QUOTE);
    assert(final(out)@ =~= old(out)@ + json_str(s@));
}

/// Appends a JSON array holding the given texts.
pub fn push_json_list(out: &mut Vec<u8>, ss: &[&str])
    ensures
        final(out)@ == old(out)@ + json_list(str_views(ss@)),
{
    out.push(LBRACKET);
    let ghost start = out@;
    let mut i: usize = 0;
    while i < ss.len()
        invariant
            i <= ss@.len(),
            start == old(out)@ + seq![LBRACKET],
            out@ == start + json_items(str_views(ss@.take(i as int))),
        decreases ss@.len() - i,
    {
        if i > 0 {
            out.push(COMMA);
        }
        push_json_str(out, ss[i]);
        proof {
            let a = str_views(ss@.take(i + 1));
            assert(a.drop_last() =~= str_views(ss@.take(i as int)));
            assert(a.last() == ss@[i as int]@);
            if i == 0 {
                assert(out@ =~= start + json_items(a));
            } else {
                assert(out@ =~= start + json_items(a));
            }
        }
        i = i + 1;
    }
    assert(ss@.take(i as int) =~= ss@);
    out.push(RBRACKET);
    assert(final(out)@ =~= old(out)@ + json_list(str_views(ss@)));
}

/// Appends `"key":`, the start of a field.
pub fn push_key(out: &mut Vec<u8>, k: &str)
    ensures
        final(out)@ == old(out)@ + json_str(k@) + seq![COLON],
{
    push_json_str(out, k);
    out.push(COLON);
}

} // verus!
