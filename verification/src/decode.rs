//! Decoding a captured hex stream: reading the hex digits, choosing the
//! protocol decoder, and the text that reports what the decoder gave.

use vstd::prelude::*;

use crate::protobuf::type_path::join;
use crate::text::{push_char, push_str, str_eq};

verus! {

/// A hex digit: `0`-`9`, `a`-`f` or `A`-`F`.
pub open spec fn is_hex_digit(c: char) -> bool {
    ('0' <= c <= '9') || ('a' <= c <= 'f') || ('A' <= c <= 'F')
}

/// The value of a hex digit.
pub open spec fn hex_value(c: char) -> int {
    if '0' <= c <= '9' {
        c as int - '0' as int
    } else if 'a' <= c <= 'f' {
        c as int - 'a' as int + 10
    } else {
        c as int - 'A' as int + 10
    }
}

/// The bytes a hex stream denotes, two digits each, the first one the high
/// half; `None` for a text that is not an even number of hex digits. This is
/// what `hex::decode` gives for it, but for the kind of error.
pub open spec fn hex_bytes(s: Seq<char>) -> Option<Seq<u8>> {
    if s.len() % 2 == 0 && forall|i: int| 0 <= i < s.len() ==> is_hex_digit(#[trigger] s[i]) {
        Some(Seq::new((s.len() / 2) as nat, |k: int| (hex_value(s[2 * k]) * 16 + hex_value(s[2 * k + 1])) as u8))
    } else {
        None
    }
}

fn digit_value(c: char) -> (res: Option<u8>)
    ensures
        match res {
            Some(v) => is_hex_digit(c) && v == hex_value(c) && v < 16,
            None => !is_hex_digit(c),
        },
{
    if '0' <= c && c <= '9' {
        Some(((c as u32) - ('0' as u32)) as u8)
    } else if 'a' <= c && c <= 'f' {
        Some(((c as u32) - ('a' as u32) + 10) as u8)
    } else if 'A' <= c && c <= 'F' {
        Some(((c as u32) - ('A' as u32) + 10) as u8)
    } else {
        None
    }
}

/// The bytes of a hex stream, or `None` when it is not one.
pub fn decode_hex(input: &str) -> (res: Option<Vec<u8>>)
    ensures
        match res {
            Some(v) => hex_bytes(input@) == Some(v@),
            None => hex_bytes(input@) is None,
        },
{
    let cs = crate::text::chars_of(input);
    let n = cs.len();
    if n % 2 != 0 {
        return None;
    }
    let mut out: Vec<u8> = Vec::new();
    let mut k: usize = 0;
    while k < n / 2
        invariant
            cs@ == input@,
            n == cs@.len(),
            n % 2 == 0,
            k <= n / 2,
            out@.len() == k,
            forall|i: int| 0 <= i < 2 * k ==> is_hex_digit(#[trigger] input@[i]),
            forall|j: int| 0 <= j < k ==> #[trigger] out@[j] == (hex_value(input@[2 * j]) * 16 + hex_value(input@[2 * j + 1])) as u8,
        decreases n / 2 - k,
    {
        let hi = match digit_value(cs[2 * k]) {
            Some(v) => v,
            None => return None,
        };
        let lo = match digit_value(cs[2 * k + 1]) {
            Some(v) => v,
            None => return None,
        };
        let b: u8 = hi * 16 + lo;
        out.push(b);
        proof {
            assert forall|i: int| 0 <= i < 2 * (k + 1) implies is_hex_digit(#[trigger] input@[i]) by {
                if i == 2 * k {
                } else if i == 2 * k + 1 {
                }
            }
        }
        k = k + 1;
    }
    let ghost bytes = Seq::new((n / 2) as nat, |j: int| (hex_value(input@[2 * j]) * 16 + hex_value(input@[2 * j + 1])) as u8);
    assert(out@ =~= bytes);
    Some(out)
}

/// What a decode request comes to: the bytes to decode with a protocol, or
/// the reason nothing is decoded.
pub enum DecodeTarget {
    Connection(Vec<u8>),
    Game(Vec<u8>),
    InvalidHex,
    UnknownProtocol,
}

/// The target a request for `protocol` on the hex stream `input` comes
/// to: a stream that is not hex is refused first, then a protocol other
/// than `connection` and `game`.
pub fn decode_target(protocol: &str, input: &str) -> (res: DecodeTarget)
    ensures
        match hex_bytes(input@) {
            None => res is InvalidHex,
            Some(b) => if protocol@ == "connection"@ {
                res matches DecodeTarget::Connection(v) && v@ == b
            } else if protocol@ == "game"@ {
                res matches DecodeTarget::Game(v) && v@ == b
            } else {
                res is UnknownProtocol
            },
        },
{
    match decode_hex(input) {
        None => DecodeTarget::InvalidHex,
        Some(bytes) => {
            if str_eq(protocol, "connection") {
                DecodeTarget::Connection(bytes)
            } else if str_eq(protocol, "game") {
                DecodeTarget::Game(bytes)
            } else {
                DecodeTarget::UnknownProtocol
            }
        },
    }
}

/// The text of a refused request.
pub open spec fn refusal_text(t: DecodeTarget) -> Seq<char> {
    match t {
        DecodeTarget::InvalidHex => "Invalid hexstream"@,
        _ => "protocol dont exist"@,
    }
}

/// The text for a request that is not decoded: `Invalid hexstream`, or
/// `protocol dont exist`.
pub fn refusal(t: &DecodeTarget) -> (res: String)
    ensures
        res@ == refusal_text(*t),
{
    match t {
        DecodeTarget::InvalidHex => "Invalid hexstream".to_string(),
        _ => "protocol dont exist".to_string(),
    }
}

/// The line of one decoder result: the message, or `Error: ` and the error.
pub open spec fn result_line(r: Result<Seq<char>, Seq<char>>) -> Seq<char> {
    match r {
        Ok(m) => m,
        Err(e) => "Error: "@ + e,
    }
}

/// The views of decoder results.
pub open spec fn result_views(rs: Seq<Result<String, String>>) -> Seq<Result<Seq<char>, Seq<char>>> {
    rs.map_values(|r: Result<String, String>| match r {
        Ok(m) => Ok(m@),
        Err(e) => Err(e@),
    })
}

/// The report of the decoder results: one line each, joined by newlines.
pub fn decode_report(results: &Vec<Result<String, String>>) -> (res: String)
    ensures
        res@ == join(result_views(results@).map_values(|r: Result<Seq<char>, Seq<char>>| result_line(r)), "\n"@),
{
    let ghost lines = result_views(results@).map_values(|r: Result<Seq<char>, Seq<char>>| result_line(r));
    let mut out = String::new();
    let mut i: usize = 0;
    proof { reveal_strlit("Error: "); }
    assert(lines.take(0) =~= Seq::<Seq<char>>::empty());
    while i < results.len()
        invariant
            i <= results@.len(),
            lines == result_views(results@).map_values(|r: Result<Seq<char>, Seq<char>>| result_line(r)),
            lines.len() == results@.len(),
            out@ == join(lines.take(i as int), "\n"@),
        decreases results@.len() - i,
    {
        let ghost before = out@;
        if i > 0 {
            push_char(&mut out, '\n');
        }
        match &results[i] {
            Ok(m) => push_str(&mut out, m.as_str()),
            Err(e) => {
                push_str(&mut out, "Error: ");
                push_str(&mut out, e.as_str());
            },
        }
        proof {
            assert(lines[i as int] == result_line(result_views(results@)[i as int]));
            assert(lines.take(i + 1).drop_last() =~= lines.take(i as int));
            assert(lines.take(i + 1).last() == lines[i as int]);
            if i == 0 {
                assert(out@ =~= lines[0]);
            } else {
                reveal_strlit("\n");
                assert(out@ =~= before + "\n"@ + lines[i as int]);
            }
        }
        i = i + 1;
    }
    assert(lines.take(i as int) =~= lines);
    out
}

} // verus!
