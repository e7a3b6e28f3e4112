//! Reading a process id out of what a process-lookup command printed.
use vstd::prelude::*;
use vstd::utf8::{decode_utf8, valid_utf8};

use crate::environ::find_from;
use crate::text::utf8_decode;

verus! {

/// Why no process id could be read from a lookup command's output.
#[derive(Debug, Clone, Copy, PartialEq, Eq)]
pub enum PidOutputError {
    /// The output is not valid UTF-8.
    NotText,
    /// The output is empty.
    NoOutput,
    /// The first line is not a number that fits a process id.
    NotNumber,
}

pub open spec fn is_digit(c: char) -> bool {
    '0' <= c <= '9'
}

/// The value of a run of decimal digits.
pub open spec fn digits_value(s: Seq<char>) -> int
    decreases s.len(),
{
    if s.len() == 0 {
        0
    } else {
        digits_value(s.drop_last()) * 10 + ((s.last() as u32) as int - 48)
    }
}

/// The `i32` that `s` writes: an optional `+` or `-`, then one or more
/// decimal digits, with a value in range; nothing for any other text.
pub open spec fn i32_text_value(s: Seq<char>) -> Option<i32> {
    let neg = s.len() > 0 && s[0] == '-';
    let d = if s.len() > 0 && (s[0] == '-' || s[0] == '+') { s.skip(1) } else { s };
    let v = if neg { -digits_value(d) } else { digits_value(d) };
    if d.len() == 0 || !(forall|i: int| 0 <= i < d.len() ==> is_digit(#[trigger] d[i])) {
        None
    } else if i32::MIN <= v <= i32::MAX {
        Some(v as i32)
    } else {
        None
    }
}

/// The first line of `b`: the bytes before the first newline, less a
/// carriage return just before it.
pub open spec fn first_line(b: Seq<u8>) -> Seq<u8> {
    let e = find_from(b, 0, 10u8);
    if e < b.len() && e > 0 && b[e - 1] == 13u8 {
        b.take(e - 1)
    } else {
        b.take(e)
    }
}

/// The process id that a lookup command's output `b` gives on its first line.
pub open spec fn pid_output_spec(b: Seq<u8>) -> Result<i32, PidOutputError> {
    if !valid_utf8(b) {
        Err(PidOutputError::NotText)
    } else if b.len() == 0 {
        Err(PidOutputError::NoOutput)
    } else if !valid_utf8(first_line(b)) {
        Err(PidOutputError::NotText)
    } else {
        match i32_text_value(decode_utf8(first_line(b))) {
            Some(n) => Ok(n),
            None => Err(PidOutputError::NotNumber),
        }
    }
}

/// Relies on `str::parse::<i32>`, which accepts an optional sign followed by
/// decimal digits whose value fits, and nothing else.
#[verifier::external_body]
fn parse_i32(s: &str) -> (r: Option<i32>)
    ensures
        r == i32_text_value(s@),
{
    s.parse::<i32>().ok()
}

/// Reads the process id on the first line of a lookup command's output.
pub fn parse_pid_output(out: Vec<u8>) -> (r: Result<i32, PidOutputError>)
    ensures
        r == pid_output_spec(out@),
{
    let whole = out.clone();
    if utf8_decode(whole).is_err() {
        return Err(PidOutputError::NotText);
    }
    if out.len() == 0 {
        return Err(PidOutputError::NoOutput);
    }
    let mut e: usize = 0;
    while e < out.len() && out[e] != 10u8
        invariant
            e <= out@.len(),
            find_from(out@, 0, 10u8) == find_from(out@, e as int, 10u8),
        decreases out@.len() - e,
    {
        e += 1;
    }
    let end: usize = if e < out.len() && e > 0 && out[e - 1] == 13u8 { e - 1 } else { e };
    let mut line = out;
    line.truncate(end);
    match utf8_decode(line) {
        Err(_) => Err(PidOutputError::NotText),
        Ok(text) => match parse_i32(text.as_str()) {
            Some(n) => Ok(n),
            None => Err(PidOutputError::NotNumber),
        },
    }
}

} // verus!
