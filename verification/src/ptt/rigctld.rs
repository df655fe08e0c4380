//! `rigctld`, Hamlib's rig-control daemon: what is said to it and what it answers.
//!
//! The protocol is a line at a time: `T 1` to key, `T 0` to release, and a reply of
//! `RPRT <code>` where zero means it worked; `f` asks the frequency, which comes back as one
//! line in hertz, and `F <hz>` sets it.
use vstd::prelude::*;

use crate::ptt::PttError;
use crate::text::{
    begins, cat, chars_of, digits, parse_unsigned, quote, quoted, same, starts_with, text_of, trim, trimmed,
    unsigned_in, whole,
};

verus! {

/// The line that keys the radio, or releases it.
pub fn key_line(keyed: bool) -> (r: &'static str)
    ensures
        r@ == if keyed { "T 1\n"@ } else { "T 0\n"@ },
{
    if keyed { "T 1\n" } else { "T 0\n" }
}

/// The line that tunes the radio.
pub fn tune_line(hz: u64) -> (r: String)
    ensures
        r@ == "F "@ + digits(hz as nat) + "\n"@,
{
    let mut s = cat("F ", &whole(hz as u128));
    s.append("\n");
    s
}

/// What a command came to: the reply `RPRT 0` is success; anything else is the rig or the
/// daemon saying no.
pub fn command_outcome(reply: &str) -> (r: Result<(), PttError>)
    ensures
        ({
            let line = trimmed(reply@);
            if begins(line, "RPRT "@) {
                let code = line.subrange("RPRT "@.len() as int, line.len() as int);
                if code == "0"@ {
                    r is Ok
                } else {
                    r matches Err(PttError::Backend(m)) && m@ == "rigctld returned "@ + code
                }
            } else {
                r matches Err(PttError::Backend(m)) && m@ == "unexpected reply "@ + quoted(line)
            }
        }),
{
    let line = trim(reply);
    if starts_with(&line, "RPRT ") {
        let chars = chars_of(&line);
        let from: usize = "RPRT ".unicode_len();
        let code = text_of(&chars, from, chars.len());
        if same(&code, "0") {
            Ok(())
        } else {
            Err(PttError::Backend(cat("rigctld returned ", &code)))
        }
    } else {
        Err(PttError::Backend(cat("unexpected reply ", &quote(&line))))
    }
}

/// What a question came to: the reply itself, unless it is a refusal.
pub fn query_outcome(reply: &str) -> (r: Result<String, PttError>)
    ensures
        if begins(trimmed(reply@), "RPRT"@) {
            r matches Err(PttError::Backend(m)) && m@ == "rigctld said "@ + trimmed(reply@)
        } else {
            r matches Ok(s) && s@ == reply@
        },
{
    let line = trim(reply);
    if starts_with(&line, "RPRT") {
        Err(PttError::Backend(cat("rigctld said ", &line)))
    } else {
        Ok(reply.to_owned())
    }
}

/// The frequency in hertz a reply gives, if it gives one.
pub fn frequency_in(reply: &str) -> (r: Option<u64>)
    ensures
        r == unsigned_in(trimmed(reply@)),
{
    let line = trim(reply);
    parse_unsigned(&line)
}

} // verus!
