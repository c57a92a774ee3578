//! Log line formatting.

use vstd::prelude::*;
use crate::util::format::push_bytes;

verus! {

/// Log severity.
#[derive(Clone, Copy, Debug, PartialEq, Eq, Structural)]
pub enum Level {
    Info,
    Warn,
    Error,
}

/// The severity's tag.
pub open spec fn level_tag(level: Level) -> Seq<u8> {
    match level {
        Level::Info => seq![73u8, 78, 70, 79],
        Level::Warn => seq![87u8, 65, 82, 78],
        Level::Error => seq![69u8, 82, 82, 79, 82],
    }
}

/// Capacity of the line buffer.
pub const LOG_LINE_CAP: usize = 192;

/// `LOG [<level>] {<category>} <message>\r\n`.
pub open spec fn log_line_spec(level: Level, category: Seq<u8>, message: Seq<u8>) -> Seq<u8> {
    seq![76u8, 79, 71, 32, 91] + level_tag(level) + seq![93u8, 32, 123] + category + seq![125u8, 32]
        + message + seq![13u8, 10]
}

/// Format one log line. The line must fit the 192-byte line buffer.
pub fn log_line(level: Level, category: &[u8], message: &[u8]) -> (r: Vec<u8>)
    requires
        log_line_spec(level, category@, message@).len() <= LOG_LINE_CAP,
    ensures
        r@ == log_line_spec(level, category@, message@),
{
    let mut out: Vec<u8> = Vec::new();
    push_bytes(&mut out, &[76u8, 79, 71, 32, 91]);
    match level {
        Level::Info => push_bytes(&mut out, &[73u8, 78, 70, 79]),
        Level::Warn => push_bytes(&mut out, &[87u8, 65, 82, 78]),
        Level::Error => push_bytes(&mut out, &[69u8, 82, 82, 79, 82]),
    }
    push_bytes(&mut out, &[93u8, 32, 123]);
    push_bytes(&mut out, category);
    push_bytes(&mut out, &[125u8, 32]);
    push_bytes(&mut out, message);
    push_bytes(&mut out, &[13u8, 10]);
    assert(out@ =~= log_line_spec(level, category@, message@));
    out
}

} // verus!
