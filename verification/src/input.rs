//! The input handler's logic: turning typed lines into commands.

use vstd::prelude::*;
use vstd::string::*;
use vstd::utf8::*;

use crate::ids::{io_id, IO_ID_LOBBY, IO_ID_OFFSET};
use crate::sessions::InputBase;
use crate::text::{
    append_range, chunk, header_bytes, law_cut_keeps_line_in_order, part_len, piece, interleaved, interleaved_upto, lemma_num_chunks, num_chunks,
    parse_u16, parse_u16_bytes, second_word, second_word_of, starts_with, str_eq,
    str_starts_with, USER_LINES,
};

verus! {

/// What a typed line asks of the input handler.
#[derive(Debug)]
pub enum InputCmd {
    Quit,
    Switch(u16),
    Sessions,
    Other(String),
}

pub enum InputCmdView {
    Quit,
    Switch(u16),
    Sessions,
    Other(Seq<char>),
}

impl View for InputCmd {
    type V = InputCmdView;

    open spec fn view(&self) -> InputCmdView {
        match self {
            InputCmd::Quit => InputCmdView::Quit,
            InputCmd::Switch(id) => InputCmdView::Switch(*id),
            InputCmd::Sessions => InputCmdView::Sessions,
            InputCmd::Other(s) => InputCmdView::Other(s@),
        }
    }
}

/// Whether a line is a switch command (`\switch n` or its shortcut `\sw n`).
pub open spec fn is_switch_line(line: Seq<char>) -> bool {
    starts_with(line, "\\switch"@) || starts_with(line, "\\sw"@)
}

/// The session number a switch command names: its second word read as a number, or 0
/// when that word is not one.
pub open spec fn switch_number(w: Seq<u8>) -> u16 {
    match parse_u16(w) {
        Some(v) => v,
        None => 0,
    }
}

/// Whether a line can be read without the io id of its session number overflowing (a
/// switch to a session number above 64535 cannot be represented).
pub open spec fn cmdline_in_range(line: Seq<char>) -> bool {
    (line != "\\lobby"@ && line != "\\lob"@ && line != "\\sessions"@ && line != "\\ss"@
        && is_switch_line(line)) ==> match second_word(encode_utf8(line)) {
        Some(w) => switch_number(w) + IO_ID_OFFSET <= u16::MAX,
        None => true,
    }
}

/// The command a typed line stands for. A switch command without a session number
/// stands for nothing.
pub open spec fn cmdline_command(line: Seq<char>) -> Option<InputCmdView> {
    if line == "\\lobby"@ || line == "\\lob"@ {
        Some(InputCmdView::Switch(IO_ID_LOBBY))
    } else if line == "\\sessions"@ || line == "\\ss"@ {
        Some(InputCmdView::Sessions)
    } else if is_switch_line(line) {
        match second_word(encode_utf8(line)) {
            Some(w) => Some(InputCmdView::Switch((switch_number(w) + IO_ID_OFFSET) as u16)),
            None => None,
        }
    } else if line == "\\quit"@ {
        Some(InputCmdView::Quit)
    } else {
        Some(InputCmdView::Other(line))
    }
}

/// Reads a typed line as an input command.
pub fn parse_cmdline_input(line: String) -> (cmd: Option<InputCmd>)
    requires
        cmdline_in_range(line@),
    ensures
        match cmdline_command(line@) {
            Some(c) => cmd matches Some(x) && x@ == c,
            None => cmd is None,
        },
{
    if str_eq(line.as_str(), "\\lobby") || str_eq(line.as_str(), "\\lob") {
        Some(InputCmd::Switch(IO_ID_LOBBY))
    } else if str_eq(line.as_str(), "\\sessions") || str_eq(line.as_str(), "\\ss") {
        Some(InputCmd::Sessions)
    } else if str_starts_with(line.as_str(), "\\switch") || str_starts_with(line.as_str(), "\\sw") {
        match second_word_of(line.as_str().as_bytes()) {
            Some(w) => {
                let n = match parse_u16_bytes(w.as_slice()) {
                    Some(v) => v,
                    None => 0,
                };
                Some(InputCmd::Switch(io_id(n)))
            },
            None => None,
        }
    } else if str_eq(line.as_str(), "\\quit") {
        Some(InputCmd::Quit)
    } else {
        Some(InputCmd::Other(line))
    }
}

/// Whether a typed line can be read by [`parse_cmdline_input`].
pub fn cmdline_input_in_range(line: &String) -> (ok: bool)
    ensures
        ok == cmdline_in_range(line@),
{
    if str_eq(line.as_str(), "\\lobby") || str_eq(line.as_str(), "\\lob") || str_eq(
        line.as_str(),
        "\\sessions",
    ) || str_eq(line.as_str(), "\\ss") {
        return true;
    }
    if !(str_starts_with(line.as_str(), "\\switch") || str_starts_with(line.as_str(), "\\sw")) {
        return true;
    }
    match second_word_of(line.as_str().as_bytes()) {
        Some(w) => {
            let n = match parse_u16_bytes(w.as_slice()) {
                Some(v) => v,
                None => 0,
            };
            n <= u16::MAX - IO_ID_OFFSET
        },
        None => true,
    }
}

/// The error a reader gets when no more lines will come.
#[derive(Debug, PartialEq, Eq)]
pub enum ReaderError {
    NoNewLines,
}

/// Reading typed input on behalf of one session.
pub struct InputReader;

impl InputReader {
    /// Cuts the UTF-8 bytes of `line` into pieces of at most 64 bytes, puts `header` (if any)
    /// before each piece and a newline after it, and joins the pieces.
    pub fn interleave_newlines(line: &str, header: Option<Vec<u8>>) -> (out: Vec<u8>)
        ensures
            out@ == interleaved(line.spec_bytes(), header_bytes(header)),
            out@.len() == num_chunks(line.spec_bytes().len()) * (header_bytes(header).len() + 1)
                + line.spec_bytes().len(),
            forall|j: int|
                0 <= j < num_chunks(line.spec_bytes().len()) ==> #[trigger] piece(
                    out@,
                    header_bytes(header).len(),
                    line.spec_bytes().len(),
                    j,
                ) == header_bytes(header) + line.spec_bytes().subrange(
                    64 * j,
                    64 * j + part_len(line.spec_bytes().len(), j),
                ) + seq![10u8],
    {
        proof {
            law_cut_keeps_line_in_order(line.spec_bytes(), header_bytes(header));
        }
        let bytes = line.as_bytes();
        let ghost b = bytes@;
        let ghost h = header_bytes(header);
        let n = bytes.len();
        let mut acc: Vec<u8> = Vec::new();
        let mut start: usize = 0;
        let ghost mut k: nat = 0;
        while start < n
            invariant
                b == line.spec_bytes(),
                b == bytes@,
                h == header_bytes(header),
                n == b.len(),
                start == (if 64 * k <= n { 64 * k as int } else { n as int }),
                start <= n,
                k <= num_chunks(n as nat),
                start < n <==> k < num_chunks(n as nat),
                acc@ == interleaved_upto(b, h, k),
            decreases n - start,
        {
            proof {
                lemma_num_chunks(n as nat, k);
                lemma_num_chunks(n as nat, k + 1);
            }
            let end: usize = if n - start >= USER_LINES { start + USER_LINES } else { n };
            match &header {
                Some(hv) => append_range(&mut acc, hv.as_slice(), 0, hv.len()),
                None => {},
            }
            append_range(&mut acc, bytes, start, end);
            acc.push(10u8);
            proof {
                assert(h.subrange(0, h.len() as int) =~= h);
                assert(acc@ =~= interleaved_upto(b, h, k) + h + chunk(b, k as int) + seq![10u8]);
                k = k + 1;
            }
            start = end;
        }
        acc
    }

    /// What a session's reader gets after being woken: with a new line announced for its
    /// own io id, the line typed if typed input still goes to it (nothing otherwise);
    /// nothing for a line announced for another session; an error when no more lines
    /// will come.
    pub fn read_outcome(new_line: bool, current_id: u16, watch_id: u16, base: &InputBase) -> (r: Result<Option<String>, ReaderError>)
        ensures
            match r {
                Ok(Some(line)) => new_line && current_id == watch_id && current_id == base@.current_id
                    && line@ == base@.line,
                Ok(None) => new_line && (current_id != watch_id || current_id != base@.current_id),
                Err(e) => !new_line && e == ReaderError::NoNewLines,
            },
    {
        if new_line {
            if current_id == watch_id {
                match base.get_line_if_id_matches(current_id) {
                    Some(line) => Ok(Some(line)),
                    None => Ok(None),
                }
            } else {
                Ok(None)
            }
        } else {
            Err(ReaderError::NoNewLines)
        }
    }
}

} // verus!
