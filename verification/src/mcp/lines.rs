//! Lines out of a stream of bytes.
use vstd::prelude::*;
use vstd::utf8::{decode_utf8, valid_utf8};

use crate::text::{text_trim, trim};
use crate::utf8::text_from_utf8;

verus! {

/// The most bytes that a line may have.
pub const MAX_LINE_LENGTH: usize = 1_048_576;

/// The bytes of a line that is not complete yet.
pub struct LineBuffer {
    pub bytes: Vec<u8>,
}

/// What a byte comes to.
pub enum LineStep {
    /// The line goes on.
    More,
    /// The line is complete: its text without the white space around it.
    Complete(String),
    /// The line is complete, and is white space alone: there is nothing to answer.
    Blank,
    /// The line has become too long.
    TooLong,
    /// The line is complete, and is no text.
    NotText,
}

impl LineBuffer {
    /// No bytes.
    pub fn new() -> (r: Self)
        ensures
            r.bytes@.len() == 0,
    {
        LineBuffer { bytes: Vec::new() }
    }

    /// Takes the next byte. A line ends at a line feed; the limit counts that
    /// too. What comes next belongs to a new line. However many bytes come, no
    /// more than the limit are held.
    pub fn push(&mut self, byte: u8) -> (r: LineStep)
        ensures
            ({
                let line = old(self).bytes@.push(byte);
                if old(self).bytes@.len() >= MAX_LINE_LENGTH {
                    r is TooLong && final(self).bytes@ == old(self).bytes@
                } else if byte != 10 {
                    r is More && final(self).bytes@ == line
                } else if valid_utf8(line) {
                    &&& if trim(decode_utf8(line)).len() == 0 {
                        r is Blank
                    } else {
                        r matches LineStep::Complete(s) && s@ == trim(decode_utf8(line))
                    }
                    &&& final(self).bytes@.len() == 0
                } else {
                    r is NotText && final(self).bytes@.len() == 0
                }
            }),
            old(self).bytes@.len() <= MAX_LINE_LENGTH ==> final(self).bytes@.len()
                <= MAX_LINE_LENGTH,
    {
        if self.bytes.len() >= MAX_LINE_LENGTH {
            return LineStep::TooLong;
        }
        self.bytes.push(byte);
        if byte != 10 {
            return LineStep::More;
        }
        let mut line: Vec<u8> = Vec::new();
        std::mem::swap(&mut self.bytes, &mut line);
        match text_from_utf8(line) {
            Some(s) => {
                let text = text_trim(s.as_str());
                if text.as_str().is_empty() {
                    LineStep::Blank
                } else {
                    LineStep::Complete(text)
                }
            },
            None => LineStep::NotText,
        }
    }
}

} // verus!
