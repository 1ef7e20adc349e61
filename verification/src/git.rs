//! Diffs of local repositories.
use vstd::prelude::*;
use vstd::utf8::{decode_utf8, valid_utf8};

use crate::utf8::text_from_utf8;

verus! {

/// The content of a line, or a word for one that is no text.
pub open spec fn line_content(content: Seq<u8>) -> Seq<char> {
    if valid_utf8(content) {
        decode_utf8(content)
    } else {
        "<binary>"@
    }
}

/// A line of a patch, given where it comes from: a line of the files with its
/// mark, a header as it is, and nothing for the mark of a missing line feed.
pub open spec fn patch_line(origin: char, content: Seq<u8>) -> Seq<char> {
    if origin == '+' || origin == '-' || origin == ' ' {
        seq![origin] + line_content(content)
    } else if origin == '\n' {
        ""@
    } else {
        line_content(content)
    }
}

/// Appends a line of a patch.
pub fn append_patch_line(out: &mut String, origin: char, content: Vec<u8>)
    ensures
        final(out)@ == old(out)@ + patch_line(origin, content@),
{
    let text = match text_from_utf8(content) {
        Some(s) => s,
        None => "<binary>".to_owned(),
    };
    if origin == '+' || origin == '-' || origin == ' ' {
        let ghost before = out@;
        out.push(origin);
        out.push_str(text.as_str());
        assert(out@ =~= before + (seq![origin] + text@));
    } else if origin == '\n' {
        proof {
            reveal_strlit("");
            assert(out@ + ""@ =~= out@);
        }
    } else {
        out.push_str(text.as_str());
    }
}

/// A line of the files keeps its mark in front, a header is taken as it is, and the mark
/// of a missing line feed leaves nothing.
pub proof fn patch_lines_keep_their_marks(origin: char, content: Seq<u8>)
    requires
        valid_utf8(content),
    ensures
        origin == '+' || origin == '-' || origin == ' ' ==> patch_line(origin, content) == seq![
            origin,
        ] + decode_utf8(content),
        origin == '\n' ==> patch_line(origin, content).len() == 0,
        origin != '+' && origin != '-' && origin != ' ' && origin != '\n' ==> patch_line(
            origin,
            content,
        ) == decode_utf8(content),
{
    reveal_strlit("");
}

} // verus!
