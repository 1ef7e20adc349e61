//! The tool that reads a file.
use vstd::prelude::*;

use crate::json::{no_items, no_members, Json, JsonView};
use crate::numeral::{decimal, decimal_of};
use crate::text::{
    contains, ends_with, join, lemma_views_push, lines, parts_are_contained, same, starts_with,
    text_ends_with, text_join, text_lines, text_starts_with, views,
};
use crate::tools::schema::{argument, argument_json, object_schema, object_schema_json};

verus! {

/// What the model is told of the tool.
pub const FILE_READ_DESCRIPTION: &'static str =
    "Read the content of a file from the filesystem. Specify path (relative to repo root). Optionally limit with start_line and end_line (1-based).";

/// Reads a file, or some of its lines.
pub struct FileRead;

/// A path is the directory or lies below it; both are absolute and resolved.
pub open spec fn is_inside(path: Seq<char>, dir: Seq<char>) -> bool {
    ||| path == dir
    ||| ends_with(dir, "/"@) && starts_with(path, dir)
    ||| starts_with(path, dir + "/"@)
}

/// The lines that are asked for, counted from zero, the second not among them:
/// from the first line on, and no further than the last.
pub open spec fn line_range(args: JsonView, total: nat) -> (nat, nat) {
    let start = match args.number_at("start_line"@) {
        Some(n) => if n == 0 {
            0
        } else {
            (n - 1) as nat
        },
        None => 0,
    };
    let end = match args.number_at("end_line"@) {
        Some(n) => if n < total {
            n as nat
        } else {
            total
        },
        None => total,
    };
    (start, end)
}

/// What the model is shown of a file.
pub open spec fn excerpt(path: Seq<char>, all: Seq<Seq<char>>, start: nat, end: nat) -> Seq<char> {
    "```\n"@ + path + ":\n"@ + join(all.subrange(start as int, end as int), "\n"@)
        + "\n```\n(Lines "@ + decimal(start + 1) + "-"@ + decimal(end) + " of "@ + decimal(all.len())
        + ")"@
}

pub open spec fn range_error(start: nat, end: nat, total: nat) -> Seq<char> {
    "Invalid line range "@ + decimal(start + 1) + ".."@ + decimal(end) + " (file has "@ + decimal(
        total,
    ) + " lines)"@
}

pub open spec fn file_read_schema() -> JsonView {
    object_schema(
        no_members().with(
            "path"@,
            argument("string"@, "Path to the file (relative to repo root)"@),
        ).with(
            "start_line"@,
            argument("integer"@, "First line to read (1-based, optional)"@),
        ).with("end_line"@, argument("integer"@, "Last line to read (1-based, optional)"@)),
        no_items().and(JsonView::Text("path"@)),
    )
}

impl FileRead {
    pub fn name(&self) -> (r: &'static str)
        ensures
            r@ == "file_read"@,
    {
        "file_read"
    }

    pub fn description(&self) -> (r: &'static str)
        ensures
            r@ == FILE_READ_DESCRIPTION@,
    {
        FILE_READ_DESCRIPTION
    }

    pub fn schema(&self) -> (r: Json)
        ensures
            r@ == file_read_schema(),
    {
        object_schema_json(
            Json::object().with(
                "path",
                argument_json("string", "Path to the file (relative to repo root)"),
            ).with(
                "start_line",
                argument_json("integer", "First line to read (1-based, optional)"),
            ).with("end_line", argument_json("integer", "Last line to read (1-based, optional)")),
            Json::array().and(Json::text("path")),
        )
    }

    /// The path that is asked for.
    pub fn path(&self, args: &Json) -> (r: Result<String, String>)
        ensures
            match r {
                Ok(p) => args@.text_at("path"@) == Some(p@),
                Err(e) => args@.text_at("path"@) is None && e@ == "Missing 'path' argument"@,
            },
    {
        match args.text_at("path") {
            Some(p) => Ok(p.clone()),
            None => Err("Missing 'path' argument".to_owned()),
        }
    }

    /// Rejects a path that leads out of the working directory, given both
    /// resolved.
    pub fn check_inside(&self, path: &str, resolved: &str, working_dir: &str) -> (r: Result<
        (),
        String,
    >)
        ensures
            match r {
                Ok(()) => is_inside(resolved@, working_dir@),
                Err(e) => !is_inside(resolved@, working_dir@) && e@ == "Path '"@ + path@
                    + "' is outside the working directory"@,
            },
    {
        let mut below = working_dir.to_owned();
        below.push_str("/");
        if same(resolved, working_dir) || (text_ends_with(working_dir, "/") && text_starts_with(
            resolved,
            working_dir,
        )) || text_starts_with(resolved, below.as_str()) {
            return Ok(());
        }
        let mut e = "Path '".to_owned();
        e.push_str(path);
        e.push_str("' is outside the working directory");
        Err(e)
    }

    /// What the model is shown of a file, or what is wrong with the lines that
    /// it asks for.
    pub fn read(&self, path: &str, content: &str, args: &Json) -> (r: Result<String, String>)
        ensures
            ({
                let all = lines(content@);
                let (start, end) = line_range(args@, all.len());
                if start >= all.len() || start >= end {
                    r matches Err(e) && e@ == range_error(start, end, all.len())
                } else {
                    r matches Ok(s) && s@ == excerpt(path@, all, start, end)
                }
            }),
    {
        let all = text_lines(content);
        let ghost v = views(all@);
        assert(v.len() == all@.len());
        let total: u64 = all.len() as u64;
        let start: u64 = match args.number_at("start_line") {
            Some(n) => if n == 0 {
                0
            } else {
                n - 1
            },
            None => 0,
        };
        let end: u64 = match args.number_at("end_line") {
            Some(n) => if n < total {
                n
            } else {
                total
            },
            None => total,
        };
        if start >= total || start >= end {
            let mut e = "Invalid line range ".to_owned();
            e.push_str(decimal_of(start + 1).as_str());
            e.push_str("..");
            e.push_str(decimal_of(end).as_str());
            e.push_str(" (file has ");
            e.push_str(decimal_of(total).as_str());
            e.push_str(" lines)");
            return Err(e);
        }
        let mut shown: Vec<String> = Vec::new();
        let mut i: usize = start as usize;
        assert(views(shown@) =~= v.subrange(start as int, i as int));
        while i < end as usize
            invariant
                start <= i <= end,
                end <= all@.len(),
                v == views(all@),
                views(shown@) == v.subrange(start as int, i as int),
            decreases end - i,
        {
            proof {
                lemma_views_push(shown@, all@[i as int]);
                assert(v.subrange(start as int, i + 1) =~= v.subrange(start as int, i as int).push(
                    v[i as int],
                ));
            }
            shown.push(all[i].clone());
            i += 1;
        }
        let mut s = "```\n".to_owned();
        s.push_str(path);
        s.push_str(":\n");
        s.push_str(text_join(&shown, "\n").as_str());
        s.push_str("\n```\n(Lines ");
        s.push_str(decimal_of(start + 1).as_str());
        s.push_str("-");
        s.push_str(decimal_of(end).as_str());
        s.push_str(" of ");
        s.push_str(decimal_of(total).as_str());
        s.push_str(")");
        Ok(s)
    }
}

/// The lines from the first to the last that are asked for are those that are shown, and
/// without bounds it is all of them; a last line behind the end of the file is its end.
pub proof fn asked_lines_are_shown(args: JsonView, total: nat, first: u64, last: u64)
    ensures
        args.number_at("start_line"@) is None && args.number_at("end_line"@) is None
            ==> line_range(args, total) == (0nat, total),
        args.number_at("start_line"@) == Some(first) && first > 0 ==> line_range(args, total).0
            == first - 1,
        args.number_at("start_line"@) == Some(0u64) ==> line_range(args, total).0 == 0,
        args.number_at("start_line"@) is None ==> line_range(args, total).0 == 0,
        args.number_at("end_line"@) == Some(last) && last <= total ==> line_range(args, total).1
            == last,
        args.number_at("end_line"@) == Some(last) && last > total ==> line_range(args, total).1
            == total,
        args.number_at("end_line"@) is None ==> line_range(args, total).1 == total,
{
}

/// What is shown of a file names it, holds just the lines of the range, and says which
/// lines they are and of how many.
pub proof fn excerpts_hold_the_lines(
    path: Seq<char>,
    all: Seq<Seq<char>>,
    start: nat,
    end: nat,
)
    requires
        start <= end <= all.len(),
    ensures
        starts_with(excerpt(path, all, start, end), "```\n"@ + path + ":\n"@),
        contains(
            excerpt(path, all, start, end),
            join(all.subrange(start as int, end as int), "\n"@),
        ),
        ends_with(
            excerpt(path, all, start, end),
            "(Lines "@ + decimal(start + 1) + "-"@ + decimal(end) + " of "@ + decimal(all.len())
                + ")"@,
        ),
{
    reveal_strlit("\n```\n(Lines ");
    reveal_strlit("(Lines ");
    let x = excerpt(path, all, start, end);
    let front = "```\n"@ + path + ":\n"@;
    let body = join(all.subrange(start as int, end as int), "\n"@);
    let range = decimal(start + 1) + "-"@ + decimal(end) + " of "@ + decimal(all.len()) + ")"@;
    let note = "(Lines "@ + decimal(start + 1) + "-"@ + decimal(end) + " of "@ + decimal(all.len())
        + ")"@;
    assert(x =~= front + body + ("\n```\n(Lines "@ + range));
    parts_are_contained(front, body, "\n```\n(Lines "@ + range);
    assert(x.subrange(0, front.len() as int) =~= front);
    assert(note =~= "(Lines "@ + range);
    assert(x.subrange(x.len() - note.len(), x.len() as int) =~= note);
}

/// A path is inside a directory where it is the directory or goes on below it, and a
/// directory whose name only begins alike is another one.
pub proof fn paths_inside_go_on_below(dir: Seq<char>, rest: Seq<char>, path: Seq<char>)
    ensures
        is_inside(dir, dir),
        is_inside(dir + "/"@ + rest, dir),
        is_inside(path, dir) ==> starts_with(path, dir),
        is_inside(path, dir) && path != dir && dir.len() > 0 && dir.last() != '/' ==> path.len()
            > dir.len() && path[dir.len() as int] == '/',
{
    reveal_strlit("/");
    let below = dir + "/"@;
    assert((dir + "/"@ + rest).subrange(0, below.len() as int) =~= below);
    if is_inside(path, dir) {
        if path == dir {
            assert(path.subrange(0, dir.len() as int) =~= dir);
        } else if starts_with(path, below) {
            let front = path.subrange(0, below.len() as int);
            assert(path.subrange(0, dir.len() as int) =~= front.subrange(0, dir.len() as int));
            assert(front.subrange(0, dir.len() as int) =~= dir);
            assert(front[dir.len() as int] == path[dir.len() as int]);
        } else {
            assert(dir.subrange(dir.len() - 1, dir.len() as int)[0] == dir.last());
        }
    }
}

} // verus!
