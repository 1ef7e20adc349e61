//! The tool that finds files.
use vstd::prelude::*;

use crate::json::{no_items, no_members, Json, JsonView};
use crate::text::{
    contains, join, lemma_one_line, lines, taken_lines_are_no_more, text_contains, text_join,
    text_lines, views,
};
use crate::tools::schema::{argument, argument_json, object_schema, object_schema_json};

verus! {

/// What the model is told of the tool.
pub const FILE_FIND_DESCRIPTION: &'static str =
    "Find files by name pattern. Supports glob patterns like '*.rs' or '**/test*'. Max 50 results.";

/// Finds files by name, with `git ls-files`.
pub struct FileFind;

/// The most files that are listed.
pub const MAX_FOUND_FILES: usize = 50;

/// The arguments of `git` that find files; nothing where there is no name.
pub open spec fn find_arguments(args: JsonView) -> Option<Seq<Seq<char>>> {
    match args.text_at("name"@) {
        Some(name) => Some(
            seq![
                "ls-files"@,
                "--cached"@,
                "--others"@,
                "--exclude-standard"@,
                if contains(name, "*"@) || contains(name, "?"@) {
                    "--glob"@
                } else {
                    "--"@
                },
                name,
            ],
        ),
        None => None,
    }
}

/// The first lines of what was found.
pub open spec fn listed(stdout: Seq<char>) -> Seq<Seq<char>> {
    let all = lines(stdout);
    if all.len() <= MAX_FOUND_FILES {
        all
    } else {
        all.take(MAX_FOUND_FILES as int)
    }
}

pub open spec fn file_find_schema() -> JsonView {
    object_schema(
        no_members().with(
            "name"@,
            argument("string"@, "File name or glob pattern to search for"@),
        ).with(
            "case_sensitive"@,
            argument("boolean"@, "Whether to match case"@).with("default"@, JsonView::Bool(false)),
        ),
        no_items().and(JsonView::Text("name"@)),
    )
}

impl FileFind {
    pub fn name(&self) -> (r: &'static str)
        ensures
            r@ == "file_find"@,
    {
        "file_find"
    }

    pub fn description(&self) -> (r: &'static str)
        ensures
            r@ == FILE_FIND_DESCRIPTION@,
    {
        FILE_FIND_DESCRIPTION
    }

    pub fn schema(&self) -> (r: Json)
        ensures
            r@ == file_find_schema(),
    {
        object_schema_json(
            Json::object().with(
                "name",
                argument_json("string", "File name or glob pattern to search for"),
            ).with(
                "case_sensitive",
                argument_json("boolean", "Whether to match case").with("default", Json::Bool(false)),
            ),
            Json::array().and(Json::text("name")),
        )
    }

    /// The arguments of `git` that find files.
    pub fn arguments(&self, args: &Json) -> (r: Result<Vec<String>, String>)
        ensures
            match r {
                Ok(a) => find_arguments(args@) == Some(views(a@)),
                Err(e) => find_arguments(args@) is None && e@ == "Missing 'name' argument"@,
            },
    {
        let name = match args.text_at("name") {
            Some(n) => n,
            None => {
                return Err("Missing 'name' argument".to_owned());
            },
        };
        let mut out: Vec<String> = Vec::new();
        out.push("ls-files".to_owned());
        out.push("--cached".to_owned());
        out.push("--others".to_owned());
        out.push("--exclude-standard".to_owned());
        if text_contains(name.as_str(), "*") || text_contains(name.as_str(), "?") {
            out.push("--glob".to_owned());
        } else {
            out.push("--".to_owned());
        }
        out.push(name.clone());
        assert(views(out@) =~= find_arguments(args@).unwrap());
        Ok(out)
    }

    /// What a search comes to, given how the command ended and what it wrote.
    pub fn outcome(&self, success: bool, stdout: &str, stderr: &str) -> (r: Result<String, String>)
        ensures
            if success {
                r matches Ok(s) && s@ == if lines(stdout@).len() == 0 {
                    "No matching files found."@
                } else {
                    join(listed(stdout@), "\n"@)
                }
            } else {
                r matches Err(e) && e@ == "git ls-files failed: "@ + stderr@
            },
            r matches Ok(s) ==> lines(s@).len() <= MAX_FOUND_FILES,
    {
        if success {
            let mut all = text_lines(stdout);
            assert(views(all@).len() == all@.len());
            if all.len() == 0 {
                proof {
                    reveal_strlit("No matching files found.");
                    lemma_one_line("No matching files found."@);
                }
                return Ok("No matching files found.".to_owned());
            }
            proof {
                let n = lines(stdout@).len() as int;
                let kept = if n <= MAX_FOUND_FILES {
                    n
                } else {
                    MAX_FOUND_FILES as int
                };
                taken_lines_are_no_more(stdout@, kept);
                assert(lines(stdout@).take(n) =~= lines(stdout@));
            }
            if all.len() > MAX_FOUND_FILES {
                let ghost before = views(all@);
                all.truncate(MAX_FOUND_FILES);
                assert(views(all@) =~= before.take(MAX_FOUND_FILES as int));
            }
            return Ok(text_join(&all, "\n"));
        }
        let mut e = "git ls-files failed: ".to_owned();
        e.push_str(stderr);
        Err(e)
    }
}

/// Files are looked for among those that are tracked and those that are not ignored, by
/// the name as a whole or, where it holds a wildcard, as a pattern; what is found is
/// listed in its order, up to so many files.
pub proof fn files_are_found_by_name(args: JsonView, name: Seq<char>, stdout: Seq<char>)
    requires
        args.text_at("name"@) == Some(name),
    ensures
        find_arguments(args) matches Some(out) && {
            &&& out.len() == 6
            &&& out.take(4) == seq!["ls-files"@, "--cached"@, "--others"@, "--exclude-standard"@]
            &&& out[5] == name
            &&& contains(name, "*"@) || contains(name, "?"@) ==> out[4] == "--glob"@
            &&& !contains(name, "*"@) && !contains(name, "?"@) ==> out[4] == "--"@
        },
        lines(stdout).len() <= 50 ==> listed(stdout) == lines(stdout),
        lines(stdout).len() > 50 ==> listed(stdout) == lines(stdout).take(50),
{
    let out = find_arguments(args).unwrap();
    assert(out.take(4) =~= seq!["ls-files"@, "--cached"@, "--others"@, "--exclude-standard"@]);
}

} // verus!
