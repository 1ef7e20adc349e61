//! The tool that searches the code.
use vstd::prelude::*;

use crate::json::{item_views, lemma_array_view, no_items, no_members, Json, JsonView};
use crate::text::{
    contains, join, lemma_one_line, lemma_views_push, lines, taken_lines_are_no_more,
    text_contains, text_join, text_lines, views,
};
use crate::tools::schema::{
    argument, argument_json, list_argument, list_argument_json, object_schema, object_schema_json,
};

verus! {

/// What the model is told of the tool.
pub const CODE_SEARCH_DESCRIPTION: &'static str =
    "Search the codebase for a text pattern using git grep. Returns matching file paths with line numbers and content snippets. Max 50 results.";

/// Searches the code for a pattern, with `git grep`.
pub struct CodeSearch;

/// The most lines that a search gives.
pub const MAX_SEARCH_RESULTS: usize = 50;

/// The first lines of what was found. `git grep` itself counts by file.
pub open spec fn first_results(stdout: Seq<char>) -> Seq<char> {
    if lines(stdout).len() <= MAX_SEARCH_RESULTS {
        stdout
    } else {
        join(lines(stdout).take(MAX_SEARCH_RESULTS as int), "\n"@)
    }
}

/// The texts among JSON values, each behind `--include`.
pub open spec fn include_arguments(items: Seq<JsonView>) -> Seq<Seq<char>>
    decreases items.len(),
{
    if items.len() == 0 {
        Seq::empty()
    } else {
        let front = include_arguments(items.drop_last());
        match items.last().as_str() {
            Some(p) => front.push("--include"@).push(p),
            None => front,
        }
    }
}

/// The arguments that the search begins with.
pub open spec fn search_options(args: JsonView) -> Seq<Seq<char>> {
    let start = seq!["grep"@, "--line-number"@, "--max-count"@, "50"@, "-I"@];
    let sensitive = match args.get("case_sensitive"@) {
        Some(v) => v.as_bool() == Some(true),
        None => false,
    };
    if sensitive {
        start
    } else {
        start.push("-i"@)
    }
}

/// The arguments of `git` for a search: the options, the files that are
/// searched, and the pattern; nothing where there is no pattern.
pub open spec fn search_arguments(args: JsonView) -> Option<Seq<Seq<char>>> {
    match args.text_at("pattern"@) {
        Some(pattern) => {
            let files = match args.get("file_patterns"@) {
                Some(JsonView::Array(items)) => include_arguments(items),
                _ => Seq::empty(),
            };
            Some((search_options(args) + files).push("--"@).push(pattern))
        },
        None => None,
    }
}

pub open spec fn code_search_schema() -> JsonView {
    object_schema(
        no_members().with("pattern"@, argument("string"@, "Search pattern (regex supported)"@)).with(
            "case_sensitive"@,
            argument("boolean"@, "Whether to match case"@).with("default"@, JsonView::Bool(false)),
        ).with(
            "file_patterns"@,
            list_argument("Only search files matching these globs (e.g. ['*.rs', '*.py'])"@),
        ),
        no_items().and(JsonView::Text("pattern"@)),
    )
}

impl CodeSearch {
    pub fn name(&self) -> (r: &'static str)
        ensures
            r@ == "code_search"@,
    {
        "code_search"
    }

    pub fn description(&self) -> (r: &'static str)
        ensures
            r@ == CODE_SEARCH_DESCRIPTION@,
    {
        CODE_SEARCH_DESCRIPTION
    }

    pub fn schema(&self) -> (r: Json)
        ensures
            r@ == code_search_schema(),
    {
        object_schema_json(
            Json::object().with(
                "pattern",
                argument_json("string", "Search pattern (regex supported)"),
            ).with(
                "case_sensitive",
                argument_json("boolean", "Whether to match case").with("default", Json::Bool(false)),
            ).with(
                "file_patterns",
                list_argument_json("Only search files matching these globs (e.g. ['*.rs', '*.py'])"),
            ),
            Json::array().and(Json::text("pattern")),
        )
    }

    /// The arguments of `git` for a search.
    pub fn arguments(&self, args: &Json) -> (r: Result<Vec<String>, String>)
        ensures
            match r {
                Ok(a) => search_arguments(args@) == Some(views(a@)),
                Err(e) => search_arguments(args@) is None && e@ == "Missing 'pattern' argument"@,
            },
    {
        let pattern = match args.text_at("pattern") {
            Some(p) => p,
            None => {
                return Err("Missing 'pattern' argument".to_owned());
            },
        };
        let mut out: Vec<String> = Vec::new();
        out.push("grep".to_owned());
        out.push("--line-number".to_owned());
        out.push("--max-count".to_owned());
        out.push("50".to_owned());
        out.push("-I".to_owned());
        assert(views(out@) =~= seq!["grep"@, "--line-number"@, "--max-count"@, "50"@, "-I"@]);
        let sensitive = match args.get("case_sensitive") {
            Some(v) => match v.as_bool() {
                Some(b) => b,
                None => false,
            },
            None => false,
        };
        if !sensitive {
            let option = "-i".to_owned();
            proof {
                lemma_views_push(out@, option);
            }
            out.push(option);
        }
        let ghost options = views(out@);
        assert(options == search_options(args@));
        let ghost mut files: Seq<Seq<char>> = Seq::empty();
        match args.get("file_patterns") {
            Some(Json::Array(items)) => {
                proof {
                    lemma_array_view(*items);
                }
                let ghost held = item_views(items@);
                let mut i: usize = 0;
                assert(options + include_arguments(held.take(0)) =~= options);
                while i < items.len()
                    invariant
                        i <= items@.len(),
                        held == item_views(items@),
                        views(out@) == options + include_arguments(held.take(i as int)),
                    decreases items@.len() - i,
                {
                    assert(held.take(i + 1).drop_last() =~= held.take(i as int));
                    assert(held.take(i + 1).last() == items@[i as int]@);
                    match items[i].as_str() {
                        Some(p) => {
                            let flag = "--include".to_owned();
                            let value = p.clone();
                            proof {
                                lemma_views_push(out@, flag);
                                lemma_views_push(out@.push(flag), value);
                                let front = include_arguments(held.take(i as int));
                                assert((options + front).push(flag@).push(value@) =~= options
                                    + front.push(flag@).push(value@));
                            }
                            out.push(flag);
                            out.push(value);
                        },
                        None => {},
                    }
                    i += 1;
                }
                proof {
                    assert(held.take(i as int) =~= held);
                    files = include_arguments(held);
                }
            },
            Some(_) => {
                assert(options + files =~= options);
            },
            None => {
                assert(options + files =~= options);
            },
        }
        let end = "--".to_owned();
        let last = pattern.clone();
        proof {
            lemma_views_push(out@, end);
            lemma_views_push(out@.push(end), last);
        }
        out.push(end);
        out.push(last);
        Ok(out)
    }

    /// What a search comes to, given how the command ended and what it wrote.
    pub fn outcome(&self, success: bool, code: Option<i32>, stdout: String, stderr: &str) -> (r:
        Result<String, String>)
        ensures
            if success {
                r matches Ok(s) && s@ == if stdout@.len() == 0 {
                    "No matches found."@
                } else {
                    first_results(stdout@)
                }
            } else if contains(stderr@, "fatal: not a git repository"@) {
                r matches Err(e) && e@
                    == "Not a git repository — code_search requires a git repo"@
            } else if code == Some(1i32) {
                r matches Ok(s) && s@ == "No matches found."@
            } else {
                r matches Err(e) && e@ == "git grep failed: "@ + stderr@
            },
            r matches Ok(s) ==> lines(s@).len() <= MAX_SEARCH_RESULTS,
    {
        proof {
            reveal_strlit("No matches found.");
            lemma_one_line("No matches found."@);
        }
        if success {
            if stdout.as_str().is_empty() {
                return Ok("No matches found.".to_owned());
            }
            let mut all = text_lines(stdout.as_str());
            assert(views(all@).len() == all@.len());
            if all.len() <= MAX_SEARCH_RESULTS {
                return Ok(stdout);
            }
            let ghost before = views(all@);
            all.truncate(MAX_SEARCH_RESULTS);
            proof {
                assert(views(all@) =~= before.take(MAX_SEARCH_RESULTS as int));
                taken_lines_are_no_more(stdout@, MAX_SEARCH_RESULTS as int);
            }
            return Ok(text_join(&all, "\n"));
        }
        if text_contains(stderr, "fatal: not a git repository") {
            return Err("Not a git repository — code_search requires a git repo".to_owned());
        }
        match code {
            Some(1) => Ok("No matches found.".to_owned()),
            _ => {
                let mut e = "git grep failed: ".to_owned();
                e.push_str(stderr);
                Err(e)
            },
        }
    }
}

/// The patterns of files are handed on one by one, each behind its option, in their
/// order.
pub proof fn file_patterns_are_handed_on(a: Seq<JsonView>, b: Seq<JsonView>, p: Seq<char>)
    ensures
        include_arguments(a + b) == include_arguments(a) + include_arguments(b),
        include_arguments(seq![JsonView::Text(p)]) == seq!["--include"@, p],
        include_arguments(Seq::empty()) == Seq::<Seq<char>>::empty(),
    decreases b.len(),
{
    reveal_with_fuel(include_arguments, 2);
    assert(seq![JsonView::Text(p)].drop_last() =~= Seq::<JsonView>::empty());
    assert(include_arguments(seq![JsonView::Text(p)]) =~= seq!["--include"@, p]);
    if b.len() == 0 {
        assert(a + b =~= a);
        assert(include_arguments(a) + include_arguments(b) =~= include_arguments(a));
    } else {
        file_patterns_are_handed_on(a, b.drop_last(), p);
        assert((a + b).drop_last() =~= a + b.drop_last());
        assert(include_arguments(a + b) =~= include_arguments(a) + include_arguments(b));
    }
}

/// The pattern that is searched for is the last argument, behind a mark that no option
/// follows; case is ignored unless it is to count; and the patterns of files stand
/// between.
pub proof fn searches_look_for_the_pattern(args: JsonView, pattern: Seq<char>)
    requires
        args.text_at("pattern"@) == Some(pattern),
    ensures
        search_arguments(args) matches Some(out) && {
            &&& out.len() >= 7
            &&& out[0] == "grep"@
            &&& out.last() == pattern
            &&& out[out.len() - 2] == "--"@
            &&& out.take(out.len() - 2).contains("-i"@) || args.get("case_sensitive"@) == Some(
                JsonView::Bool(true),
            )
            &&& args.get("case_sensitive"@) == Some(JsonView::Bool(true)) ==> out.take(5)
                == seq!["grep"@, "--line-number"@, "--max-count"@, "50"@, "-I"@] && (args.get(
                "file_patterns"@,
            ) matches Some(JsonView::Array(items)) ==> out == (out.take(5) + include_arguments(
                items,
            )).push("--"@).push(pattern))
            &&& args.get("case_sensitive"@) is None && args.get("file_patterns"@) is None ==> out
                == seq![
                "grep"@,
                "--line-number"@,
                "--max-count"@,
                "50"@,
                "-I"@,
                "-i"@,
                "--"@,
                pattern,
            ]
        },
{
    let out = search_arguments(args).unwrap();
    let start = seq!["grep"@, "--line-number"@, "--max-count"@, "50"@, "-I"@];
    let options = search_options(args);
    assert(out.take(5) =~= start) by {
        assert(options.take(5) =~= start);
        assert forall|i: int| 0 <= i < 5 implies out[i] == options[i] by {}
    }
    if options != start {
        assert(out.take(out.len() - 2)[5] == "-i"@);
    } else {
        assert(args.get("case_sensitive"@) is Some);
    }
    if args.get("case_sensitive"@) == Some(JsonView::Bool(true)) {
        match args.get("file_patterns"@) {
            Some(JsonView::Array(items)) => {
                assert(out =~= (start + include_arguments(items)).push("--"@).push(pattern));
            },
            _ => {},
        }
    }
    if args.get("case_sensitive"@) is None && args.get("file_patterns"@) is None {
        assert(out =~= seq![
            "grep"@,
            "--line-number"@,
            "--max-count"@,
            "50"@,
            "-I"@,
            "-i"@,
            "--"@,
            pattern,
        ]);
    }
}

/// What was found is shown as it is, up to so many lines, and the first ones where there
/// are more.
pub proof fn the_first_results_are_shown(stdout: Seq<char>)
    ensures
        lines(stdout).len() <= 50 ==> first_results(stdout) == stdout,
        lines(stdout).len() > 50 ==> first_results(stdout) == join(lines(stdout).take(50), "\n"@),
{
}

} // verus!
