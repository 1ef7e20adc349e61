//! The language that a file is written in, by its name.
use vstd::prelude::*;

use crate::paths::{
    extension, extension_of, extensions_stand_behind_the_last_dot, file_name, file_name_of,
    the_last_part_is_the_name,
};
use crate::text::same;

verus! {

/// The language of a file with a name of its own.
pub open spec fn language_of_name(name: Seq<char>) -> Option<Seq<char>> {
    if name == "Dockerfile"@ {
        Some("Docker"@)
    } else if name == "Makefile"@ {
        Some("Makefile"@)
    } else if name == "Jenkinsfile"@ {
        Some("Groovy"@)
    } else if name == "CMakeLists.txt"@ {
        Some("CMake"@)
    } else if name == "Gemfile"@ {
        Some("Ruby"@)
    } else if name == "Rakefile"@ {
        Some("Ruby"@)
    } else {
        None
    }
}

/// The language of files with an extension.
pub open spec fn language_of_extension(ext: Seq<char>) -> Seq<char> {
    if ext == "bash"@ {
        "Shell"@
    } else if ext == "c"@ {
        "C"@
    } else if ext == "cc"@ {
        "C++"@
    } else if ext == "clj"@ {
        "Clojure"@
    } else if ext == "cpp"@ {
        "C++"@
    } else if ext == "cs"@ {
        "C#"@
    } else if ext == "css"@ {
        "CSS"@
    } else if ext == "cxx"@ {
        "C++"@
    } else if ext == "dart"@ {
        "Dart"@
    } else if ext == "ex"@ {
        "Elixir"@
    } else if ext == "exs"@ {
        "Elixir"@
    } else if ext == "go"@ {
        "Go"@
    } else if ext == "h"@ {
        "C"@
    } else if ext == "hpp"@ {
        "C++"@
    } else if ext == "hs"@ {
        "Haskell"@
    } else if ext == "html"@ {
        "HTML"@
    } else if ext == "java"@ {
        "Java"@
    } else if ext == "js"@ {
        "JavaScript"@
    } else if ext == "json"@ {
        "JSON"@
    } else if ext == "jsx"@ {
        "JavaScript"@
    } else if ext == "kt"@ {
        "Kotlin"@
    } else if ext == "kts"@ {
        "Kotlin"@
    } else if ext == "lua"@ {
        "Lua"@
    } else if ext == "md"@ {
        "Markdown"@
    } else if ext == "php"@ {
        "PHP"@
    } else if ext == "pl"@ {
        "Perl"@
    } else if ext == "py"@ {
        "Python"@
    } else if ext == "r"@ {
        "R"@
    } else if ext == "rb"@ {
        "Ruby"@
    } else if ext == "rs"@ {
        "Rust"@
    } else if ext == "scala"@ {
        "Scala"@
    } else if ext == "scss"@ {
        "CSS"@
    } else if ext == "sh"@ {
        "Shell"@
    } else if ext == "sql"@ {
        "SQL"@
    } else if ext == "swift"@ {
        "Swift"@
    } else if ext == "tf"@ {
        "Terraform"@
    } else if ext == "toml"@ {
        "TOML"@
    } else if ext == "ts"@ {
        "TypeScript"@
    } else if ext == "tsx"@ {
        "TypeScript"@
    } else if ext == "vue"@ {
        "Vue"@
    } else if ext == "xml"@ {
        "XML"@
    } else if ext == "yaml"@ {
        "YAML"@
    } else if ext == "yml"@ {
        "YAML"@
    } else if ext == "zig"@ {
        "Zig"@
    } else {
        "Unknown"@
    }
}

/// The language of a file: by its whole name, else by its extension, else
/// `Unknown`.
pub open spec fn language_of(path: Seq<char>) -> Seq<char> {
    match file_name_of(path) {
        None => "Unknown"@,
        Some(name) => match language_of_name(name) {
            Some(l) => l,
            None => match extension_of(name) {
                Some(ext) => language_of_extension(ext),
                None => "Unknown"@,
            },
        },
    }
}

fn by_name(name: &str) -> (r: Option<&'static str>)
    ensures
        match r {
            Some(l) => language_of_name(name@) == Some(l@),
            None => language_of_name(name@) is None,
        },
{
    if same(name, "Dockerfile") {
        Some("Docker")
    } else if same(name, "Makefile") {
        Some("Makefile")
    } else if same(name, "Jenkinsfile") {
        Some("Groovy")
    } else if same(name, "CMakeLists.txt") {
        Some("CMake")
    } else if same(name, "Gemfile") {
        Some("Ruby")
    } else if same(name, "Rakefile") {
        Some("Ruby")
    } else {
        None
    }
}

fn by_extension(ext: &str) -> (r: &'static str)
    ensures
        r@ == language_of_extension(ext@),
{
    if same(ext, "bash") {
        "Shell"
    } else if same(ext, "c") {
        "C"
    } else if same(ext, "cc") {
        "C++"
    } else if same(ext, "clj") {
        "Clojure"
    } else if same(ext, "cpp") {
        "C++"
    } else if same(ext, "cs") {
        "C#"
    } else if same(ext, "css") {
        "CSS"
    } else if same(ext, "cxx") {
        "C++"
    } else if same(ext, "dart") {
        "Dart"
    } else if same(ext, "ex") {
        "Elixir"
    } else if same(ext, "exs") {
        "Elixir"
    } else if same(ext, "go") {
        "Go"
    } else if same(ext, "h") {
        "C"
    } else if same(ext, "hpp") {
        "C++"
    } else if same(ext, "hs") {
        "Haskell"
    } else if same(ext, "html") {
        "HTML"
    } else if same(ext, "java") {
        "Java"
    } else if same(ext, "js") {
        "JavaScript"
    } else if same(ext, "json") {
        "JSON"
    } else if same(ext, "jsx") {
        "JavaScript"
    } else if same(ext, "kt") {
        "Kotlin"
    } else if same(ext, "kts") {
        "Kotlin"
    } else if same(ext, "lua") {
        "Lua"
    } else if same(ext, "md") {
        "Markdown"
    } else if same(ext, "php") {
        "PHP"
    } else if same(ext, "pl") {
        "Perl"
    } else if same(ext, "py") {
        "Python"
    } else if same(ext, "r") {
        "R"
    } else if same(ext, "rb") {
        "Ruby"
    } else if same(ext, "rs") {
        "Rust"
    } else if same(ext, "scala") {
        "Scala"
    } else if same(ext, "scss") {
        "CSS"
    } else if same(ext, "sh") {
        "Shell"
    } else if same(ext, "sql") {
        "SQL"
    } else if same(ext, "swift") {
        "Swift"
    } else if same(ext, "tf") {
        "Terraform"
    } else if same(ext, "toml") {
        "TOML"
    } else if same(ext, "ts") {
        "TypeScript"
    } else if same(ext, "tsx") {
        "TypeScript"
    } else if same(ext, "vue") {
        "Vue"
    } else if same(ext, "xml") {
        "XML"
    } else if same(ext, "yaml") {
        "YAML"
    } else if same(ext, "yml") {
        "YAML"
    } else if same(ext, "zig") {
        "Zig"
    } else {
        "Unknown"
    }
}

/// The language of a file, by its name.
pub fn detect_language(path: &str) -> (r: &'static str)
    ensures
        r@ == language_of(path@),
{
    match file_name(path) {
        None => "Unknown",
        Some(name) => match by_name(name.as_str()) {
            Some(l) => l,
            None => match extension(name.as_str()) {
                Some(ext) => by_extension(ext.as_str()),
                None => "Unknown",
            },
        },
    }
}

/// Every extension that is known stands for its language, and any other for none.
pub proof fn extensions_stand_for_languages(ext: Seq<char>)
    ensures
        language_of_extension("bash"@) == "Shell"@,
        language_of_extension("c"@) == "C"@,
        language_of_extension("cc"@) == "C++"@,
        language_of_extension("clj"@) == "Clojure"@,
        language_of_extension("cpp"@) == "C++"@,
        language_of_extension("cs"@) == "C#"@,
        language_of_extension("css"@) == "CSS"@,
        language_of_extension("cxx"@) == "C++"@,
        language_of_extension("dart"@) == "Dart"@,
        language_of_extension("ex"@) == "Elixir"@,
        language_of_extension("exs"@) == "Elixir"@,
        language_of_extension("go"@) == "Go"@,
        language_of_extension("h"@) == "C"@,
        language_of_extension("hpp"@) == "C++"@,
        language_of_extension("hs"@) == "Haskell"@,
        language_of_extension("html"@) == "HTML"@,
        language_of_extension("java"@) == "Java"@,
        language_of_extension("js"@) == "JavaScript"@,
        language_of_extension("json"@) == "JSON"@,
        language_of_extension("jsx"@) == "JavaScript"@,
        language_of_extension("kt"@) == "Kotlin"@,
        language_of_extension("kts"@) == "Kotlin"@,
        language_of_extension("lua"@) == "Lua"@,
        language_of_extension("md"@) == "Markdown"@,
        language_of_extension("php"@) == "PHP"@,
        language_of_extension("pl"@) == "Perl"@,
        language_of_extension("py"@) == "Python"@,
        language_of_extension("r"@) == "R"@,
        language_of_extension("rb"@) == "Ruby"@,
        language_of_extension("rs"@) == "Rust"@,
        language_of_extension("scala"@) == "Scala"@,
        language_of_extension("scss"@) == "CSS"@,
        language_of_extension("sh"@) == "Shell"@,
        language_of_extension("sql"@) == "SQL"@,
        language_of_extension("swift"@) == "Swift"@,
        language_of_extension("tf"@) == "Terraform"@,
        language_of_extension("toml"@) == "TOML"@,
        language_of_extension("ts"@) == "TypeScript"@,
        language_of_extension("tsx"@) == "TypeScript"@,
        language_of_extension("vue"@) == "Vue"@,
        language_of_extension("xml"@) == "XML"@,
        language_of_extension("yaml"@) == "YAML"@,
        language_of_extension("yml"@) == "YAML"@,
        language_of_extension("zig"@) == "Zig"@,
        ext != "bash"@ && ext != "c"@ && ext != "cc"@ && ext != "clj"@ && ext != "cpp"@ && ext != "cs"@ && ext != "css"@ && ext != "cxx"@ && ext != "dart"@ && ext != "ex"@ && ext != "exs"@ && ext != "go"@ && ext != "h"@ && ext != "hpp"@ && ext != "hs"@ && ext != "html"@ && ext != "java"@ && ext != "js"@ && ext != "json"@ && ext != "jsx"@ && ext != "kt"@ && ext != "kts"@ && ext != "lua"@ && ext != "md"@ && ext != "php"@ && ext != "pl"@ && ext != "py"@ && ext != "r"@ && ext != "rb"@ && ext != "rs"@ && ext != "scala"@ && ext != "scss"@ && ext != "sh"@ && ext != "sql"@ && ext != "swift"@ && ext != "tf"@ && ext != "toml"@ && ext != "ts"@ && ext != "tsx"@ && ext != "vue"@ && ext != "xml"@ && ext != "yaml"@ && ext != "yml"@ && ext != "zig"@ ==> language_of_extension(ext) == "Unknown"@,
{
    reveal_strlit("bash");
    reveal_strlit("c");
    reveal_strlit("cc");
    reveal_strlit("clj");
    reveal_strlit("cpp");
    reveal_strlit("cs");
    reveal_strlit("css");
    reveal_strlit("cxx");
    reveal_strlit("dart");
    reveal_strlit("ex");
    reveal_strlit("exs");
    reveal_strlit("go");
    reveal_strlit("h");
    reveal_strlit("hpp");
    reveal_strlit("hs");
    reveal_strlit("html");
    reveal_strlit("java");
    reveal_strlit("js");
    reveal_strlit("json");
    reveal_strlit("jsx");
    reveal_strlit("kt");
    reveal_strlit("kts");
    reveal_strlit("lua");
    reveal_strlit("md");
    reveal_strlit("php");
    reveal_strlit("pl");
    reveal_strlit("py");
    reveal_strlit("r");
    reveal_strlit("rb");
    reveal_strlit("rs");
    reveal_strlit("scala");
    reveal_strlit("scss");
    reveal_strlit("sh");
    reveal_strlit("sql");
    reveal_strlit("swift");
    reveal_strlit("tf");
    reveal_strlit("toml");
    reveal_strlit("ts");
    reveal_strlit("tsx");
    reveal_strlit("vue");
    reveal_strlit("xml");
    reveal_strlit("yaml");
    reveal_strlit("yml");
    reveal_strlit("zig");
    assert("bash"@.len() == 4 && "bash"@[0] == 'b' && "bash"@[1] == 'a' && "bash"@[2] == 's' && "bash"@[3] == 'h');
    assert("c"@.len() == 1 && "c"@[0] == 'c');
    assert("cc"@.len() == 2 && "cc"@[0] == 'c' && "cc"@[1] == 'c');
    assert("clj"@.len() == 3 && "clj"@[0] == 'c' && "clj"@[1] == 'l' && "clj"@[2] == 'j');
    assert("cpp"@.len() == 3 && "cpp"@[0] == 'c' && "cpp"@[1] == 'p' && "cpp"@[2] == 'p');
    assert("cs"@.len() == 2 && "cs"@[0] == 'c' && "cs"@[1] == 's');
    assert("css"@.len() == 3 && "css"@[0] == 'c' && "css"@[1] == 's' && "css"@[2] == 's');
    assert("cxx"@.len() == 3 && "cxx"@[0] == 'c' && "cxx"@[1] == 'x' && "cxx"@[2] == 'x');
    assert("dart"@.len() == 4 && "dart"@[0] == 'd' && "dart"@[1] == 'a' && "dart"@[2] == 'r' && "dart"@[3] == 't');
    assert("ex"@.len() == 2 && "ex"@[0] == 'e' && "ex"@[1] == 'x');
    assert("exs"@.len() == 3 && "exs"@[0] == 'e' && "exs"@[1] == 'x' && "exs"@[2] == 's');
    assert("go"@.len() == 2 && "go"@[0] == 'g' && "go"@[1] == 'o');
    assert("h"@.len() == 1 && "h"@[0] == 'h');
    assert("hpp"@.len() == 3 && "hpp"@[0] == 'h' && "hpp"@[1] == 'p' && "hpp"@[2] == 'p');
    assert("hs"@.len() == 2 && "hs"@[0] == 'h' && "hs"@[1] == 's');
    assert("html"@.len() == 4 && "html"@[0] == 'h' && "html"@[1] == 't' && "html"@[2] == 'm' && "html"@[3] == 'l');
    assert("java"@.len() == 4 && "java"@[0] == 'j' && "java"@[1] == 'a' && "java"@[2] == 'v' && "java"@[3] == 'a');
    assert("js"@.len() == 2 && "js"@[0] == 'j' && "js"@[1] == 's');
    assert("json"@.len() == 4 && "json"@[0] == 'j' && "json"@[1] == 's' && "json"@[2] == 'o' && "json"@[3] == 'n');
    assert("jsx"@.len() == 3 && "jsx"@[0] == 'j' && "jsx"@[1] == 's' && "jsx"@[2] == 'x');
    assert("kt"@.len() == 2 && "kt"@[0] == 'k' && "kt"@[1] == 't');
    assert("kts"@.len() == 3 && "kts"@[0] == 'k' && "kts"@[1] == 't' && "kts"@[2] == 's');
    assert("lua"@.len() == 3 && "lua"@[0] == 'l' && "lua"@[1] == 'u' && "lua"@[2] == 'a');
    assert("md"@.len() == 2 && "md"@[0] == 'm' && "md"@[1] == 'd');
    assert("php"@.len() == 3 && "php"@[0] == 'p' && "php"@[1] == 'h' && "php"@[2] == 'p');
    assert("pl"@.len() == 2 && "pl"@[0] == 'p' && "pl"@[1] == 'l');
    assert("py"@.len() == 2 && "py"@[0] == 'p' && "py"@[1] == 'y');
    assert("r"@.len() == 1 && "r"@[0] == 'r');
    assert("rb"@.len() == 2 && "rb"@[0] == 'r' && "rb"@[1] == 'b');
    assert("rs"@.len() == 2 && "rs"@[0] == 'r' && "rs"@[1] == 's');
    assert("scala"@.len() == 5 && "scala"@[0] == 's' && "scala"@[1] == 'c' && "scala"@[2] == 'a' && "scala"@[3] == 'l' && "scala"@[4] == 'a');
    assert("scss"@.len() == 4 && "scss"@[0] == 's' && "scss"@[1] == 'c' && "scss"@[2] == 's' && "scss"@[3] == 's');
    assert("sh"@.len() == 2 && "sh"@[0] == 's' && "sh"@[1] == 'h');
    assert("sql"@.len() == 3 && "sql"@[0] == 's' && "sql"@[1] == 'q' && "sql"@[2] == 'l');
    assert("swift"@.len() == 5 && "swift"@[0] == 's' && "swift"@[1] == 'w' && "swift"@[2] == 'i' && "swift"@[3] == 'f' && "swift"@[4] == 't');
    assert("tf"@.len() == 2 && "tf"@[0] == 't' && "tf"@[1] == 'f');
    assert("toml"@.len() == 4 && "toml"@[0] == 't' && "toml"@[1] == 'o' && "toml"@[2] == 'm' && "toml"@[3] == 'l');
    assert("ts"@.len() == 2 && "ts"@[0] == 't' && "ts"@[1] == 's');
    assert("tsx"@.len() == 3 && "tsx"@[0] == 't' && "tsx"@[1] == 's' && "tsx"@[2] == 'x');
    assert("vue"@.len() == 3 && "vue"@[0] == 'v' && "vue"@[1] == 'u' && "vue"@[2] == 'e');
    assert("xml"@.len() == 3 && "xml"@[0] == 'x' && "xml"@[1] == 'm' && "xml"@[2] == 'l');
    assert("yaml"@.len() == 4 && "yaml"@[0] == 'y' && "yaml"@[1] == 'a' && "yaml"@[2] == 'm' && "yaml"@[3] == 'l');
    assert("yml"@.len() == 3 && "yml"@[0] == 'y' && "yml"@[1] == 'm' && "yml"@[2] == 'l');
    assert("zig"@.len() == 3 && "zig"@[0] == 'z' && "zig"@[1] == 'i' && "zig"@[2] == 'g');
}

/// Files with a name of their own are known by it, wherever they stand.
pub proof fn files_are_known_by_name(dir: Seq<char>)
    ensures
        language_of(dir + "/"@ + "Dockerfile"@) == "Docker"@,
        language_of(dir + "/"@ + "Makefile"@) == "Makefile"@,
        language_of(dir + "/"@ + "Jenkinsfile"@) == "Groovy"@,
        language_of(dir + "/"@ + "CMakeLists.txt"@) == "CMake"@,
        language_of(dir + "/"@ + "Gemfile"@) == "Ruby"@,
        language_of(dir + "/"@ + "Rakefile"@) == "Ruby"@,
{
    reveal_strlit(".");
    reveal_strlit("..");
    reveal_strlit("Dockerfile");
    reveal_strlit("Makefile");
    reveal_strlit("Jenkinsfile");
    reveal_strlit("CMakeLists.txt");
    reveal_strlit("Gemfile");
    reveal_strlit("Rakefile");
    assert("Dockerfile"@.len() == 10 && "Dockerfile"@[0] == 'D' && "Dockerfile"@[1] == 'o');
    assert("Makefile"@.len() == 8 && "Makefile"@[0] == 'M' && "Makefile"@[1] == 'a');
    assert("Jenkinsfile"@.len() == 11 && "Jenkinsfile"@[0] == 'J' && "Jenkinsfile"@[1] == 'e');
    assert("CMakeLists.txt"@.len() == 14 && "CMakeLists.txt"@[0] == 'C' && "CMakeLists.txt"@[1] == 'M');
    assert("Gemfile"@.len() == 7 && "Gemfile"@[0] == 'G' && "Gemfile"@[1] == 'e');
    assert("Rakefile"@.len() == 8 && "Rakefile"@[0] == 'R' && "Rakefile"@[1] == 'a');
    the_last_part_is_the_name(dir, "Dockerfile"@);
    the_last_part_is_the_name(dir, "Makefile"@);
    the_last_part_is_the_name(dir, "Jenkinsfile"@);
    the_last_part_is_the_name(dir, "CMakeLists.txt"@);
    the_last_part_is_the_name(dir, "Gemfile"@);
    the_last_part_is_the_name(dir, "Rakefile"@);
}

/// Any other file is known by what stands behind the last dot of its name, wherever it
/// stands and whatever stands before that dot.
pub proof fn files_are_known_by_extension(dir: Seq<char>, stem: Seq<char>, ext: Seq<char>)
    requires
        stem.len() > 0,
        !stem.contains('/'),
        !ext.contains('/'),
        !ext.contains('.'),
        ext.len() > 0,
        language_of_name(stem + "."@ + ext) is None,
    ensures
        language_of(dir + "/"@ + (stem + "."@ + ext)) == language_of_extension(ext),
        language_of(stem + "."@ + ext) == language_of_extension(ext),
{
    reveal_strlit(".");
    reveal_strlit("..");
    let name = stem + "."@ + ext;
    assert(!name.contains('/')) by {
        if name.contains('/') {
            let k = choose|k: int| 0 <= k < name.len() && name[k] == '/';
            if k < stem.len() {
                assert(stem[k] == '/');
            } else if k > stem.len() {
                assert(ext[k - stem.len() - 1] == '/');
            }
        }
    }
    assert(name.len() >= 3);
    the_last_part_is_the_name(dir, name);
    extensions_stand_behind_the_last_dot(stem, ext);
}

} // verus!
