//! The prompts of a review: rules, file lists and templates.
use vstd::prelude::*;

use crate::diff::{
    context_text, every_file_is_shown, file_text, format_diff_context, DiffFile, DiffStatus,
};
use crate::glob::{glob_value, try_glob_match};
use crate::json::{
    has_repeated_member, item_views, json_parsed, lemma_array_view, parse_json, repeats_member, Json,
    JsonView,
};
use crate::language::{detect_language, language_of};
use crate::letters::{alphanumeric, lowercased};
use crate::numeral::{decimal, decimal_is_digits, decimal_of, is_digit};
use crate::paths::{extension, extension_of};
use crate::services::file_reader::FileContent;
use crate::text::{
    chars_of, contains, contains_is_transitive, ends_with, find_from, is_slot,
    lemma_contained_splits, lemma_replace_plain, lemma_replace_slot, lemma_views_push, opt_view,
    other_slots_are_kept, other_text_is_not_replaced, parts_are_contained, replace,
    replaced_text_is_there, same, text_between, text_contains, text_replace, views,
};
use crate::tokens::{estimate_tokens, tokens_of};

verus! {

/// The most tokens that the text of the rules may take.
pub const MAX_RULES_TOKENS: u128 = 2000;

/// What the user prompt says of the change.
pub struct PromptContext<'a> {
    pub title: &'a str,
    pub description: &'a str,
    pub owner: &'a str,
    pub repo: &'a str,
    pub author: &'a str,
    pub branch: &'a str,
    pub base: &'a str,
    /// The language that the caller names, for where the files do not tell.
    pub language_hint: Option<&'a str>,
}

/// What the user prompt says of the change.
#[verifier::ext_equal]
pub struct ContextView {
    pub title: Seq<char>,
    pub description: Seq<char>,
    pub owner: Seq<char>,
    pub repo: Seq<char>,
    pub author: Seq<char>,
    pub branch: Seq<char>,
    pub base: Seq<char>,
    pub language_hint: Option<Seq<char>>,
}

impl<'a> View for PromptContext<'a> {
    type V = ContextView;

    open spec fn view(&self) -> ContextView {
        ContextView {
            title: self.title@,
            description: self.description@,
            owner: self.owner@,
            repo: self.repo@,
            author: self.author@,
            branch: self.branch@,
            base: self.base@,
            language_hint: match self.language_hint {
                Some(h) => Some(h@),
                None => None,
            },
        }
    }
}

/// The rule files that apply to the files that a pattern matches.
pub struct RuleEntry {
    pub pattern: String,
    pub files: Vec<String>,
}

/// The rules of a domain or a project.
pub struct RuleIndex {
    pub rules: Vec<RuleEntry>,
}

/// The text of the rules that apply, and how many rule files they come from.
pub struct ResolvedRules {
    pub text: String,
    pub count: usize,
}

/// The prompt files that were found: for the domain, and for code, which other
/// domains fall back to; and the texts for where neither was.
pub struct PromptFiles {
    pub domain_system: Option<String>,
    pub code_system: Option<String>,
    pub default_system: String,
    pub domain_user: Option<String>,
    pub code_user: Option<String>,
    pub default_user: String,
}

/// The rules that were found: an index and the rule files by name.
pub struct RuleFiles {
    pub index: Option<RuleIndex>,
    pub texts: Vec<(String, String)>,
}

/// Builds the prompts of a domain.
pub struct PromptBuilder {
    pub domain: String,
    pub system_prompt: String,
    pub user_template: String,
    pub rule_index: Option<RuleIndex>,
    /// The rule files, each name once.
    pub rule_contents: Vec<(String, String)>,
}

// ---------------------------------------------------------------------------
// Loading

/// The first of three texts that there is.
pub open spec fn first_of(a: Option<Seq<char>>, b: Option<Seq<char>>, c: Seq<char>) -> Seq<char> {
    match a {
        Some(t) => t,
        None => match b {
            Some(t) => t,
            None => c,
        },
    }
}

fn pick(a: Option<String>, b: Option<String>, c: String) -> (r: String)
    ensures
        r@ == first_of(opt_view(a), opt_view(b), c@),
{
    match a {
        Some(t) => t,
        None => match b {
            Some(t) => t,
            None => c,
        },
    }
}

/// A domain whose prompt files may be read: letters, numbers, `-` and `_`, at
/// least one, and nothing that could lead out of the directory of prompts.
pub open spec fn loadable_domain(domain: Seq<char>) -> bool {
    &&& domain.len() > 0
    &&& !contains(domain, "/"@)
    &&& !contains(domain, "\\"@)
    &&& !contains(domain, ".."@)
    &&& forall|i: int|
        0 <= i < domain.len() ==> alphanumeric(#[trigger] domain[i]) || domain[i] == '-'
            || domain[i] == '_'
}

/// Whether the prompt files of a domain may be read.
pub fn may_load_prompt(domain: &str) -> (r: bool)
    ensures
        r == loadable_domain(domain@),
{
    if domain.is_empty() || text_contains(domain, "/") || text_contains(domain, "\\")
        || text_contains(domain, "..") {
        return false;
    }
    let v = chars_of(domain);
    let mut i: usize = 0;
    while i < v.len()
        invariant
            i <= v@.len(),
            v@ == domain@,
            forall|j: int|
                0 <= j < i ==> alphanumeric(#[trigger] domain@[j]) || domain@[j] == '-'
                    || domain@[j] == '_',
        decreases v@.len() - i,
    {
        let c: char = v[i];
        if !(c.is_alphanumeric() || c == '-' || c == '_') {
            return false;
        }
        i += 1;
    }
    true
}

/// The text under a name; the first counts.
pub open spec fn text_under(texts: Seq<(String, String)>, name: Seq<char>) -> Option<Seq<char>>
    decreases texts.len(),
{
    if texts.len() == 0 {
        None
    } else if texts[0].0@ == name {
        Some(texts[0].1@)
    } else {
        text_under(texts.subrange(1, texts.len() as int), name)
    }
}

fn find_text<'a>(texts: &'a Vec<(String, String)>, name: &str) -> (r: Option<&'a String>)
    ensures
        match r {
            Some(t) => text_under(texts@, name@) == Some(t@),
            None => text_under(texts@, name@) is None,
        },
{
    let mut i: usize = 0;
    assert(texts@.subrange(0, texts@.len() as int) =~= texts@);
    while i < texts.len()
        invariant
            i <= texts@.len(),
            text_under(texts@, name@) == text_under(
                texts@.subrange(i as int, texts@.len() as int),
                name@,
            ),
        decreases texts@.len() - i,
    {
        let ghost tail = texts@.subrange(i as int, texts@.len() as int);
        assert(tail[0] == texts@[i as int]);
        if same(texts[i].0.as_str(), name) {
            return Some(&texts[i].1);
        }
        assert(tail.subrange(1, tail.len() as int) =~= texts@.subrange(i + 1, texts@.len() as int));
        i += 1;
    }
    None
}

/// The extension of a rule file, in lower case, is one that is let in.
pub open spec fn rule_extension(ext: Seq<char>) -> bool {
    let lower = lowercased(ext);
    lower == "md"@ || lower == "txt"@ || lower == "markdown"@
}

/// A rule file is named by a plain file name, without a path separator or two
/// dots in a row, and with an extension that is let in.
pub open spec fn safe_rule_path(file: Seq<char>) -> bool {
    !contains(file, "/"@) && !contains(file, ".."@) && (extension_of(file) matches Some(ext) && rule_extension(ext))
}

/// What `text_under` finds when a text is added at the end.
proof fn lemma_text_under_push(texts: Seq<(String, String)>, new: (String, String), name: Seq<char>)
    ensures
        text_under(texts.push(new), name) == match text_under(texts, name) {
            Some(t) => Some(t),
            None => if new.0@ == name {
                Some(new.1@)
            } else {
                None
            },
        },
    decreases texts.len(),
{
    reveal_with_fuel(text_under, 2);
    let more = texts.push(new);
    if texts.len() == 0 {
        assert(more.subrange(1, more.len() as int) =~= Seq::<(String, String)>::empty());
    } else {
        assert(more[0] == texts[0]);
        assert(more.subrange(1, more.len() as int) =~= texts.subrange(
            1,
            texts.len() as int,
        ).push(new));
        lemma_text_under_push(texts.subrange(1, texts.len() as int), new, name);
    }
}

/// The name is listed in an entry of the index.
pub open spec fn lists(index: RuleIndex, name: Seq<char>) -> bool {
    exists|i: int| 0 <= i < index.rules@.len() && views(#[trigger] index.rules@[i].files@).contains(name)
}

/// The name is listed among the first entries.
pub open spec fn lists_before(rules: Seq<RuleEntry>, n: int, name: Seq<char>) -> bool {
    exists|i: int| 0 <= i < n && views(#[trigger] rules[i].files@).contains(name)
}

/// What the loaded rule files hold under a name: what they held before, else
/// the text found for a safe name that the index lists.
pub open spec fn gathered(
    before: Seq<(String, String)>,
    found: RuleFiles,
    name: Seq<char>,
) -> Option<Seq<char>> {
    match text_under(before, name) {
        Some(t) => Some(t),
        None => if found.index is Some && lists(found.index.unwrap(), name) && safe_rule_path(
            name,
        ) {
            text_under(found.texts@, name)
        } else {
            None
        },
    }
}

/// Adds a rule file, unless there is one of that name, or the name is not safe,
/// or the file was not found.
fn gather_file(contents: &mut Vec<(String, String)>, texts: &Vec<(String, String)>, file: &String)
    ensures
        forall|name: Seq<char>|
            #![trigger text_under(final(contents)@, name)]
            text_under(final(contents)@, name) == match text_under(old(contents)@, name) {
                Some(t) => Some(t),
                None => if name == file@ && safe_rule_path(name) {
                    text_under(texts@, name)
                } else {
                    None
                },
            },
{
    if find_text(contents, file.as_str()).is_none() && PromptBuilder::is_safe_rule_path(
        file.as_str(),
    ) {
        match find_text(texts, file.as_str()) {
            Some(t) => {
                let new = (file.clone(), t.clone());
                proof {
                    assert forall|name: Seq<char>| #[trigger]
                        text_under(contents@.push(new), name) == match text_under(contents@, name) {
                            Some(t) => Some(t),
                            None => if new.0@ == name {
                                Some(new.1@)
                            } else {
                                None
                            },
                        } by {
                        lemma_text_under_push(contents@, new, name);
                    }
                }
                contents.push(new);
            },
            None => {},
        }
    }
}

/// Adds the rule files that an index lists.
fn gather(contents: &mut Vec<(String, String)>, found: &RuleFiles)
    ensures
        forall|name: Seq<char>|
            #![trigger text_under(final(contents)@, name)]
            text_under(final(contents)@, name) == gathered(old(contents)@, *found, name),
{
    let index = match &found.index {
        Some(x) => x,
        None => {
            return ;
        },
    };
    let ghost start = contents@;
    let mut i: usize = 0;
    while i < index.rules.len()
        invariant
            i <= index.rules@.len(),
            found.index == Some(*index),
            start == old(contents)@,
            forall|name: Seq<char>|
                #![trigger text_under(contents@, name)]
                text_under(contents@, name) == match text_under(start, name) {
                    Some(t) => Some(t),
                    None => if lists_before(index.rules@, i as int, name) && safe_rule_path(name) {
                        text_under(found.texts@, name)
                    } else {
                        None
                    },
                },
        decreases index.rules@.len() - i,
    {
        let files = &index.rules[i].files;
        let ghost middle = contents@;
        let ghost all = views(files@);
        let mut j: usize = 0;
        while j < files.len()
            invariant
                j <= files@.len(),
                all == views(files@),
                forall|name: Seq<char>|
                    #![trigger text_under(contents@, name)]
                    text_under(contents@, name) == match text_under(middle, name) {
                        Some(t) => Some(t),
                        None => if all.take(j as int).contains(name) && safe_rule_path(name) {
                            text_under(found.texts@, name)
                        } else {
                            None
                        },
                    },
            decreases files@.len() - j,
        {
            let ghost before = contents@;
            gather_file(contents, &found.texts, &files[j]);
            proof {
                assert forall|name: Seq<char>| all.take(j + 1).contains(name) == (all.take(
                    j as int,
                ).contains(name) || name == files@[j as int]@) by {
                    let longer = all.take(j + 1);
                    assert(longer[j as int] == files@[j as int]@);
                    if longer.contains(name) {
                        let k = choose|k: int| 0 <= k < longer.len() && longer[k] == name;
                        if k < j {
                            assert(all.take(j as int)[k] == name);
                        }
                    }
                    if all.take(j as int).contains(name) {
                        let k = choose|k: int|
                            0 <= k < all.take(j as int).len() && all.take(j as int)[k] == name;
                        assert(longer[k] == name);
                    }
                }
            }
            j += 1;
        }
        proof {
            assert(all.take(j as int) =~= all);
            assert forall|name: Seq<char>| lists_before(index.rules@, i + 1, name) == (
            lists_before(index.rules@, i as int, name) || all.contains(name)) by {
                if all.contains(name) {
                    assert(views(index.rules@[i as int].files@).contains(name));
                }
            }
        }
        i += 1;
    }
    proof {
        assert forall|name: Seq<char>| lists_before(index.rules@, i as int, name) == lists(
            *index,
            name,
        ) by {
        }
    }
}

/// The builder has the prompts of the domain, of code or the ones that are always there.
pub open spec fn builds_with(b: PromptBuilder, domain: Seq<char>, prompts: PromptFiles) -> bool {
    let own = loadable_domain(domain);
    &&& b.domain@ == domain
    &&& b.system_prompt@ == match (prompts.domain_system, prompts.code_system) {
        (Some(t), _) if own => t@,
        (_, Some(t)) => t@,
        (_, None) => prompts.default_system@,
    }
    &&& b.user_template@ == match (prompts.domain_user, prompts.code_user) {
        (Some(t), _) if own => t@,
        (_, Some(t)) => t@,
        (_, None) => prompts.default_user@,
    }
}

/// A domain has the prompts that there are for it; one without any, or whose name could
/// lead elsewhere, has those of code, and where there are none of these either the ones
/// that are always there.
pub proof fn domains_have_their_own_prompts(
    b: PromptBuilder,
    domain: Seq<char>,
    prompts: PromptFiles,
)
    requires
        builds_with(b, domain, prompts),
    ensures
        b.domain@ == domain,
        loadable_domain(domain) && prompts.domain_system is Some ==> b.system_prompt@
            == prompts.domain_system.unwrap()@,
        loadable_domain(domain) && prompts.domain_user is Some ==> b.user_template@
            == prompts.domain_user.unwrap()@,
        (!loadable_domain(domain) || prompts.domain_system is None) && prompts.code_system is Some
            ==> b.system_prompt@ == prompts.code_system.unwrap()@,
        (!loadable_domain(domain) || prompts.domain_user is None) && prompts.code_user is Some
            ==> b.user_template@ == prompts.code_user.unwrap()@,
        (!loadable_domain(domain) || prompts.domain_system is None) && prompts.code_system is None
            ==> b.system_prompt@ == prompts.default_system@,
        (!loadable_domain(domain) || prompts.domain_user is None) && prompts.code_user is None
            ==> b.user_template@ == prompts.default_user@,
{
}

/// The entries of two indexes, one after the other.
pub open spec fn merged_rules(builtin: Option<RuleIndex>, project: Option<RuleIndex>) -> Seq<
    RuleEntry,
> {
    let first = match builtin {
        Some(x) => x.rules@,
        None => Seq::empty(),
    };
    let second = match project {
        Some(x) => x.rules@,
        None => Seq::empty(),
    };
    first + second
}

impl PromptBuilder {
    /// Whether a rule file is named by a plain file name with an extension that
    /// is let in.
    pub fn is_safe_rule_path(file: &str) -> (r: bool)
        ensures
            r == safe_rule_path(file@),
    {
        if text_contains(file, "/") || text_contains(file, "..") {
            return false;
        }
        match extension(file) {
            Some(ext) => {
                let lower = ext.as_str().to_lowercase();
                same(lower.as_str(), "md") || same(lower.as_str(), "txt") || same(
                    lower.as_str(),
                    "markdown",
                )
            },
            None => false,
        }
    }

    /// The rules of the domain with those of the project behind them. A rule
    /// file of the project does not replace one of the domain.
    pub fn load_rules(builtin: RuleFiles, project: RuleFiles) -> (r: (
        Option<RuleIndex>,
        Vec<(String, String)>,
    ))
        ensures
            match r.0 {
                Some(x) => x.rules@ == merged_rules(builtin.index, project.index)
                    && x.rules@.len() > 0,
                None => merged_rules(builtin.index, project.index).len() == 0,
            },
            forall|name: Seq<char>|
                #![trigger text_under(r.1@, name)]
                text_under(r.1@, name) == match gathered(Seq::empty(), builtin, name) {
                    Some(t) => Some(t),
                    None => gathered(Seq::empty(), project, name),
                },
    {
        let mut contents: Vec<(String, String)> = Vec::new();
        gather(&mut contents, &builtin);
        gather(&mut contents, &project);
        let ghost all = merged_rules(builtin.index, project.index);
        let mut rules: Vec<RuleEntry> = match builtin.index {
            Some(x) => x.rules,
            None => Vec::new(),
        };
        match project.index {
            Some(x) => {
                let mut more = x.rules;
                rules.append(&mut more);
            },
            None => {},
        }
        assert(rules@ =~= all);
        let index = if rules.len() == 0 {
            None
        } else {
            Some(RuleIndex { rules })
        };
        (index, contents)
    }

    /// The builder of a domain, from the prompt and rule files that were found.
    /// Prompt files of a domain that may not be read are passed over.
    pub fn new(domain: &str, prompts: PromptFiles, builtin: RuleFiles, project: RuleFiles) -> (r:
        Self)
        ensures
            builds_with(r, domain@, prompts),
            r.domain@ == domain@,
            r.system_prompt@ == first_of(
                if loadable_domain(domain@) {
                    opt_view(prompts.domain_system)
                } else {
                    None
                },
                opt_view(prompts.code_system),
                prompts.default_system@,
            ),
            r.user_template@ == first_of(
                if loadable_domain(domain@) {
                    opt_view(prompts.domain_user)
                } else {
                    None
                },
                opt_view(prompts.code_user),
                prompts.default_user@,
            ),
            match r.rule_index {
                Some(x) => x.rules@ == merged_rules(builtin.index, project.index)
                    && x.rules@.len() > 0,
                None => merged_rules(builtin.index, project.index).len() == 0,
            },
            forall|name: Seq<char>|
                #![trigger text_under(r.rule_contents@, name)]
                text_under(r.rule_contents@, name) == match gathered(
                    Seq::empty(),
                    builtin,
                    name,
                ) {
                    Some(t) => Some(t),
                    None => gathered(Seq::empty(), project, name),
                },
    {
        let (rule_index, rule_contents) = PromptBuilder::load_rules(builtin, project);
        let (own_system, own_user) = if may_load_prompt(domain) {
            (prompts.domain_system, prompts.domain_user)
        } else {
            (None, None)
        };
        PromptBuilder {
            domain: domain.to_owned(),
            system_prompt: pick(own_system, prompts.code_system, prompts.default_system),
            user_template: pick(own_user, prompts.code_user, prompts.default_user),
            rule_index,
            rule_contents,
        }
    }
}

// ---------------------------------------------------------------------------
// Reading an index

/// The texts of a JSON array that holds nothing else.
pub open spec fn texts_of(v: JsonView) -> Option<Seq<Seq<char>>> {
    match v {
        JsonView::Array(items) => if forall|i: int|
            0 <= i < items.len() ==> (#[trigger] items[i]).as_str() is Some {
            Some(Seq::new(items.len(), |i: int| items[i].as_str().unwrap()))
        } else {
            None
        },
        _ => None,
    }
}

/// An entry of an index: an object with a pattern and files, or a list of both.
pub open spec fn entry_of(v: JsonView) -> Option<(Seq<char>, Seq<Seq<char>>)> {
    let (pattern, files) = match v {
        JsonView::Array(items) => if items.len() == 2 {
            (items[0].as_str(), Some(items[1]))
        } else {
            (None, None)
        },
        _ => (v.text_at("pattern"@), v.get("files"@)),
    };
    match (pattern, files) {
        (Some(p), Some(f)) => match texts_of(f) {
            Some(names) => Some((p, names)),
            None => None,
        },
        _ => None,
    }
}

/// Patterns and files of the entries of an index: a JSON array of entries.
pub open spec fn index_of(v: Option<JsonView>) -> Option<Seq<(Seq<char>, Seq<Seq<char>>)>> {
    match v {
        Some(JsonView::Array(items)) => if forall|i: int|
            0 <= i < items.len() ==> entry_of(#[trigger] items[i]) is Some {
            Some(Seq::new(items.len(), |i: int| entry_of(items[i]).unwrap()))
        } else {
            None
        },
        _ => None,
    }
}

/// The members of an entry.
pub open spec fn entry_names() -> Seq<Seq<char>> {
    seq!["pattern"@, "files"@]
}

/// Patterns and files of the entries of an index, from its text; nothing where an
/// entry has its pattern or its files twice.
pub open spec fn index_text(text: Seq<char>) -> Option<Seq<(Seq<char>, Seq<Seq<char>>)>> {
    if repeats_member(text, 2, entry_names()) {
        None
    } else {
        index_of(json_parsed(text))
    }
}

/// Patterns and files of entries.
pub open spec fn entry_views(rules: Seq<RuleEntry>) -> Seq<(Seq<char>, Seq<Seq<char>>)> {
    rules.map_values(|e: RuleEntry| (e.pattern@, views(e.files@)))
}

fn read_texts(v: &Json) -> (r: Option<Vec<String>>)
    ensures
        match r {
            Some(t) => texts_of(v@) == Some(views(t@)),
            None => texts_of(v@) is None,
        },
{
    match v {
        Json::Array(items) => {
            proof {
                lemma_array_view(*items);
            }
            let ghost held = item_views(items@);
            let mut out: Vec<String> = Vec::new();
            let mut i: usize = 0;
            while i < items.len()
                invariant
                    i <= items@.len(),
                    held == item_views(items@),
                    v@ == JsonView::Array(held),
                    out@.len() == i,
                    forall|j: int|
                        0 <= j < i ==> (#[trigger] held[j]).as_str() == Some(out@[j]@),
                decreases items@.len() - i,
            {
                assert(held[i as int] == items@[i as int]@);
                match items[i].as_str() {
                    Some(t) => {
                        out.push(t.clone());
                    },
                    None => {
                        assert(held[i as int].as_str() is None);
                        return None;
                    },
                }
                i += 1;
            }
            assert(views(out@) =~= Seq::new(
                held.len(),
                |i: int| held[i].as_str().unwrap(),
            ));
            Some(out)
        },
        _ => None,
    }
}

fn read_entry(v: &Json) -> (r: Option<RuleEntry>)
    ensures
        match r {
            Some(e) => entry_of(v@) == Some((e.pattern@, views(e.files@))),
            None => entry_of(v@) is None,
        },
{
    let (pattern, files) = match v {
        Json::Array(items) => {
            proof {
                lemma_array_view(*items);
            }
            if items.len() != 2 {
                return None;
            }
            (items[0].as_str(), Some(&items[1]))
        },
        _ => (v.text_at("pattern"), v.get("files")),
    };
    match (pattern, files) {
        (Some(p), Some(f)) => match read_texts(f) {
            Some(names) => Some(RuleEntry { pattern: p.clone(), files: names }),
            None => None,
        },
        _ => None,
    }
}

/// The index that a JSON value is.
pub fn read_index(parsed: &Option<Json>) -> (r: Option<RuleIndex>)
    ensures
        ({
            let v = match *parsed {
                Some(j) => Some(j@),
                None => None,
            };
            match r {
                Some(x) => index_of(v) == Some(entry_views(x.rules@)),
                None => index_of(v) is None,
            }
        }),
{
    match parsed {
        Some(Json::Array(items)) => {
            proof {
                lemma_array_view(*items);
            }
            let ghost held = item_views(items@);
            let mut rules: Vec<RuleEntry> = Vec::new();
            let mut i: usize = 0;
            while i < items.len()
                invariant
                    i <= items@.len(),
                    held == item_views(items@),
                    rules@.len() == i,
                    Json::Array(*items)@ == JsonView::Array(held),
                    *parsed == Some(Json::Array(*items)),
                    forall|j: int|
                        0 <= j < i ==> entry_of(#[trigger] held[j]) == Some(
                            (rules@[j].pattern@, views(rules@[j].files@)),
                        ),
                decreases items@.len() - i,
            {
                assert(held[i as int] == items@[i as int]@);
                match read_entry(&items[i]) {
                    Some(e) => {
                        rules.push(e);
                    },
                    None => {
                        assert(entry_of(held[i as int]) is None);
                        return None;
                    },
                }
                i += 1;
            }
            assert(entry_views(rules@) =~= Seq::new(
                held.len(),
                |i: int| entry_of(held[i]).unwrap(),
            ));
            Some(RuleIndex { rules })
        },
        _ => None,
    }
}

impl PromptBuilder {
    /// Reads the text of an index of rules.
    pub fn load_rule_index(text: &str) -> (r: Option<RuleIndex>)
        ensures
            match r {
                Some(x) => index_text(text@) == Some(entry_views(x.rules@)),
                None => index_text(text@) is None,
            },
    {
        let mut known: Vec<String> = Vec::new();
        known.push("pattern".to_owned());
        known.push("files".to_owned());
        assert(views(known@) =~= entry_names());
        if has_repeated_member(text, 2, &known) {
            return None;
        }
        read_index(&parse_json(text))
    }
}

/// Rules of a project only add: what a name stands for in the domain stays.
pub proof fn project_rules_extend(builtin: RuleFiles, project: RuleFiles, name: Seq<char>)
    requires
        gathered(Seq::empty(), builtin, name) is Some,
    ensures
        (match gathered(Seq::empty(), builtin, name) {
            Some(t) => Some(t),
            None => gathered(Seq::empty(), project, name),
        }) == text_under(builtin.texts@, name),
        safe_rule_path(name),
{
}

// ---------------------------------------------------------------------------
// Rules

/// Whether a pattern matches one of the files from the `i`-th on; nothing where
/// the pattern is out of order for a file that is come upon.
pub open spec fn any_match(pattern: Seq<char>, files: Seq<DiffFile>, i: int) -> Option<bool>
    decreases files.len() - i,
{
    if i < 0 || i >= files.len() {
        Some(false)
    } else {
        match glob_value(pattern, files[i].filename@) {
            None => None,
            Some(true) => Some(true),
            Some(false) => any_match(pattern, files, i + 1),
        }
    }
}

/// A list of names with those behind it that it does not hold yet.
pub open spec fn with_new(names: Seq<Seq<char>>, more: Seq<Seq<char>>) -> Seq<Seq<char>>
    decreases more.len(),
{
    if more.len() == 0 {
        names
    } else {
        let front = with_new(names, more.drop_last());
        if front.contains(more.last()) {
            front
        } else {
            front.push(more.last())
        }
    }
}

/// The rule files that apply to the changed files, each once, in the order of
/// the entries; nothing where a pattern is out of order.
pub open spec fn matched_rules(rules: Seq<RuleEntry>, files: Seq<DiffFile>) -> Option<
    Seq<Seq<char>>,
>
    decreases rules.len(),
{
    if rules.len() == 0 {
        Some(Seq::empty())
    } else {
        match matched_rules(rules.drop_last(), files) {
            None => None,
            Some(names) => match any_match(rules.last().pattern@, files, 0) {
                None => None,
                Some(true) => Some(with_new(names, views(rules.last().files@))),
                Some(false) => Some(names),
            },
        }
    }
}

/// A name without the endings `.md`.
pub open spec fn without_md(name: Seq<char>) -> Seq<char>
    decreases name.len(),
{
    if name.len() >= 3 && ends_with(name, ".md"@) {
        without_md(name.subrange(0, name.len() - 3))
    } else {
        name
    }
}

/// A rule as a section of the prompt.
pub open spec fn rule_section(name: Seq<char>, content: Seq<char>) -> Seq<char> {
    "### "@ + without_md(name) + "\n\n"@ + content + "\n"@
}

/// A section may be put behind the text: neither the estimates of the two nor
/// that of the whole go over the budget.
pub open spec fn fits_behind(text: Seq<char>, section: Seq<char>) -> bool {
    tokens_of(text) + tokens_of(section) <= MAX_RULES_TOKENS && tokens_of(text + section)
        <= MAX_RULES_TOKENS
}

/// The sections of the named rules from the `i`-th on, behind `text`, up to the
/// first that would go over the budget.
pub open spec fn rules_text(
    names: Seq<Seq<char>>,
    contents: Seq<(String, String)>,
    i: int,
    text: Seq<char>,
) -> Seq<char>
    decreases names.len() - i,
{
    if i < 0 || i >= names.len() {
        text
    } else {
        match text_under(contents, names[i]) {
            None => rules_text(names, contents, i + 1, text),
            Some(content) => {
                let section = rule_section(names[i], content);
                if fits_behind(text, section) {
                    rules_text(names, contents, i + 1, text + section)
                } else {
                    text
                }
            },
        }
    }
}

fn strip_md(name: &str) -> (r: String)
    ensures
        r@ == without_md(name@),
{
    let v = chars_of(name);
    let mut n: usize = v.len();
    proof {
        reveal_strlit(".md");
    }
    assert(v@.subrange(0, v@.len() as int) =~= v@);
    while n >= 3 && v[n - 3] == '.' && v[n - 2] == 'm' && v[n - 1] == 'd'
        invariant
            n <= v@.len(),
            ".md"@ =~= seq!['.', 'm', 'd'],
            without_md(v@) == without_md(v@.subrange(0, n as int)),
        decreases n,
    {
        proof {
            let front = v@.subrange(0, n as int);
            assert(front.subrange(n - 3, n as int) =~= ".md"@);
            assert(front.subrange(0, n - 3) =~= v@.subrange(0, n - 3));
        }
        n -= 3;
    }
    proof {
        let front = v@.subrange(0, n as int);
        if n >= 3 && ends_with(front, ".md"@) {
            let end = front.subrange(n - 3, n as int);
            assert(end[0] == v@[n - 3] && end[1] == v@[n - 2] && end[2] == v@[n - 1]);
        }
    }
    text_between(&v, 0, n)
}

fn match_any(pattern: &str, files: &Vec<DiffFile>) -> (r: Option<bool>)
    ensures
        r == any_match(pattern@, files@, 0),
{
    let mut i: usize = 0;
    while i < files.len()
        invariant
            i <= files@.len(),
            any_match(pattern@, files@, 0) == any_match(pattern@, files@, i as int),
        decreases files@.len() - i,
    {
        match try_glob_match(pattern, files[i].filename.as_str()) {
            None => {
                return None;
            },
            Some(true) => {
                return Some(true);
            },
            Some(false) => {},
        }
        i += 1;
    }
    Some(false)
}

fn holds(names: &Vec<String>, name: &str) -> (r: bool)
    ensures
        r == views(names@).contains(name@),
{
    let ghost all = views(names@);
    let mut i: usize = 0;
    while i < names.len()
        invariant
            i <= names@.len(),
            all == views(names@),
            forall|j: int| 0 <= j < i ==> all[j] != name@,
        decreases names@.len() - i,
    {
        if same(names[i].as_str(), name) {
            assert(all[i as int] == name@);
            return true;
        }
        i += 1;
    }
    false
}

fn add_new(names: &mut Vec<String>, more: &Vec<String>)
    ensures
        views(final(names)@) == with_new(views(old(names)@), views(more@)),
{
    let ghost start = views(names@);
    let ghost all = views(more@);
    let mut i: usize = 0;
    assert(with_new(start, all.take(0)) == start);
    while i < more.len()
        invariant
            i <= more@.len(),
            all == views(more@),
            views(names@) == with_new(start, all.take(i as int)),
        decreases more@.len() - i,
    {
        assert(all.take(i + 1).drop_last() =~= all.take(i as int));
        assert(all.take(i + 1).last() == more@[i as int]@);
        if !holds(names, more[i].as_str()) {
            proof {
                lemma_views_push(names@, more@[i as int]);
            }
            names.push(more[i].clone());
        }
        i += 1;
    }
    assert(all.take(i as int) =~= all);
}

proof fn lemma_matched_none(rules: Seq<RuleEntry>, files: Seq<DiffFile>, n: int)
    requires
        0 <= n <= rules.len(),
        matched_rules(rules.take(n), files) is None,
    ensures
        matched_rules(rules, files) is None,
    decreases rules.len() - n,
{
    if n < rules.len() {
        assert(rules.take(n + 1).drop_last() =~= rules.take(n));
        lemma_matched_none(rules, files, n + 1);
    } else {
        assert(rules.take(n) =~= rules);
    }
}

fn match_rules(rules: &Vec<RuleEntry>, files: &Vec<DiffFile>) -> (r: Option<Vec<String>>)
    ensures
        match r {
            Some(names) => matched_rules(rules@, files@) == Some(views(names@)),
            None => matched_rules(rules@, files@) is None,
        },
{
    let mut names: Vec<String> = Vec::new();
    let mut i: usize = 0;
    assert(views(names@) =~= Seq::<Seq<char>>::empty());
    while i < rules.len()
        invariant
            i <= rules@.len(),
            matched_rules(rules@.take(i as int), files@) == Some(views(names@)),
        decreases rules@.len() - i,
    {
        assert(rules@.take(i + 1).drop_last() =~= rules@.take(i as int));
        match match_any(rules[i].pattern.as_str(), files) {
            None => {
                proof {
                    lemma_matched_none(rules@, files@, i + 1);
                }
                return None;
            },
            Some(true) => {
                add_new(&mut names, &rules[i].files);
            },
            Some(false) => {},
        }
        i += 1;
    }
    assert(rules@.take(i as int) =~= rules@);
    Some(names)
}

fn write_rules(names: &Vec<String>, contents: &Vec<(String, String)>) -> (r: String)
    ensures
        r@ == rules_text(views(names@), contents@, 0, ""@),
{
    let ghost all = views(names@);
    let mut text = "".to_owned();
    let mut i: usize = 0;
    while i < names.len()
        invariant
            i <= names@.len(),
            all == views(names@),
            rules_text(all, contents@, 0, ""@) == rules_text(all, contents@, i as int, text@),
        decreases names@.len() - i,
    {
        assert(all[i as int] == names@[i as int]@);
        match find_text(contents, names[i].as_str()) {
            None => {},
            Some(content) => {
                let mut section = "### ".to_owned();
                section.push_str(strip_md(names[i].as_str()).as_str());
                section.push_str("\n\n");
                section.push_str(content.as_str());
                section.push_str("\n");
                let so_far: u128 = estimate_tokens(text.as_str()) as u128;
                let more: u128 = estimate_tokens(section.as_str()) as u128;
                if so_far + more > MAX_RULES_TOKENS {
                    return text;
                }
                let mut longer = text.clone();
                longer.push_str(section.as_str());
                if estimate_tokens(longer.as_str()) as u128 > MAX_RULES_TOKENS {
                    return text;
                }
                text = longer;
            },
        }
        i += 1;
    }
    text
}

impl PromptBuilder {
    /// The rule files that apply to the changed files.
    pub open spec fn applicable(self, files: Seq<DiffFile>) -> Option<Seq<Seq<char>>> {
        match self.rule_index {
            None => Some(Seq::empty()),
            Some(index) => matched_rules(index.rules@, files),
        }
    }

    /// The rules that apply to the changed files, as the text of their sections
    /// within the token budget; nothing where a pattern is out of order.
    pub fn try_resolve_rules(&self, files: &Vec<DiffFile>) -> (r: Option<ResolvedRules>)
        ensures
            match r {
                Some(rules) => self.applicable(files@) matches Some(names) && rules.count
                    == names.len() && rules.text@ == rules_text(
                    names,
                    self.rule_contents@,
                    0,
                    ""@,
                ) && tokens_of(rules.text@) <= MAX_RULES_TOKENS,
                None => self.applicable(files@) is None,
            },
    {
        proof {
            reveal_strlit("");
        }
        match &self.rule_index {
            None => Some(ResolvedRules { text: "".to_owned(), count: 0 }),
            Some(index) => match match_rules(&index.rules, files) {
                None => None,
                Some(names) => {
                    assert(views(names@).len() == names@.len());
                    proof {
                        rules_within_budget(views(names@), self.rule_contents@);
                    }
                    Some(
                        ResolvedRules {
                            text: write_rules(&names, &self.rule_contents),
                            count: names.len(),
                        },
                    )
                },
            },
        }
    }

    /// The rules that apply to the changed files, as the text of their sections
    /// within the token budget.
    pub fn resolve_rules(&self, files: &Vec<DiffFile>) -> (r: ResolvedRules)
        requires
            self.applicable(files@) is Some,
        ensures
            ({
                let names = self.applicable(files@).unwrap();
                &&& r.count == names.len()
                &&& r.text@ == rules_text(names, self.rule_contents@, 0, ""@)
                &&& tokens_of(r.text@) <= MAX_RULES_TOKENS
            }),
    {
        match self.try_resolve_rules(files) {
            Some(r) => r,
            None => ResolvedRules { text: "".to_owned(), count: 0 },
        }
    }

    /// The system prompt with the text of the rules in its place.
    pub fn system_prompt(&self, rules_text: &str) -> (r: String)
        ensures
            r@ == replace(self.system_prompt@, "{system_rule}"@, rules_text@),
    {
        proof {
            reveal_strlit("{system_rule}");
        }
        text_replace(self.system_prompt.as_str(), "{system_rule}", rules_text)
    }

    /// The estimated tokens of the system prompt with the rules in it.
    pub fn system_prompt_tokens(&self, rules_text: &str) -> (r: usize)
        ensures
            r == tokens_of(replace(self.system_prompt@, "{system_rule}"@, rules_text@)),
    {
        estimate_tokens(self.system_prompt(rules_text).as_str())
    }
}

/// The text of the rules never goes over the budget.
pub proof fn rules_within_budget(names: Seq<Seq<char>>, contents: Seq<(String, String)>)
    ensures
        tokens_of(rules_text(names, contents, 0, ""@)) <= MAX_RULES_TOKENS,
{
    reveal_strlit("");
    lemma_rules_within_budget(names, contents, 0, ""@);
}

proof fn lemma_rules_within_budget(
    names: Seq<Seq<char>>,
    contents: Seq<(String, String)>,
    i: int,
    text: Seq<char>,
)
    requires
        tokens_of(text) <= MAX_RULES_TOKENS,
    ensures
        tokens_of(rules_text(names, contents, i, text)) <= MAX_RULES_TOKENS,
    decreases names.len() - i,
{
    if 0 <= i < names.len() {
        match text_under(contents, names[i]) {
            None => {
                lemma_rules_within_budget(names, contents, i + 1, text);
            },
            Some(content) => {
                let section = rule_section(names[i], content);
                if fits_behind(text, section) {
                    lemma_rules_within_budget(names, contents, i + 1, text + section);
                }
            },
        }
    }
}

// ---------------------------------------------------------------------------
// Languages

/// How often a text occurs in a list.
pub open spec fn occurrences(all: Seq<Seq<char>>, x: Seq<char>) -> nat
    decreases all.len(),
{
    if all.len() == 0 {
        0
    } else {
        occurrences(all.drop_last(), x) + if all.last() == x {
            1nat
        } else {
            0nat
        }
    }
}

/// The entry at `i` is the most frequent one of the list, and the first such.
pub open spec fn is_most_frequent(all: Seq<Seq<char>>, i: int) -> bool {
    &&& 0 <= i < all.len()
    &&& forall|j: int|
        0 <= j < all.len() ==> occurrences(all, #[trigger] all[j]) <= occurrences(all, all[i])
    &&& forall|j: int|
        0 <= j < i ==> occurrences(all, #[trigger] all[j]) < occurrences(all, all[i])
}

/// The most frequent text of a list, of several the one that occurs first;
/// `Unknown` for the empty list.
pub open spec fn most_frequent(all: Seq<Seq<char>>) -> Seq<char> {
    if all.len() == 0 {
        "Unknown"@
    } else {
        all[choose|i: int| is_most_frequent(all, i)]
    }
}

fn count_occurrences(all: &Vec<String>, x: &str) -> (r: usize)
    ensures
        r == occurrences(views(all@), x@),
{
    let ghost v = views(all@);
    let mut n: usize = 0;
    let mut i: usize = 0;
    while i < all.len()
        invariant
            i <= all@.len(),
            n <= i,
            v == views(all@),
            n == occurrences(v.take(i as int), x@),
        decreases all@.len() - i,
    {
        assert(v.take(i + 1).drop_last() =~= v.take(i as int));
        assert(v.take(i + 1).last() == all@[i as int]@);
        if same(all[i].as_str(), x) {
            n += 1;
        }
        i += 1;
    }
    assert(v.take(i as int) =~= v);
    n
}

fn find_most_frequent(all: &Vec<String>) -> (r: String)
    ensures
        r@ == most_frequent(views(all@)),
{
    if all.len() == 0 {
        return "Unknown".to_owned();
    }
    let ghost v = views(all@);
    let mut best: usize = 0;
    assert(v[0] == all@[0]@);
    let mut most: usize = count_occurrences(all, all[0].as_str());
    let mut i: usize = 1;
    while i < all.len()
        invariant
            best < i <= all@.len(),
            v == views(all@),
            most == occurrences(v, v[best as int]),
            forall|j: int| 0 <= j < i ==> occurrences(v, #[trigger] v[j]) <= most,
            forall|j: int| 0 <= j < best ==> occurrences(v, #[trigger] v[j]) < most,
        decreases all@.len() - i,
    {
        assert(v[i as int] == all@[i as int]@);
        let n: usize = count_occurrences(all, all[i].as_str());
        if n > most {
            best = i;
            most = n;
        }
        i += 1;
    }
    proof {
        assert(is_most_frequent(v, best as int));
        let k = choose|k: int| is_most_frequent(v, k);
        assert(is_most_frequent(v, k));
        assert(k == best);
        assert(v[best as int] == all@[best as int]@);
    }
    all[best].clone()
}

/// The languages of changed files.
pub open spec fn diff_languages(files: Seq<DiffFile>) -> Seq<Seq<char>> {
    files.map_values(|f: DiffFile| language_of(f.filename@))
}

/// The languages of source files.
pub open spec fn content_languages(files: Seq<FileContent>) -> Seq<Seq<char>> {
    files.map_values(|f: FileContent| f.language@)
}

// ---------------------------------------------------------------------------
// Lists of files

pub open spec fn status_word(status: DiffStatus) -> Seq<char> {
    match status {
        DiffStatus::Added => "added"@,
        DiffStatus::Modified => "modified"@,
        DiffStatus::Deleted => "deleted"@,
        DiffStatus::Renamed => "renamed"@,
        DiffStatus::Copied => "copied"@,
    }
}

pub open spec fn diff_bullet(f: DiffFile) -> Seq<char> {
    "- `"@ + f.filename@ + "` ("@ + status_word(f.status) + " — +"@ + decimal(f.additions as nat)
        + " −"@ + decimal(f.deletions as nat) + ")\n"@
}

pub open spec fn diff_bullets(files: Seq<DiffFile>) -> Seq<char>
    decreases files.len(),
{
    if files.len() == 0 {
        Seq::empty()
    } else {
        diff_bullets(files.drop_last()) + diff_bullet(files.last())
    }
}

/// The list of changed files in the prompt.
pub open spec fn diff_list(files: Seq<DiffFile>) -> Seq<char> {
    if files.len() == 0 {
        "- (no reviewable files)"@
    } else {
        diff_bullets(files)
    }
}

pub open spec fn content_bullet(f: FileContent) -> Seq<char> {
    "- `"@ + f.path@ + "` ("@ + f.language@ + " — "@ + decimal(f.line_count as nat) + " lines)\n"@
}

pub open spec fn content_bullets(files: Seq<FileContent>) -> Seq<char>
    decreases files.len(),
{
    if files.len() == 0 {
        Seq::empty()
    } else {
        content_bullets(files.drop_last()) + content_bullet(files.last())
    }
}

/// The list of source files in the prompt.
pub open spec fn content_list(files: Seq<FileContent>) -> Seq<char> {
    if files.len() == 0 {
        "- (no files)"@
    } else {
        content_bullets(files)
    }
}

/// A source file in the prompt: a heading and the text in a fence. A fence in
/// the text is escaped.
pub open spec fn file_block(f: FileContent) -> Seq<char> {
    let escaped = replace(f.content@, "```"@, "\\`\\`\\`"@);
    let body = if escaped.len() > 0 && escaped.last() == '\n' {
        escaped
    } else {
        escaped.push('\n')
    };
    "### File: "@ + f.path@ + " ("@ + f.language@ + ")\n\n```"@ + lowercased(f.language@) + "\n"@
        + body + "```\n\n"@
}

/// The source files in the prompt.
pub open spec fn file_blocks(files: Seq<FileContent>) -> Seq<char>
    decreases files.len(),
{
    if files.len() == 0 {
        Seq::empty()
    } else {
        file_blocks(files.drop_last()) + file_block(files.last())
    }
}

fn write_file_block(f: &FileContent) -> (r: String)
    ensures
        r@ == file_block(*f),
{
    proof {
        reveal_strlit("```");
    }
    let mut out = "### File: ".to_owned();
    out.push_str(f.path.as_str());
    out.push_str(" (");
    out.push_str(f.language.as_str());
    out.push_str(")\n\n```");
    out.push_str(f.language.as_str().to_lowercase().as_str());
    out.push_str("\n");
    let mut body = text_replace(f.content.as_str(), "```", "\\`\\`\\`");
    let v = chars_of(body.as_str());
    if !(v.len() > 0 && v[v.len() - 1] == '\n') {
        body.push('\n');
    }
    out.push_str(body.as_str());
    out.push_str("```\n\n");
    out
}

/// Writes the source files for the prompt.
pub fn format_file_context(files: &Vec<FileContent>) -> (r: String)
    ensures
        r@ == file_blocks(files@),
{
    let mut out = String::new();
    let mut i: usize = 0;
    while i < files.len()
        invariant
            i <= files@.len(),
            out@ == file_blocks(files@.take(i as int)),
        decreases files@.len() - i,
    {
        assert(files@.take(i + 1).drop_last() =~= files@.take(i as int));
        out.push_str(write_file_block(&files[i]).as_str());
        i += 1;
    }
    assert(files@.take(i as int) =~= files@);
    out
}

// ---------------------------------------------------------------------------
// The user prompt

/// The part of the prompt that tells of the pull request. Without an owner there
/// is none, and nothing to tell.
pub open spec fn metadata_section(ctx: ContextView, language: Seq<char>) -> Seq<char> {
    if ctx.owner.len() == 0 {
        ""@
    } else {
        "## PR: "@ + ctx.title + "\n\n**Repository:** "@ + ctx.owner + "/"@ + ctx.repo
            + "\n**Author:** "@ + ctx.author + "\n**Branch:** "@ + ctx.branch + " → "@ + ctx.base
            + "\n**Language:** "@ + language + "\n**Description:** "@ + ctx.description
    }
}

/// The part of the prompt that holds further instructions.
pub open spec fn extra_section(extra: Seq<char>) -> Seq<char> {
    if extra.len() == 0 {
        ""@
    } else {
        "### Additional Instructions\n\n"@ + extra + "\n"@
    }
}

/// A template with its placeholders filled, one after the other.
pub open spec fn filled(
    template: Seq<char>,
    ctx: ContextView,
    language: Seq<char>,
    total_files: nat,
    file_list: Seq<char>,
    extra: Seq<char>,
    content: Seq<char>,
) -> Seq<char> {
    let s = replace(template, "{title}"@, ctx.title);
    let s = replace(s, "{pr_metadata}"@, metadata_section(ctx, language));
    let s = replace(s, "{owner}"@, ctx.owner);
    let s = replace(s, "{repo}"@, ctx.repo);
    let s = replace(s, "{author}"@, ctx.author);
    let s = replace(s, "{branch}"@, ctx.branch);
    let s = replace(s, "{base}"@, ctx.base);
    let s = replace(s, "{language}"@, language);
    let s = replace(s, "{description}"@, ctx.description);
    let s = replace(s, "{total_files}"@, decimal(total_files));
    let s = replace(s, "{file_list}"@, file_list);
    let s = replace(s, "{extra_instructions}"@, extra_section(extra));
    replace(s, "{content_format}"@, content)
}

fn fill(
    template: &str,
    ctx: &PromptContext<'_>,
    language: &str,
    metadata: &str,
    total_files: usize,
    file_list: &str,
    extra: &str,
    content: &str,
) -> (r: String)
    requires
        metadata@ == metadata_section(ctx@, language@),
    ensures
        r@ == filled(
            template@,
            ctx@,
            language@,
            total_files as nat,
            file_list@,
            extra@,
            content@,
        ),
{
    proof {
        reveal_strlit("{title}");
        reveal_strlit("{pr_metadata}");
        reveal_strlit("{owner}");
        reveal_strlit("{repo}");
        reveal_strlit("{author}");
        reveal_strlit("{branch}");
        reveal_strlit("{base}");
        reveal_strlit("{language}");
        reveal_strlit("{description}");
        reveal_strlit("{total_files}");
        reveal_strlit("{file_list}");
        reveal_strlit("{extra_instructions}");
        reveal_strlit("{content_format}");
    }
    let mut instructions = "".to_owned();
    if !extra.is_empty() {
        instructions = "### Additional Instructions\n\n".to_owned();
        instructions.push_str(extra);
        instructions.push_str("\n");
    }
    let s = text_replace(template, "{title}", ctx.title);
    let s = text_replace(s.as_str(), "{pr_metadata}", metadata);
    let s = text_replace(s.as_str(), "{owner}", ctx.owner);
    let s = text_replace(s.as_str(), "{repo}", ctx.repo);
    let s = text_replace(s.as_str(), "{author}", ctx.author);
    let s = text_replace(s.as_str(), "{branch}", ctx.branch);
    let s = text_replace(s.as_str(), "{base}", ctx.base);
    let s = text_replace(s.as_str(), "{language}", language);
    let s = text_replace(s.as_str(), "{description}", ctx.description);
    let s = text_replace(s.as_str(), "{total_files}", decimal_of(total_files as u64).as_str());
    let s = text_replace(s.as_str(), "{file_list}", file_list);
    let s = text_replace(s.as_str(), "{extra_instructions}", instructions.as_str());
    text_replace(s.as_str(), "{content_format}", content)
}

/// The language that the prompt names for a diff: in the domain `code` the most
/// frequent one of the files, where that is not known the hint, else nothing.
pub open spec fn diff_language(
    domain: Seq<char>,
    ctx: ContextView,
    files: Seq<DiffFile>,
) -> Seq<char> {
    if domain == "code"@ {
        let detected = most_frequent(diff_languages(files));
        if detected != "Unknown"@ {
            detected
        } else {
            match ctx.language_hint {
                Some(h) => h,
                None => "Unknown"@,
            }
        }
    } else {
        ""@
    }
}

/// The language that the prompt names for source files: the most frequent one,
/// where that is not known the hint.
pub open spec fn content_language(ctx: ContextView, files: Seq<FileContent>) -> Seq<char> {
    let detected = most_frequent(content_languages(files));
    if detected != "Unknown"@ {
        detected
    } else {
        match ctx.language_hint {
            Some(h) => h,
            None => "Unknown"@,
        }
    }
}

impl PromptBuilder {
    /// The user prompt for a diff.
    pub open spec fn diff_prompt(
        self,
        ctx: ContextView,
        files: Seq<DiffFile>,
        extra: Seq<char>,
    ) -> Seq<char> {
        filled(
            self.user_template@,
            ctx,
            diff_language(self.domain@, ctx, files),
            files.len(),
            diff_list(files),
            extra,
            "### Diff\n\n```\n"@ + context_text(files) + "\n```"@,
        )
    }

    /// The user prompt for source files.
    pub open spec fn content_prompt(
        self,
        ctx: ContextView,
        files: Seq<FileContent>,
        extra: Seq<char>,
    ) -> Seq<char> {
        filled(
            self.user_template@,
            ctx,
            content_language(ctx, files),
            files.len(),
            content_list(files),
            extra,
            "### File Contents\n\n"@ + file_blocks(files),
        )
    }

    /// Fills the user prompt template for a diff.
    pub fn user_prompt(&self, ctx: &PromptContext<'_>, files: &Vec<DiffFile>, extra: &str) -> (r:
        String)
        ensures
            r@ == self.diff_prompt(ctx@, files@, extra@),
    {
        let language = self.detect_language(ctx, files);
        let list = self.format_file_list(files);
        let mut content = "### Diff\n\n```\n".to_owned();
        content.push_str(format_diff_context(files).as_str());
        content.push_str("\n```");
        let metadata = self.pr_metadata_section(ctx, language.as_str());
        fill(
            self.user_template.as_str(),
            ctx,
            language.as_str(),
            metadata.as_str(),
            files.len(),
            list.as_str(),
            extra,
            content.as_str(),
        )
    }

    /// Fills the user prompt template for source files.
    pub fn user_prompt_for_files(
        &self,
        ctx: &PromptContext<'_>,
        files: &Vec<FileContent>,
        extra: &str,
    ) -> (r: String)
        ensures
            r@ == self.content_prompt(ctx@, files@, extra@),
    {
        let detected = PromptBuilder::detect_primary_from_files(files);
        let language = if same(detected.as_str(), "Unknown") {
            match ctx.language_hint {
                Some(h) => h.to_owned(),
                None => detected,
            }
        } else {
            detected
        };
        let list = self.format_file_list_from_files(files);
        let mut content = "### File Contents\n\n".to_owned();
        content.push_str(format_file_context(files).as_str());
        let metadata = self.pr_metadata_section(ctx, language.as_str());
        fill(
            self.user_template.as_str(),
            ctx,
            language.as_str(),
            metadata.as_str(),
            files.len(),
            list.as_str(),
            extra,
            content.as_str(),
        )
    }

    /// Writes the part of the prompt that tells of the pull request; nothing
    /// without an owner.
    pub fn pr_metadata_section(&self, ctx: &PromptContext<'_>, language: &str) -> (r: String)
        ensures
            r@ == metadata_section(ctx@, language@),
    {
        if ctx.owner.is_empty() {
            return "".to_owned();
        }
        let mut out = "## PR: ".to_owned();
        out.push_str(ctx.title);
        out.push_str("\n\n**Repository:** ");
        out.push_str(ctx.owner);
        out.push_str("/");
        out.push_str(ctx.repo);
        out.push_str("\n**Author:** ");
        out.push_str(ctx.author);
        out.push_str("\n**Branch:** ");
        out.push_str(ctx.branch);
        out.push_str(" → ");
        out.push_str(ctx.base);
        out.push_str("\n**Language:** ");
        out.push_str(language);
        out.push_str("\n**Description:** ");
        out.push_str(ctx.description);
        out
    }

    /// The language that the prompt names for a diff.
    pub fn detect_language(&self, ctx: &PromptContext<'_>, files: &Vec<DiffFile>) -> (r: String)
        ensures
            r@ == diff_language(self.domain@, ctx@, files@),
    {
        if !same(self.domain.as_str(), "code") {
            return "".to_owned();
        }
        let detected = self.detect_primary_language(files);
        if !same(detected.as_str(), "Unknown") {
            return detected;
        }
        match ctx.language_hint {
            Some(h) => h.to_owned(),
            None => "Unknown".to_owned(),
        }
    }

    /// The most frequent language of changed files, of several the one that
    /// occurs first; `Unknown` where there are no files.
    pub fn detect_primary_language(&self, files: &Vec<DiffFile>) -> (r: String)
        ensures
            r@ == most_frequent(diff_languages(files@)),
    {
        let mut all: Vec<String> = Vec::new();
        let mut i: usize = 0;
        while i < files.len()
            invariant
                i <= files@.len(),
                views(all@) =~= diff_languages(files@).take(i as int),
            decreases files@.len() - i,
        {
            let language = detect_language(files[i].filename.as_str()).to_owned();
            proof {
                lemma_views_push(all@, language);
                assert(diff_languages(files@).take(i + 1) =~= diff_languages(files@).take(
                    i as int,
                ).push(language@));
            }
            all.push(language);
            i += 1;
        }
        assert(diff_languages(files@).take(i as int) =~= diff_languages(files@));
        find_most_frequent(&all)
    }

    /// The most frequent language of source files, of several the one that
    /// occurs first; `Unknown` where there are no files.
    pub fn detect_primary_from_files(files: &Vec<FileContent>) -> (r: String)
        ensures
            r@ == most_frequent(content_languages(files@)),
    {
        let mut all: Vec<String> = Vec::new();
        let mut i: usize = 0;
        while i < files.len()
            invariant
                i <= files@.len(),
                views(all@) =~= content_languages(files@).take(i as int),
            decreases files@.len() - i,
        {
            let language = files[i].language.clone();
            proof {
                lemma_views_push(all@, language);
                assert(content_languages(files@).take(i + 1) =~= content_languages(files@).take(
                    i as int,
                ).push(language@));
            }
            all.push(language);
            i += 1;
        }
        assert(content_languages(files@).take(i as int) =~= content_languages(files@));
        find_most_frequent(&all)
    }

    /// Writes the list of changed files for the prompt.
    pub fn format_file_list(&self, files: &Vec<DiffFile>) -> (r: String)
        ensures
            r@ == diff_list(files@),
    {
        if files.len() == 0 {
            return "- (no reviewable files)".to_owned();
        }
        let mut out = String::new();
        let mut i: usize = 0;
        while i < files.len()
            invariant
                i <= files@.len(),
                out@ == diff_bullets(files@.take(i as int)),
            decreases files@.len() - i,
        {
            assert(files@.take(i + 1).drop_last() =~= files@.take(i as int));
            let status = match files[i].status {
                DiffStatus::Added => "added",
                DiffStatus::Modified => "modified",
                DiffStatus::Deleted => "deleted",
                DiffStatus::Renamed => "renamed",
                DiffStatus::Copied => "copied",
            };
            let mut bullet = "- `".to_owned();
            bullet.push_str(files[i].filename.as_str());
            bullet.push_str("` (");
            bullet.push_str(status);
            bullet.push_str(" — +");
            bullet.push_str(decimal_of(files[i].additions).as_str());
            bullet.push_str(" −");
            bullet.push_str(decimal_of(files[i].deletions).as_str());
            bullet.push_str(")\n");
            out.push_str(bullet.as_str());
            i += 1;
        }
        assert(files@.take(i as int) =~= files@);
        out
    }

    /// Writes the list of source files for the prompt.
    pub fn format_file_list_from_files(&self, files: &Vec<FileContent>) -> (r: String)
        ensures
            r@ == content_list(files@),
    {
        if files.len() == 0 {
            return "- (no files)".to_owned();
        }
        let mut out = String::new();
        let mut i: usize = 0;
        while i < files.len()
            invariant
                i <= files@.len(),
                out@ == content_bullets(files@.take(i as int)),
            decreases files@.len() - i,
        {
            assert(files@.take(i + 1).drop_last() =~= files@.take(i as int));
            let mut bullet = "- `".to_owned();
            bullet.push_str(files[i].path.as_str());
            bullet.push_str("` (");
            bullet.push_str(files[i].language.as_str());
            bullet.push_str(" — ");
            bullet.push_str(decimal_of(files[i].line_count).as_str());
            bullet.push_str(" lines)\n");
            out.push_str(bullet.as_str());
            i += 1;
        }
        assert(files@.take(i as int) =~= files@);
        out
    }
}

// ---------------------------------------------------------------------------
// What the prompts show

/// The slots of a template are names in braces, and the one for the content is none of
/// the others.
proof fn lemma_slots()
    ensures
        is_slot("{title}"@),
        is_slot("{pr_metadata}"@),
        is_slot("{owner}"@),
        is_slot("{repo}"@),
        is_slot("{author}"@),
        is_slot("{branch}"@),
        is_slot("{base}"@),
        is_slot("{language}"@),
        is_slot("{description}"@),
        is_slot("{total_files}"@),
        is_slot("{file_list}"@),
        is_slot("{extra_instructions}"@),
        is_slot("{content_format}"@),
        "{title}"@ != "{content_format}"@,
        "{pr_metadata}"@ != "{content_format}"@,
        "{owner}"@ != "{content_format}"@,
        "{repo}"@ != "{content_format}"@,
        "{author}"@ != "{content_format}"@,
        "{branch}"@ != "{content_format}"@,
        "{base}"@ != "{content_format}"@,
        "{language}"@ != "{content_format}"@,
        "{description}"@ != "{content_format}"@,
        "{total_files}"@ != "{content_format}"@,
        "{file_list}"@ != "{content_format}"@,
        "{extra_instructions}"@ != "{content_format}"@,
{
    reveal_strlit("{title}");
    reveal_strlit("{pr_metadata}");
    reveal_strlit("{owner}");
    reveal_strlit("{repo}");
    reveal_strlit("{author}");
    reveal_strlit("{branch}");
    reveal_strlit("{base}");
    reveal_strlit("{language}");
    reveal_strlit("{description}");
    reveal_strlit("{total_files}");
    reveal_strlit("{file_list}");
    reveal_strlit("{extra_instructions}");
    reveal_strlit("{content_format}");
    assert("{content_format}"@.len() == 16);
    assert("{title}"@.len() == 7 && "{title}"@[1] == 't');
    assert("{pr_metadata}"@.len() == 13 && "{pr_metadata}"@[1] == 'p');
    assert("{owner}"@.len() == 7 && "{owner}"@[1] == 'o');
    assert("{repo}"@.len() == 6 && "{repo}"@[1] == 'r');
    assert("{author}"@.len() == 8 && "{author}"@[1] == 'a');
    assert("{branch}"@.len() == 8 && "{branch}"@[1] == 'b');
    assert("{base}"@.len() == 6 && "{base}"@[1] == 'b');
    assert("{language}"@.len() == 10 && "{language}"@[1] == 'l');
    assert("{description}"@.len() == 13 && "{description}"@[1] == 'd');
    assert("{total_files}"@.len() == 13 && "{total_files}"@[1] == 't');
    assert("{file_list}"@.len() == 11 && "{file_list}"@[1] == 'f');
    assert("{extra_instructions}"@.len() == 20 && "{extra_instructions}"@[1] == 'e');
    assert("{content_format}"@.len() == 16 && "{content_format}"@[1] == 'c');
}

proof fn lemma_slot_survives(s: Seq<char>, m: Seq<char>, p: Seq<char>, x: Seq<char>)
    requires
        is_slot(m),
        is_slot(p),
        m != p,
        contains(s, m),
    ensures
        contains(replace(s, p, x), m),
{
    let r = lemma_contained_splits(s, m);
    other_slots_are_kept(r.0, m, r.1, p, x);
    parts_are_contained(replace(r.0, p, x), m, replace(r.1, p, x));
}

/// Whatever a template is filled with, the content is in the prompt as a whole where
/// the template has a slot for it.
pub proof fn prompts_show_their_content(
    template: Seq<char>,
    ctx: ContextView,
    language: Seq<char>,
    total_files: nat,
    file_list: Seq<char>,
    extra: Seq<char>,
    content: Seq<char>,
)
    requires
        contains(template, "{content_format}"@),
    ensures
        contains(filled(template, ctx, language, total_files, file_list, extra, content), content),
{
    lemma_slots();
    let m = "{content_format}"@;
    let s0 = template;
    lemma_slot_survives(s0, m, "{title}"@, ctx.title);
    let s1 = replace(s0, "{title}"@, ctx.title);
    lemma_slot_survives(s1, m, "{pr_metadata}"@, metadata_section(ctx, language));
    let s2 = replace(s1, "{pr_metadata}"@, metadata_section(ctx, language));
    lemma_slot_survives(s2, m, "{owner}"@, ctx.owner);
    let s3 = replace(s2, "{owner}"@, ctx.owner);
    lemma_slot_survives(s3, m, "{repo}"@, ctx.repo);
    let s4 = replace(s3, "{repo}"@, ctx.repo);
    lemma_slot_survives(s4, m, "{author}"@, ctx.author);
    let s5 = replace(s4, "{author}"@, ctx.author);
    lemma_slot_survives(s5, m, "{branch}"@, ctx.branch);
    let s6 = replace(s5, "{branch}"@, ctx.branch);
    lemma_slot_survives(s6, m, "{base}"@, ctx.base);
    let s7 = replace(s6, "{base}"@, ctx.base);
    lemma_slot_survives(s7, m, "{language}"@, language);
    let s8 = replace(s7, "{language}"@, language);
    lemma_slot_survives(s8, m, "{description}"@, ctx.description);
    let s9 = replace(s8, "{description}"@, ctx.description);
    lemma_slot_survives(s9, m, "{total_files}"@, decimal(total_files));
    let s10 = replace(s9, "{total_files}"@, decimal(total_files));
    lemma_slot_survives(s10, m, "{file_list}"@, file_list);
    let s11 = replace(s10, "{file_list}"@, file_list);
    lemma_slot_survives(s11, m, "{extra_instructions}"@, extra_section(extra));
    let s12 = replace(s11, "{extra_instructions}"@, extra_section(extra));
    replaced_text_is_there(s12, m, content);
}

/// The prompt for a diff shows the unified diff of every file that it is about.
pub proof fn prompts_show_every_diff(
    pb: PromptBuilder,
    ctx: ContextView,
    files: Seq<DiffFile>,
    extra: Seq<char>,
    i: int,
)
    requires
        contains(pb.user_template@, "{content_format}"@),
        0 <= i < files.len(),
    ensures
        contains(pb.diff_prompt(ctx, files, extra), file_text(files[i])),
        contains(pb.diff_prompt(ctx, files, extra), context_text(files)),
{
    let whole = context_text(files);
    let content = "### Diff\n\n```\n"@ + whole + "\n```"@;
    prompts_show_their_content(
        pb.user_template@,
        ctx,
        diff_language(pb.domain@, ctx, files),
        files.len(),
        diff_list(files),
        extra,
        content,
    );
    parts_are_contained("### Diff\n\n```\n"@, whole, "\n```"@);
    contains_is_transitive(pb.diff_prompt(ctx, files, extra), content, whole);
    every_file_is_shown(files, i);
    parts_are_contained(
        context_text(files.take(i)),
        file_text(files[i]),
        context_text(files.skip(i + 1)),
    );
    contains_is_transitive(pb.diff_prompt(ctx, files, extra), whole, file_text(files[i]));
}

/// Source files are shown one after the other: none changes how another is shown, and
/// one is shown under its path, in a fence.
pub proof fn source_files_are_shown_one_after_the_other(
    a: Seq<FileContent>,
    b: Seq<FileContent>,
    f: FileContent,
)
    ensures
        file_blocks(a + b) == file_blocks(a) + file_blocks(b),
        file_blocks(seq![f]) == file_block(f),
        file_blocks(Seq::empty()) == Seq::<char>::empty(),
        contains(file_block(f), "### File: "@ + f.path@ + " ("@ + f.language@ + ")\n\n```"@),
        !contains(f.content@, "```"@) ==> contains(file_block(f), f.content@),
    decreases b.len(),
{
    reveal_with_fuel(file_blocks, 2);
    assert(seq![f].drop_last() =~= Seq::<FileContent>::empty());
    assert(file_blocks(seq![f]) =~= file_block(f));
    let escaped = replace(f.content@, "```"@, "\\`\\`\\`"@);
    let body = if escaped.len() > 0 && escaped.last() == '\n' {
        escaped
    } else {
        escaped.push('\n')
    };
    let heading = "### File: "@ + f.path@ + " ("@ + f.language@ + ")\n\n```"@;
    let none = Seq::<char>::empty();
    parts_are_contained(
        none,
        heading,
        lowercased(f.language@) + "\n"@ + body + "```\n\n"@,
    );
    assert(none + heading + (lowercased(f.language@) + "\n"@ + body + "```\n\n"@) =~= file_block(
        f,
    ));
    if !contains(f.content@, "```"@) {
        other_text_is_not_replaced(f.content@, "```"@, "\\`\\`\\`"@);
        let front = heading + lowercased(f.language@) + "\n"@;
        if body == escaped {
            parts_are_contained(front, f.content@, "```\n\n"@);
            assert(front + f.content@ + "```\n\n"@ =~= file_block(f));
        } else {
            parts_are_contained(front, f.content@, seq!['\n'] + "```\n\n"@);
            assert(front + f.content@ + (seq!['\n'] + "```\n\n"@) =~= file_block(f));
        }
    }
    if b.len() == 0 {
        assert(a + b =~= a);
        assert(file_blocks(a) + file_blocks(b) =~= file_blocks(a));
    } else {
        source_files_are_shown_one_after_the_other(a, b.drop_last(), f);
        assert((a + b).drop_last() =~= a + b.drop_last());
        assert(file_blocks(a + b) =~= file_blocks(a) + file_blocks(b));
    }
}

/// The prompt for source files shows every one of them.
pub proof fn prompts_show_every_file(
    pb: PromptBuilder,
    ctx: ContextView,
    files: Seq<FileContent>,
    extra: Seq<char>,
    i: int,
)
    requires
        contains(pb.user_template@, "{content_format}"@),
        0 <= i < files.len(),
    ensures
        contains(pb.content_prompt(ctx, files, extra), file_block(files[i])),
        contains(
            pb.content_prompt(ctx, files, extra),
            "### File: "@ + files[i].path@ + " ("@ + files[i].language@ + ")\n\n```"@,
        ),
        !contains(files[i].content@, "```"@) ==> contains(
            pb.content_prompt(ctx, files, extra),
            files[i].content@,
        ),
{
    let prompt = pb.content_prompt(ctx, files, extra);
    let whole = file_blocks(files);
    let content = "### File Contents\n\n"@ + whole;
    prompts_show_their_content(
        pb.user_template@,
        ctx,
        content_language(ctx, files),
        files.len(),
        content_list(files),
        extra,
        content,
    );
    let front = files.take(i);
    let one = seq![files[i]];
    let rest = files.skip(i + 1);
    assert(files =~= front + one + rest);
    source_files_are_shown_one_after_the_other(front + one, rest, files[i]);
    source_files_are_shown_one_after_the_other(front, one, files[i]);
    let block = file_block(files[i]);
    parts_are_contained("### File Contents\n\n"@ + file_blocks(front), block, file_blocks(rest));
    assert("### File Contents\n\n"@ + file_blocks(front) + block + file_blocks(rest) =~= content);
    contains_is_transitive(prompt, content, block);
    contains_is_transitive(
        prompt,
        block,
        "### File: "@ + files[i].path@ + " ("@ + files[i].language@ + ")\n\n```"@,
    );
    if !contains(files[i].content@, "```"@) {
        contains_is_transitive(prompt, block, files[i].content@);
    }
}

/// A piece of a template: words, or the name of a slot.
pub enum Piece {
    Words(Seq<char>),
    Slot(Seq<char>),
}

/// A piece as it stands in a template.
pub open spec fn piece_text(p: Piece) -> Seq<char> {
    match p {
        Piece::Words(w) => w,
        Piece::Slot(n) => n,
    }
}

/// The pieces one after the other.
pub open spec fn pieces_text(pieces: Seq<Piece>) -> Seq<char>
    decreases pieces.len(),
{
    if pieces.len() == 0 {
        Seq::empty()
    } else {
        piece_text(pieces[0]) + pieces_text(pieces.subrange(1, pieces.len() as int))
    }
}

/// Words hold no opening brace, and slots are names in braces.
pub open spec fn tidy_pieces(pieces: Seq<Piece>) -> bool {
    forall|i: int|
        0 <= i < pieces.len() ==> match #[trigger] pieces[i] {
            Piece::Words(w) => !w.contains('{'),
            Piece::Slot(n) => is_slot(n),
        }
}

/// A piece with the value of the slot in place of the slot.
pub open spec fn put_in(p: Piece, slot: Seq<char>, value: Seq<char>) -> Piece {
    match p {
        Piece::Slot(n) => if n == slot {
            Piece::Words(value)
        } else {
            p
        },
        Piece::Words(_) => p,
    }
}

proof fn lemma_slot_filled(pieces: Seq<Piece>, slot: Seq<char>, value: Seq<char>)
    requires
        tidy_pieces(pieces),
        is_slot(slot),
    ensures
        replace(pieces_text(pieces), slot, value) == pieces_text(
            pieces.map_values(|p: Piece| put_in(p, slot, value)),
        ),
        !value.contains('{') ==> tidy_pieces(
            pieces.map_values(|p: Piece| put_in(p, slot, value)),
        ),
    decreases pieces.len(),
{
    let put = |p: Piece| put_in(p, slot, value);
    let out = pieces.map_values(put);
    if pieces.len() == 0 {
        assert(find_from(pieces_text(pieces), slot, 0) is None);
        assert(pieces_text(out) =~= replace(pieces_text(pieces), slot, value));
    } else {
        let rest = pieces.subrange(1, pieces.len() as int);
        assert(tidy_pieces(rest)) by {
            assert forall|i: int| 0 <= i < rest.len() implies match #[trigger] rest[i] {
                Piece::Words(w) => !w.contains('{'),
                Piece::Slot(n) => is_slot(n),
            } by {
                assert(rest[i] == pieces[i + 1]);
            }
        }
        lemma_slot_filled(rest, slot, value);
        assert(out.subrange(1, out.len() as int) =~= rest.map_values(put));
        match pieces[0] {
            Piece::Words(w) => {
                lemma_replace_plain(w, pieces_text(rest), slot, value);
            },
            Piece::Slot(n) => {
                lemma_replace_slot(n, pieces_text(rest), slot, value);
            },
        }
    }
}

/// What is put in the place of a slot of the template; any other name stays.
pub open spec fn slot_value(
    slot: Seq<char>,
    ctx: ContextView,
    language: Seq<char>,
    total_files: nat,
    file_list: Seq<char>,
    extra: Seq<char>,
    content: Seq<char>,
) -> Seq<char> {
    if slot == "{title}"@ {
        ctx.title
    } else if slot == "{pr_metadata}"@ {
        metadata_section(ctx, language)
    } else if slot == "{owner}"@ {
        ctx.owner
    } else if slot == "{repo}"@ {
        ctx.repo
    } else if slot == "{author}"@ {
        ctx.author
    } else if slot == "{branch}"@ {
        ctx.branch
    } else if slot == "{base}"@ {
        ctx.base
    } else if slot == "{language}"@ {
        language
    } else if slot == "{description}"@ {
        ctx.description
    } else if slot == "{total_files}"@ {
        decimal(total_files)
    } else if slot == "{file_list}"@ {
        file_list
    } else if slot == "{extra_instructions}"@ {
        extra_section(extra)
    } else if slot == "{content_format}"@ {
        content
    } else {
        slot
    }
}

/// A template is filled slot by slot, and the words between the slots stay. Only what
/// is put in first could hold a slot of its own, so it is taken to hold no brace; the
/// content, which comes last, may hold anything.
pub proof fn templates_are_filled_slot_by_slot(
    pieces: Seq<Piece>,
    ctx: ContextView,
    language: Seq<char>,
    total_files: nat,
    file_list: Seq<char>,
    extra: Seq<char>,
    content: Seq<char>,
)
    requires
        tidy_pieces(pieces),
        !ctx.title.contains('{'),
        !ctx.owner.contains('{'),
        !ctx.repo.contains('{'),
        !ctx.author.contains('{'),
        !ctx.branch.contains('{'),
        !ctx.base.contains('{'),
        !language.contains('{'),
        !ctx.description.contains('{'),
        !file_list.contains('{'),
        !metadata_section(ctx, language).contains('{'),
        !extra_section(extra).contains('{'),
    ensures
        filled(pieces_text(pieces), ctx, language, total_files, file_list, extra, content)
            == pieces_text(
            pieces.map_values(
                |p: Piece|
                    match p {
                        Piece::Words(w) => Piece::Words(w),
                        Piece::Slot(n) => Piece::Words(
                            slot_value(n, ctx, language, total_files, file_list, extra, content),
                        ),
                    },
            ),
        ),
{
    lemma_slots();
    decimal_is_digits(total_files);
    assert(!decimal(total_files).contains('{')) by {
        let d = decimal(total_files);
        if d.contains('{') {
            let k = choose|k: int| 0 <= k < d.len() && d[k] == '{';
            assert(is_digit(d[k]));
        }
    }
    let p0 = pieces;
    lemma_slot_filled(p0, "{title}"@, ctx.title);
    let p1 = p0.map_values(|p: Piece| put_in(p, "{title}"@, ctx.title));
    lemma_slot_filled(p1, "{pr_metadata}"@, metadata_section(ctx, language));
    let p2 = p1.map_values(|p: Piece| put_in(p, "{pr_metadata}"@, metadata_section(ctx, language)));
    lemma_slot_filled(p2, "{owner}"@, ctx.owner);
    let p3 = p2.map_values(|p: Piece| put_in(p, "{owner}"@, ctx.owner));
    lemma_slot_filled(p3, "{repo}"@, ctx.repo);
    let p4 = p3.map_values(|p: Piece| put_in(p, "{repo}"@, ctx.repo));
    lemma_slot_filled(p4, "{author}"@, ctx.author);
    let p5 = p4.map_values(|p: Piece| put_in(p, "{author}"@, ctx.author));
    lemma_slot_filled(p5, "{branch}"@, ctx.branch);
    let p6 = p5.map_values(|p: Piece| put_in(p, "{branch}"@, ctx.branch));
    lemma_slot_filled(p6, "{base}"@, ctx.base);
    let p7 = p6.map_values(|p: Piece| put_in(p, "{base}"@, ctx.base));
    lemma_slot_filled(p7, "{language}"@, language);
    let p8 = p7.map_values(|p: Piece| put_in(p, "{language}"@, language));
    lemma_slot_filled(p8, "{description}"@, ctx.description);
    let p9 = p8.map_values(|p: Piece| put_in(p, "{description}"@, ctx.description));
    lemma_slot_filled(p9, "{total_files}"@, decimal(total_files));
    let p10 = p9.map_values(|p: Piece| put_in(p, "{total_files}"@, decimal(total_files)));
    lemma_slot_filled(p10, "{file_list}"@, file_list);
    let p11 = p10.map_values(|p: Piece| put_in(p, "{file_list}"@, file_list));
    lemma_slot_filled(p11, "{extra_instructions}"@, extra_section(extra));
    let p12 = p11.map_values(|p: Piece| put_in(p, "{extra_instructions}"@, extra_section(extra)));
    lemma_slot_filled(p12, "{content_format}"@, content);
    let p13 = p12.map_values(|p: Piece| put_in(p, "{content_format}"@, content));
    let full = pieces.map_values(
        |p: Piece|
            match p {
                Piece::Words(w) => Piece::Words(w),
                Piece::Slot(n) => Piece::Words(
                    slot_value(n, ctx, language, total_files, file_list, extra, content),
                ),
            },
    );
    lemma_same_text(p13, full);
}

proof fn lemma_same_text(a: Seq<Piece>, b: Seq<Piece>)
    requires
        a.len() == b.len(),
        forall|i: int| 0 <= i < a.len() ==> piece_text(#[trigger] a[i]) == piece_text(b[i]),
    ensures
        pieces_text(a) == pieces_text(b),
    decreases a.len(),
{
    if a.len() > 0 {
        let x = a.subrange(1, a.len() as int);
        let y = b.subrange(1, b.len() as int);
        assert forall|i: int| 0 <= i < x.len() implies piece_text(#[trigger] x[i]) == piece_text(
            y[i],
        ) by {
            assert(x[i] == a[i + 1] && y[i] == b[i + 1]);
        }
        lemma_same_text(x, y);
        assert(piece_text(a[0]) == piece_text(b[0]));
    }
}

/// What the prompt tells of a pull request names its title, where it is, who wrote it,
/// what it is to be merged into, its language and its description.
pub proof fn pull_requests_are_told_of(ctx: ContextView, language: Seq<char>)
    ensures
        ctx.owner.len() == 0 ==> metadata_section(ctx, language).len() == 0,
        ctx.owner.len() > 0 ==> {
            let m = metadata_section(ctx, language);
            &&& contains(m, "## PR: "@ + ctx.title + "\n"@)
            &&& contains(m, "\n**Repository:** "@ + ctx.owner + "/"@ + ctx.repo + "\n"@)
            &&& contains(m, "\n**Author:** "@ + ctx.author + "\n"@)
            &&& contains(m, "\n**Branch:** "@ + ctx.branch + " → "@ + ctx.base + "\n"@)
            &&& contains(m, "\n**Language:** "@ + language + "\n"@)
            &&& contains(m, "\n**Description:** "@ + ctx.description)
        },
{
    reveal_strlit("");
    reveal_strlit("\n");
    reveal_strlit("\n\n**Repository:** ");
    reveal_strlit("\n**Repository:** ");
    reveal_strlit("\n**Author:** ");
    reveal_strlit("\n**Branch:** ");
    reveal_strlit("\n**Language:** ");
    reveal_strlit("\n**Description:** ");
    if ctx.owner.len() > 0 {
        let m = metadata_section(ctx, language);
        let none = Seq::<char>::empty();
        let title = "## PR: "@ + ctx.title;
        let repository = "\n**Repository:** "@ + ctx.owner + "/"@ + ctx.repo;
        let author = "\n**Author:** "@ + ctx.author;
        let branch = "\n**Branch:** "@ + ctx.branch + " → "@ + ctx.base;
        let lang = "\n**Language:** "@ + language;
        let description = "\n**Description:** "@ + ctx.description;
        assert(m =~= title + "\n"@ + repository + author + branch + lang + description);
        parts_are_contained(none, title + "\n"@, repository + author + branch + lang + description);
        assert(none + (title + "\n"@) + (repository + author + branch + lang + description) =~= m);
        lemma_line_is_there(title + "\n"@, repository, author, branch + lang + description);
        assert(title + "\n"@ + repository + author + (branch + lang + description) =~= m);
        lemma_line_is_there(title + "\n"@ + repository, author, branch, lang + description);
        assert(title + "\n"@ + repository + author + branch + (lang + description) =~= m);
        lemma_line_is_there(title + "\n"@ + repository + author, branch, lang, description);
        lemma_line_is_there(
            title + "\n"@ + repository + author + branch,
            lang,
            description,
            none,
        );
        assert(title + "\n"@ + repository + author + branch + lang + description + none =~= m);
        parts_are_contained(title + "\n"@ + repository + author + branch + lang, description, none);
    }
}

proof fn lemma_line_is_there(a: Seq<char>, line: Seq<char>, next: Seq<char>, b: Seq<char>)
    requires
        next.len() > 0,
        next[0] == '\n',
    ensures
        contains(a + line + next + b, line + "\n"@),
{
    reveal_strlit("\n");
    let rest = next.subrange(1, next.len() as int) + b;
    parts_are_contained(a, line + "\n"@, rest);
    assert(a + (line + "\n"@) + rest =~= a + line + next + b);
}

/// Further instructions are in the prompt under a heading of their own; without any
/// there is none.
pub proof fn instructions_are_shown(extra: Seq<char>)
    ensures
        extra.len() == 0 ==> extra_section(extra).len() == 0,
        extra.len() > 0 ==> contains(
            extra_section(extra),
            "### Additional Instructions\n\n"@ + extra,
        ),
{
    reveal_strlit("");
    let none = Seq::<char>::empty();
    parts_are_contained(none, "### Additional Instructions\n\n"@ + extra, "\n"@);
    assert(none + ("### Additional Instructions\n\n"@ + extra) + "\n"@
        =~= "### Additional Instructions\n\n"@ + extra + "\n"@);
}

/// Every changed file is listed, in its order, with what became of it and how many
/// lines were added and removed.
pub proof fn changed_files_are_listed_one_after_the_other(
    a: Seq<DiffFile>,
    b: Seq<DiffFile>,
    f: DiffFile,
)
    ensures
        a.len() > 0 && b.len() > 0 ==> diff_list(a + b) == diff_list(a) + diff_list(b),
        diff_bullets(a + b) == diff_bullets(a) + diff_bullets(b),
        diff_bullets(Seq::empty()) == Seq::<char>::empty(),
        ({
            let lines = "+"@ + decimal(f.additions as nat) + " −"@ + decimal(f.deletions as nat);
            let name = "- `"@ + f.filename@;
            diff_list(seq![f]) == match f.status {
                DiffStatus::Added => name + "` (added — "@ + lines + ")\n"@,
                DiffStatus::Modified => name + "` (modified — "@ + lines + ")\n"@,
                DiffStatus::Deleted => name + "` (deleted — "@ + lines + ")\n"@,
                DiffStatus::Renamed => name + "` (renamed — "@ + lines + ")\n"@,
                DiffStatus::Copied => name + "` (copied — "@ + lines + ")\n"@,
            }
        }),
    decreases b.len(),
{
    reveal_with_fuel(diff_bullets, 2);
    assert(seq![f].drop_last() =~= Seq::<DiffFile>::empty());
    assert(diff_bullets(seq![f]) =~= diff_bullet(f));
    lemma_bullet(f);
    if b.len() == 0 {
        assert(a + b =~= a);
        assert(diff_bullets(a) + diff_bullets(b) =~= diff_bullets(a));
    } else {
        changed_files_are_listed_one_after_the_other(a, b.drop_last(), f);
        assert((a + b).drop_last() =~= a + b.drop_last());
        assert(diff_bullets(a + b) =~= diff_bullets(a) + diff_bullets(b));
    }
}

proof fn lemma_bullet(f: DiffFile)
    ensures
        ({
            let lines = "+"@ + decimal(f.additions as nat) + " −"@ + decimal(f.deletions as nat);
            let name = "- `"@ + f.filename@;
            diff_bullet(f) == match f.status {
                DiffStatus::Added => name + "` (added — "@ + lines + ")\n"@,
                DiffStatus::Modified => name + "` (modified — "@ + lines + ")\n"@,
                DiffStatus::Deleted => name + "` (deleted — "@ + lines + ")\n"@,
                DiffStatus::Renamed => name + "` (renamed — "@ + lines + ")\n"@,
                DiffStatus::Copied => name + "` (copied — "@ + lines + ")\n"@,
            }
        }),
{
    reveal_strlit("` (");
    reveal_strlit(" — +");
    reveal_strlit("+");
    reveal_strlit("added");
    reveal_strlit("modified");
    reveal_strlit("deleted");
    reveal_strlit("renamed");
    reveal_strlit("copied");
    reveal_strlit("` (added — ");
    reveal_strlit("` (modified — ");
    reveal_strlit("` (deleted — ");
    reveal_strlit("` (renamed — ");
    reveal_strlit("` (copied — ");
    let words = match f.status {
        DiffStatus::Added => "` (added — "@,
        DiffStatus::Modified => "` (modified — "@,
        DiffStatus::Deleted => "` (deleted — "@,
        DiffStatus::Renamed => "` (renamed — "@,
        DiffStatus::Copied => "` (copied — "@,
    };
    assert("` ("@ + status_word(f.status) + " — +"@ =~= words + "+"@);
    let lines = "+"@ + decimal(f.additions as nat) + " −"@ + decimal(f.deletions as nat);
    assert(diff_bullet(f) =~= "- `"@ + f.filename@ + ("` ("@ + status_word(f.status) + " — +"@)
        + decimal(f.additions as nat) + " −"@ + decimal(f.deletions as nat) + ")\n"@);
    assert("- `"@ + f.filename@ + words + lines + ")\n"@ =~= "- `"@ + f.filename@ + (words + "+"@)
        + decimal(f.additions as nat) + " −"@ + decimal(f.deletions as nat) + ")\n"@);
}

/// Every source file is listed, in its order, with its language and its length.
pub proof fn source_files_are_listed_one_after_the_other(
    a: Seq<FileContent>,
    b: Seq<FileContent>,
    f: FileContent,
)
    ensures
        a.len() > 0 && b.len() > 0 ==> content_list(a + b) == content_list(a) + content_list(b),
        content_bullets(a + b) == content_bullets(a) + content_bullets(b),
        content_bullets(Seq::empty()) == Seq::<char>::empty(),
        content_list(seq![f]) == "- `"@ + f.path@ + "` ("@ + f.language@ + " — "@ + decimal(
            f.line_count as nat,
        ) + " lines)\n"@,
    decreases b.len(),
{
    reveal_with_fuel(content_bullets, 2);
    assert(seq![f].drop_last() =~= Seq::<FileContent>::empty());
    assert(content_bullets(seq![f]) =~= content_bullet(f));
    if b.len() == 0 {
        assert(a + b =~= a);
        assert(content_bullets(a) + content_bullets(b) =~= content_bullets(a));
    } else {
        source_files_are_listed_one_after_the_other(a, b.drop_last(), f);
        assert((a + b).drop_last() =~= a + b.drop_last());
        assert(content_bullets(a + b) =~= content_bullets(a) + content_bullets(b));
    }
}

// ---------------------------------------------------------------------------
// Which rules apply

/// A pattern matches one of the files.
pub open spec fn some_file_matches(pattern: Seq<char>, files: Seq<DiffFile>) -> bool {
    exists|i: int|
        0 <= i < files.len() && glob_value(pattern, (#[trigger] files[i]).filename@) == Some(true)
}

proof fn lemma_any_match(pattern: Seq<char>, files: Seq<DiffFile>, i: int)
    requires
        0 <= i,
    ensures
        any_match(pattern, files, i) matches Some(found) ==> (found <==> exists|j: int|
            i <= j < files.len() && glob_value(pattern, (#[trigger] files[j]).filename@) == Some(
                true,
            )),
    decreases files.len() - i,
{
    if i < files.len() {
        lemma_any_match(pattern, files, i + 1);
        if glob_value(pattern, files[i].filename@) == Some(true) {
            assert(glob_value(pattern, files[i].filename@) == Some(true));
        }
    }
}

proof fn lemma_with_new(names: Seq<Seq<char>>, more: Seq<Seq<char>>)
    requires
        names.no_duplicates(),
    ensures
        with_new(names, more).no_duplicates(),
        with_new(names, more).len() >= names.len(),
        with_new(names, more).take(names.len() as int) == names,
        forall|x: Seq<char>|
            #![trigger with_new(names, more).contains(x)]
            with_new(names, more).contains(x) <==> names.contains(x) || more.contains(x),
    decreases more.len(),
{
    let out = with_new(names, more);
    if more.len() == 0 {
        assert(names.take(names.len() as int) =~= names);
        assert forall|x: Seq<char>| !more.contains(x) by {}
    } else {
        let rest = more.drop_last();
        lemma_with_new(names, rest);
        let front = with_new(names, rest);
        assert(out.take(names.len() as int) =~= front.take(names.len() as int));
        assert forall|x: Seq<char>|
            #![trigger out.contains(x)]
            out.contains(x) <==> names.contains(x) || more.contains(x) by {
            if more.contains(x) {
                let k = choose|k: int| 0 <= k < more.len() && more[k] == x;
                if k < rest.len() {
                    assert(rest[k] == x);
                    assert(rest.contains(x));
                    assert(front.contains(x));
                } else {
                    assert(x == more.last());
                }
            }
            if rest.contains(x) {
                let k = choose|k: int| 0 <= k < rest.len() && rest[k] == x;
                assert(more[k] == x);
            }
            if front.contains(x) {
                let k = choose|k: int| 0 <= k < front.len() && front[k] == x;
                assert(out[k] == x);
            }
            if out.contains(x) && !front.contains(x) {
                let k = choose|k: int| 0 <= k < out.len() && out[k] == x;
                if k < front.len() {
                    assert(front[k] == x);
                }
                assert(x == more.last());
                assert(more[more.len() - 1] == x);
            }
            if x == more.last() {
                if !front.contains(x) {
                    assert(out[front.len() as int] == x);
                }
            }
        }
    }
}

/// A rule file applies just where an entry lists it whose pattern matches one of the
/// changed files, and it applies once. Entries that come later only add to what the
/// earlier ones name.
pub proof fn rules_apply_where_their_patterns_match(
    rules: Seq<RuleEntry>,
    files: Seq<DiffFile>,
    more: RuleEntry,
)
    requires
        matched_rules(rules, files) is Some,
    ensures
        matched_rules(rules, files).unwrap().no_duplicates(),
        forall|name: Seq<char>|
            #![trigger matched_rules(rules, files).unwrap().contains(name)]
            matched_rules(rules, files).unwrap().contains(name) <==> exists|k: int|
                0 <= k < rules.len() && some_file_matches((#[trigger] rules[k]).pattern@, files)
                    && views(rules[k].files@).contains(name),
        matched_rules(rules.push(more), files) matches Some(names) ==> names.len()
            >= matched_rules(rules, files).unwrap().len() && names.take(
            matched_rules(rules, files).unwrap().len() as int,
        ) == matched_rules(rules, files).unwrap(),
    decreases rules.len(),
{
    let out = matched_rules(rules, files).unwrap();
    if rules.len() == 0 {
        assert(out.no_duplicates());
    } else {
        let front = rules.drop_last();
        let last = rules.last();
        rules_apply_where_their_patterns_match(front, files, last);
        let names = matched_rules(front, files).unwrap();
        lemma_any_match(last.pattern@, files, 0);
        lemma_with_new(names, views(last.files@));
        assert forall|name: Seq<char>|
            #![trigger out.contains(name)]
            out.contains(name) <==> exists|k: int|
                0 <= k < rules.len() && some_file_matches((#[trigger] rules[k]).pattern@, files)
                    && views(rules[k].files@).contains(name) by {
            assert(rules[rules.len() - 1] == last);
            if names.contains(name) {
                let k = choose|k: int|
                    0 <= k < front.len() && some_file_matches((#[trigger] front[k]).pattern@, files)
                        && views(front[k].files@).contains(name);
                assert(rules[k] == front[k]);
            }
            if exists|k: int|
                0 <= k < rules.len() && some_file_matches((#[trigger] rules[k]).pattern@, files)
                    && views(rules[k].files@).contains(name) {
                let k = choose|k: int|
                    0 <= k < rules.len() && some_file_matches((#[trigger] rules[k]).pattern@, files)
                        && views(rules[k].files@).contains(name);
                if k < front.len() {
                    assert(front[k] == rules[k]);
                    assert(names.contains(name));
                }
            }
        }
    }
    assert(rules.push(more).drop_last() =~= rules);
    lemma_with_new(out, views(more.files@));
    assert(out.take(out.len() as int) =~= out);
}

/// The sections of the first so many rules that there is a text for, one after the
/// other.
pub open spec fn sections(names: Seq<Seq<char>>, contents: Seq<(String, String)>, n: int) -> Seq<
    char,
>
    decreases n,
{
    if n <= 0 {
        Seq::empty()
    } else {
        match text_under(contents, names[n - 1]) {
            None => sections(names, contents, n - 1),
            Some(content) => sections(names, contents, n - 1) + ("### "@ + without_md(names[n - 1])
                + "\n\n"@ + content + "\n"@),
        }
    }
}

/// The text of the rules is the text of each rule under its name, in their order: of
/// all rules, or of those before the first one that the budget has no room for.
pub proof fn rules_are_shown_one_after_the_other(
    names: Seq<Seq<char>>,
    contents: Seq<(String, String)>,
)
    ensures
        exists|n: int|
            {
                &&& 0 <= n <= names.len()
                &&& rules_text(names, contents, 0, ""@) == #[trigger] sections(names, contents, n)
                &&& n < names.len() ==> tokens_of(sections(names, contents, n)) + tokens_of(
                    "### "@ + without_md(names[n]) + "\n\n"@ + text_under(
                        contents,
                        names[n],
                    ).unwrap() + "\n"@,
                ) > MAX_RULES_TOKENS || tokens_of(sections(names, contents, n + 1))
                    > MAX_RULES_TOKENS
            },
{
    reveal_strlit("");
    assert(""@ =~= sections(names, contents, 0));
    lemma_sections(names, contents, 0);
}

proof fn lemma_sections(names: Seq<Seq<char>>, contents: Seq<(String, String)>, i: int)
    requires
        0 <= i <= names.len(),
    ensures
        exists|n: int|
            {
                &&& i <= n <= names.len()
                &&& rules_text(names, contents, i, sections(names, contents, i))
                    == #[trigger] sections(names, contents, n)
                &&& n < names.len() ==> tokens_of(sections(names, contents, n)) + tokens_of(
                    "### "@ + without_md(names[n]) + "\n\n"@ + text_under(
                        contents,
                        names[n],
                    ).unwrap() + "\n"@,
                ) > MAX_RULES_TOKENS || tokens_of(sections(names, contents, n + 1))
                    > MAX_RULES_TOKENS
            },
    decreases names.len() - i,
{
    let text = sections(names, contents, i);
    if i == names.len() {
        assert(rules_text(names, contents, i, text) == sections(names, contents, i));
    } else {
        match text_under(contents, names[i]) {
            None => {
                assert(sections(names, contents, i + 1) == text);
                lemma_sections(names, contents, i + 1);
                let n = choose|n: int|
                    {
                        &&& i + 1 <= n <= names.len()
                        &&& rules_text(names, contents, i + 1, sections(names, contents, i + 1))
                            == #[trigger] sections(names, contents, n)
                        &&& n < names.len() ==> tokens_of(sections(names, contents, n))
                            + tokens_of(
                            "### "@ + without_md(names[n]) + "\n\n"@ + text_under(
                                contents,
                                names[n],
                            ).unwrap() + "\n"@,
                        ) > MAX_RULES_TOKENS || tokens_of(sections(names, contents, n + 1))
                            > MAX_RULES_TOKENS
                    };
                assert(rules_text(names, contents, i, text) == sections(names, contents, n));
            },
            Some(content) => {
                let section = rule_section(names[i], content);
                assert(sections(names, contents, i + 1) == text + section);
                if fits_behind(text, section) {
                    lemma_sections(names, contents, i + 1);
                    let n = choose|n: int|
                        {
                            &&& i + 1 <= n <= names.len()
                            &&& rules_text(names, contents, i + 1, sections(names, contents, i + 1))
                                == #[trigger] sections(names, contents, n)
                            &&& n < names.len() ==> tokens_of(sections(names, contents, n))
                                + tokens_of(
                                "### "@ + without_md(names[n]) + "\n\n"@ + text_under(
                                    contents,
                                    names[n],
                                ).unwrap() + "\n"@,
                            ) > MAX_RULES_TOKENS || tokens_of(sections(names, contents, n + 1))
                                > MAX_RULES_TOKENS
                        };
                    assert(rules_text(names, contents, i, text) == sections(names, contents, n));
                } else {
                    assert(rules_text(names, contents, i, text) == sections(names, contents, i));
                }
            },
        }
    }
}

/// How often a text occurs in a list is how often it occurs in the parts of the list.
pub proof fn occurrences_add_up(a: Seq<Seq<char>>, b: Seq<Seq<char>>, x: Seq<char>, y: Seq<char>)
    ensures
        occurrences(a + b, x) == occurrences(a, x) + occurrences(b, x),
        occurrences(seq![x], x) == 1,
        x != y ==> occurrences(seq![x], y) == 0,
        occurrences(Seq::empty(), x) == 0,
    decreases b.len(),
{
    reveal_with_fuel(occurrences, 2);
    assert(seq![x].drop_last() =~= Seq::<Seq<char>>::empty());
    if b.len() == 0 {
        assert(a + b =~= a);
    } else {
        occurrences_add_up(a, b.drop_last(), x, y);
        assert((a + b).drop_last() =~= a + b.drop_last());
    }
}

proof fn lemma_most_frequent_exists(all: Seq<Seq<char>>, n: int) -> (i: int)
    requires
        0 < n <= all.len(),
    ensures
        0 <= i < n,
        forall|j: int|
            0 <= j < n ==> occurrences(all, #[trigger] all[j]) <= occurrences(all, all[i]),
        forall|j: int| 0 <= j < i ==> occurrences(all, #[trigger] all[j]) < occurrences(all, all[i]),
    decreases n,
{
    if n == 1 {
        0
    } else {
        let i = lemma_most_frequent_exists(all, n - 1);
        if occurrences(all, all[n - 1]) > occurrences(all, all[i]) {
            n - 1
        } else {
            i
        }
    }
}

/// The language of a change is one that no other occurs more often than, and of those
/// that occur as often none occurs before it. Without files it is not known.
pub proof fn the_language_is_that_of_most_files(all: Seq<Seq<char>>)
    ensures
        all.len() == 0 ==> most_frequent(all) == "Unknown"@,
        all.len() > 0 ==> exists|i: int|
            {
                &&& 0 <= i < all.len()
                &&& most_frequent(all) == #[trigger] all[i]
                &&& forall|j: int|
                    0 <= j < all.len() ==> occurrences(all, #[trigger] all[j]) <= occurrences(
                        all,
                        all[i],
                    )
                &&& forall|j: int|
                    0 <= j < i ==> occurrences(all, #[trigger] all[j]) < occurrences(all, all[i])
            },
{
    if all.len() > 0 {
        let k = lemma_most_frequent_exists(all, all.len() as int);
        assert(is_most_frequent(all, k));
        let i = choose|i: int| is_most_frequent(all, i);
        assert(is_most_frequent(all, i));
        assert(most_frequent(all) == all[i]);
    }
}

// ---------------------------------------------------------------------------
// What is loaded

/// The prompts of a domain count before those of code, and these before the texts that are
/// always there.
pub proof fn own_prompts_count_first(a: Seq<char>, b: Option<Seq<char>>, c: Seq<char>)
    ensures
        first_of(Some(a), b, c) == a,
        b matches Some(t) ==> first_of(None, b, c) == t,
        first_of(None, None, c) == c,
{
}

/// The texts of a list are read one for one, and a list that holds anything else is none.
pub proof fn texts_are_read_one_for_one(items: Seq<JsonView>, names: Seq<Seq<char>>)
    requires
        items.len() == names.len(),
        forall|i: int| 0 <= i < items.len() ==> #[trigger] items[i] == JsonView::Text(names[i]),
    ensures
        texts_of(JsonView::Array(items)) == Some(names),
{
    assert(forall|i: int| 0 <= i < items.len() ==> (#[trigger] items[i]).as_str() is Some);
    assert(texts_of(JsonView::Array(items)).unwrap() =~= names);
}

/// An entry of an index is its pattern and its files, whatever else it holds; and the
/// entries of an index are read one for one, in their order.
pub proof fn entries_are_read_one_for_one(
    v: JsonView,
    pattern: Seq<char>,
    items: Seq<JsonView>,
    names: Seq<Seq<char>>,
    entries: Seq<JsonView>,
)
    requires
        v is Object,
        v.get("pattern"@) == Some(JsonView::Text(pattern)),
        v.get("files"@) == Some(JsonView::Array(items)),
        items.len() == names.len(),
        forall|i: int| 0 <= i < items.len() ==> #[trigger] items[i] == JsonView::Text(names[i]),
    ensures
        entry_of(v) == Some((pattern, names)),
        index_of(Some(JsonView::Array(entries))) matches Some(out) ==> out.len() == entries.len()
            && forall|i: int|
            0 <= i < entries.len() ==> entry_of(entries[i]) == Some(#[trigger] out[i]),
        index_of(Some(JsonView::Array(entries))) is None <==> exists|i: int|
            0 <= i < entries.len() && entry_of(#[trigger] entries[i]) is None,
        index_of(None) is None,
{
    texts_are_read_one_for_one(items, names);
    match index_of(Some(JsonView::Array(entries))) {
        Some(out) => {
            assert forall|i: int| 0 <= i < entries.len() implies entry_of(entries[i]) == Some(
                #[trigger] out[i],
            ) by {
                assert(entry_of(entries[i]) is Some);
            }
        },
        None => {},
    }
}

/// A text is found under its name, and of two under the same name the first is.
pub proof fn texts_are_found_under_their_names(
    texts: Seq<(String, String)>,
    name: Seq<char>,
    i: int,
)
    requires
        0 <= i < texts.len(),
        texts[i].0@ == name,
        forall|j: int| 0 <= j < i ==> (#[trigger] texts[j]).0@ != name,
    ensures
        text_under(texts, name) == Some(texts[i].1@),
    decreases texts.len(),
{
    if i > 0 {
        let rest = texts.subrange(1, texts.len() as int);
        assert(texts[0].0@ != name);
        assert(rest[i - 1] == texts[i]);
        assert forall|j: int| 0 <= j < i - 1 implies (#[trigger] rest[j]).0@ != name by {
            assert(rest[j] == texts[j + 1]);
        }
        texts_are_found_under_their_names(rest, name, i - 1);
    }
}

/// A rule file is there where the index lists it, its name is safe and it was found; a
/// name that is not listed, or that could lead elsewhere, brings nothing.
pub proof fn listed_rule_files_are_there(found: RuleFiles, name: Seq<char>)
    ensures
        gathered(Seq::empty(), found, name) is Some ==> safe_rule_path(name),
        found.index matches Some(index) && (exists|i: int|
            0 <= i < index.rules@.len() && views(#[trigger] index.rules@[i].files@).contains(name))
            && safe_rule_path(name) ==> gathered(Seq::empty(), found, name) == text_under(
            found.texts@,
            name,
        ),
        found.index is None ==> gathered(Seq::empty(), found, name) is None,
        safe_rule_path(name) ==> !contains(name, "/"@) && !contains(name, ".."@),
{
    assert(text_under(Seq::empty(), name) is None);
}

/// The entries of the domain come before those of the project, and all of both are there.
pub proof fn rules_of_both_are_there(a: RuleIndex, b: RuleIndex)
    ensures
        merged_rules(Some(a), Some(b)) == a.rules@ + b.rules@,
        merged_rules(Some(a), None) == a.rules@,
        merged_rules(None, Some(b)) == b.rules@,
        merged_rules(None, None).len() == 0,
{
    assert(merged_rules(Some(a), None) =~= a.rules@);
    assert(merged_rules(None, Some(b)) =~= b.rules@);
}

/// The language of a change of code is that of most of its files; where these do not tell,
/// the one that the caller names. Of anything else no language is told.
pub proof fn hints_count_where_files_do_not_tell(
    domain: Seq<char>,
    ctx: ContextView,
    files: Seq<DiffFile>,
    contents: Seq<FileContent>,
)
    ensures
        domain != "code"@ ==> diff_language(domain, ctx, files).len() == 0,
        domain == "code"@ && most_frequent(diff_languages(files)) != "Unknown"@ ==> diff_language(
            domain,
            ctx,
            files,
        ) == most_frequent(diff_languages(files)),
        domain == "code"@ && most_frequent(diff_languages(files)) == "Unknown"@ ==> (
        ctx.language_hint matches Some(h) ==> diff_language(domain, ctx, files) == h),
        most_frequent(content_languages(contents)) != "Unknown"@ ==> content_language(ctx, contents)
            == most_frequent(content_languages(contents)),
        most_frequent(content_languages(contents)) == "Unknown"@ ==> (ctx.language_hint matches Some(
            h,
        ) ==> content_language(ctx, contents) == h),
        forall|i: int|
            0 <= i < files.len() ==> #[trigger] diff_languages(files)[i] == language_of(
                files[i].filename@,
            ),
        forall|i: int|
            0 <= i < contents.len() ==> #[trigger] content_languages(contents)[i]
                == contents[i].language@,
{
    reveal_strlit("");
}

/// A domain may only be one whose name leads to no other directory.
pub proof fn domains_lead_nowhere_else(domain: Seq<char>)
    ensures
        loadable_domain(domain) ==> domain.len() > 0 && !domain.contains('/') && !domain.contains(
            '.',
        ) && !domain.contains('\\'),
{
    if loadable_domain(domain) {
        assert forall|i: int| 0 <= i < domain.len() implies #[trigger] domain[i] != '/' && domain[i]
            != '.' && domain[i] != '\\' by {
            assert(alphanumeric(domain[i]) || domain[i] == '-' || domain[i] == '_');
        }
    }
}

/// Each slot stands for what it is named after, and what is no slot stands for itself.
pub proof fn slots_stand_for_what_they_name(
    other: Seq<char>,
    ctx: ContextView,
    language: Seq<char>,
    total_files: nat,
    file_list: Seq<char>,
    extra: Seq<char>,
    content: Seq<char>,
)
    ensures
        slot_value("{title}"@, ctx, language, total_files, file_list, extra, content)
            == ctx.title,
        slot_value("{pr_metadata}"@, ctx, language, total_files, file_list, extra, content)
            == metadata_section(ctx, language),
        slot_value("{owner}"@, ctx, language, total_files, file_list, extra, content)
            == ctx.owner,
        slot_value("{repo}"@, ctx, language, total_files, file_list, extra, content)
            == ctx.repo,
        slot_value("{author}"@, ctx, language, total_files, file_list, extra, content)
            == ctx.author,
        slot_value("{branch}"@, ctx, language, total_files, file_list, extra, content)
            == ctx.branch,
        slot_value("{base}"@, ctx, language, total_files, file_list, extra, content)
            == ctx.base,
        slot_value("{language}"@, ctx, language, total_files, file_list, extra, content)
            == language,
        slot_value("{description}"@, ctx, language, total_files, file_list, extra, content)
            == ctx.description,
        slot_value("{total_files}"@, ctx, language, total_files, file_list, extra, content)
            == decimal(total_files),
        slot_value("{file_list}"@, ctx, language, total_files, file_list, extra, content)
            == file_list,
        slot_value("{extra_instructions}"@, ctx, language, total_files, file_list, extra, content)
            == extra_section(extra),
        slot_value("{content_format}"@, ctx, language, total_files, file_list, extra, content)
            == content,
        other != "{title}"@ && other != "{pr_metadata}"@ && other != "{owner}"@ && other != "{repo}"@ && other != "{author}"@ && other != "{branch}"@ && other != "{base}"@ && other != "{language}"@ && other != "{description}"@ && other != "{total_files}"@ && other != "{file_list}"@ && other != "{extra_instructions}"@ && other != "{content_format}"@ ==> slot_value(
            other,
            ctx,
            language,
            total_files,
            file_list,
            extra,
            content,
        ) == other,
{
    reveal_strlit("{title}");
    reveal_strlit("{pr_metadata}");
    reveal_strlit("{owner}");
    reveal_strlit("{repo}");
    reveal_strlit("{author}");
    reveal_strlit("{branch}");
    reveal_strlit("{base}");
    reveal_strlit("{language}");
    reveal_strlit("{description}");
    reveal_strlit("{total_files}");
    reveal_strlit("{file_list}");
    reveal_strlit("{extra_instructions}");
    reveal_strlit("{content_format}");
    assert("{title}"@.len() == 7 && "{title}"@[1] == 't' && "{title}"@[2] == 'i' && "{title}"@[3] == 't');
    assert("{pr_metadata}"@.len() == 13 && "{pr_metadata}"@[1] == 'p' && "{pr_metadata}"@[2] == 'r' && "{pr_metadata}"@[3] == '_');
    assert("{owner}"@.len() == 7 && "{owner}"@[1] == 'o' && "{owner}"@[2] == 'w' && "{owner}"@[3] == 'n');
    assert("{repo}"@.len() == 6 && "{repo}"@[1] == 'r' && "{repo}"@[2] == 'e' && "{repo}"@[3] == 'p');
    assert("{author}"@.len() == 8 && "{author}"@[1] == 'a' && "{author}"@[2] == 'u' && "{author}"@[3] == 't');
    assert("{branch}"@.len() == 8 && "{branch}"@[1] == 'b' && "{branch}"@[2] == 'r' && "{branch}"@[3] == 'a');
    assert("{base}"@.len() == 6 && "{base}"@[1] == 'b' && "{base}"@[2] == 'a' && "{base}"@[3] == 's');
    assert("{language}"@.len() == 10 && "{language}"@[1] == 'l' && "{language}"@[2] == 'a' && "{language}"@[3] == 'n');
    assert("{description}"@.len() == 13 && "{description}"@[1] == 'd' && "{description}"@[2] == 'e' && "{description}"@[3] == 's');
    assert("{total_files}"@.len() == 13 && "{total_files}"@[1] == 't' && "{total_files}"@[2] == 'o' && "{total_files}"@[3] == 't');
    assert("{file_list}"@.len() == 11 && "{file_list}"@[1] == 'f' && "{file_list}"@[2] == 'i' && "{file_list}"@[3] == 'l');
    assert("{extra_instructions}"@.len() == 20 && "{extra_instructions}"@[1] == 'e' && "{extra_instructions}"@[2] == 'x' && "{extra_instructions}"@[3] == 't');
    assert("{content_format}"@.len() == 16 && "{content_format}"@[1] == 'c' && "{content_format}"@[2] == 'o' && "{content_format}"@[3] == 'n');
}

/// The pieces of a template stand one after the other, as they are.
pub proof fn pieces_stand_one_after_the_other(a: Seq<Piece>, b: Seq<Piece>, w: Seq<char>)
    ensures
        pieces_text(a + b) == pieces_text(a) + pieces_text(b),
        pieces_text(seq![Piece::Words(w)]) == w,
        pieces_text(seq![Piece::Slot(w)]) == w,
        pieces_text(Seq::empty()) == Seq::<char>::empty(),
    decreases a.len(),
{
    reveal_with_fuel(pieces_text, 2);
    let none = Seq::<Piece>::empty();
    assert(seq![Piece::Words(w)].subrange(1, 1) =~= none);
    assert(seq![Piece::Slot(w)].subrange(1, 1) =~= none);
    assert(pieces_text(seq![Piece::Words(w)]) =~= w);
    assert(pieces_text(seq![Piece::Slot(w)]) =~= w);
    if a.len() == 0 {
        assert(a + b =~= b);
        assert(pieces_text(a) + pieces_text(b) =~= pieces_text(b));
    } else {
        let tail = a.subrange(1, a.len() as int);
        pieces_stand_one_after_the_other(tail, b, w);
        let all = a + b;
        assert(all[0] == a[0]);
        assert(all.subrange(1, all.len() as int) =~= tail + b);
        assert(pieces_text(all) =~= pieces_text(a) + pieces_text(b));
    }
}

} // verus!
