//! The tools that are on offer.
use vstd::prelude::*;

use crate::ai::{ToolDef, ToolFunction};
use crate::json::{no_items, no_members, Json, JsonView};
use crate::text::{opt_view, same};
use crate::tools::code_search::{code_search_schema, CodeSearch, CODE_SEARCH_DESCRIPTION};
use crate::tools::file_find::{file_find_schema, FileFind, FILE_FIND_DESCRIPTION};
use crate::tools::file_read::{file_read_schema, FileRead, FILE_READ_DESCRIPTION};
use crate::tools::schema::object_schema;
use crate::tools::submit_finding::{
    submit_finding_schema, SubmitFinding, SUBMIT_FINDING_DESCRIPTION,
};
use crate::tools::task_done::{TaskDone, TASK_DONE_DESCRIPTION};

verus! {

/// A tool as the model is told of it.
pub struct ToolEntry {
    pub name: String,
    pub description: String,
    pub schema: Json,
}

/// The tools that the model may call. Of two with the same name the first counts.
pub struct ToolRegistry {
    pub tools: Vec<ToolEntry>,
}

/// A tool with that name, description and schema.
pub open spec fn is_entry(
    tool: ToolEntry,
    name: Seq<char>,
    description: Seq<char>,
    schema: JsonView,
) -> bool {
    tool.name@ == name && tool.description@ == description && tool.schema@ == schema
}

fn entry(name: &str, description: &str, schema: Json) -> (r: ToolEntry)
    ensures
        is_entry(r, name@, description@, schema@),
{
    ToolEntry { name: name.to_owned(), description: description.to_owned(), schema }
}

impl ToolRegistry {
    /// No tools.
    pub fn new() -> (r: Self)
        ensures
            r.tools@.len() == 0,
    {
        ToolRegistry { tools: Vec::new() }
    }

    /// Adds a tool.
    pub fn register(&mut self, tool: ToolEntry)
        ensures
            final(self).tools@ == old(self).tools@.push(tool),
    {
        self.tools.push(tool);
    }

    /// The tools as the model is told of them.
    pub fn tool_defs(&self) -> (r: Vec<ToolDef>)
        ensures
            r@.len() == self.tools@.len(),
            forall|i: int|
                0 <= i < r@.len() ==> {
                    let d = #[trigger] r@[i];
                    let t = self.tools@[i];
                    &&& d.tool_type@ == "function"@
                    &&& d.function.name@ == t.name@
                    &&& opt_view(d.function.description) == Some(t.description@)
                    &&& d.function.parameters@ == t.schema@
                },
    {
        let mut out: Vec<ToolDef> = Vec::new();
        let mut i: usize = 0;
        while i < self.tools.len()
            invariant
                i <= self.tools@.len(),
                out@.len() == i,
                forall|j: int|
                    0 <= j < i ==> {
                        let d = #[trigger] out@[j];
                        let t = self.tools@[j];
                        &&& d.tool_type@ == "function"@
                        &&& d.function.name@ == t.name@
                        &&& opt_view(d.function.description) == Some(t.description@)
                        &&& d.function.parameters@ == t.schema@
                    },
            decreases self.tools@.len() - i,
        {
            let t = &self.tools[i];
            out.push(
                ToolDef {
                    tool_type: "function".to_owned(),
                    function: ToolFunction {
                        name: t.name.clone(),
                        description: Some(t.description.clone()),
                        parameters: t.schema.copy(),
                    },
                },
            );
            i += 1;
        }
        out
    }

    /// A tool of that name is among the first `n`.
    pub open spec fn holds_before(self, name: Seq<char>, n: int) -> bool {
        exists|i: int| 0 <= i < n && (#[trigger] self.tools@[i]).name@ == name
    }

    /// A tool of that name is on offer.
    pub open spec fn offers(self, name: Seq<char>) -> bool {
        self.holds_before(name, self.tools@.len() as int)
    }

    /// The tool that a call is for: the first of that name.
    pub fn find(&self, name: &str) -> (r: Result<usize, String>)
        ensures
            match r {
                Ok(i) => i < self.tools@.len() && self.tools@[i as int].name@ == name@
                    && !self.holds_before(name@, i as int),
                Err(e) => !self.offers(name@) && e@ == "Unknown tool: "@ + name@,
            },
    {
        let mut i: usize = 0;
        while i < self.tools.len()
            invariant
                i <= self.tools@.len(),
                !self.holds_before(name@, i as int),
            decreases self.tools@.len() - i,
        {
            if same(self.tools[i].name.as_str(), name) {
                return Ok(i);
            }
            i += 1;
        }
        let mut e = "Unknown tool: ".to_owned();
        e.push_str(name);
        Err(e)
    }

    /// Whether a tool of that name is on offer.
    pub fn has_tool(&self, name: &str) -> (r: bool)
        ensures
            r == self.offers(name@),
    {
        match self.find(name) {
            Ok(i) => {
                assert(self.tools@[i as int].name@ == name@);
                true
            },
            Err(_) => false,
        }
    }

    /// The tools for reviews of code.
    pub fn code_domain() -> (r: Self)
        ensures
            r.tools@.len() == 5,
            is_entry(r.tools@[0], "file_read"@, FILE_READ_DESCRIPTION@, file_read_schema()),
            is_entry(r.tools@[1], "code_search"@, CODE_SEARCH_DESCRIPTION@, code_search_schema()),
            is_entry(r.tools@[2], "file_find"@, FILE_FIND_DESCRIPTION@, file_find_schema()),
            is_entry(r.tools@[3], "submit_finding"@, SUBMIT_FINDING_DESCRIPTION@, submit_finding_schema()),
            is_entry(r.tools@[4], "task_done"@, TASK_DONE_DESCRIPTION@, object_schema(no_members(), no_items())),
    {
        let mut reg = ToolRegistry::new();
        reg.register(entry(FileRead.name(), FileRead.description(), FileRead.schema()));
        reg.register(entry(CodeSearch.name(), CodeSearch.description(), CodeSearch.schema()));
        reg.register(entry(FileFind.name(), FileFind.description(), FileFind.schema()));
        reg.register(
            entry(SubmitFinding.name(), SubmitFinding.description(), SubmitFinding.schema()),
        );
        reg.register(entry(TaskDone.name(), TaskDone.description(), TaskDone.schema()));
        reg
    }
}

impl Default for ToolRegistry {
    fn default() -> (r: Self)
        ensures
            r.tools@.len() == 0,
    {
        ToolRegistry::new()
    }
}

/// A tool that is registered is on offer, and so is every one that was before.
pub proof fn registered_tools_are_offered(
    before: ToolRegistry,
    tool: ToolEntry,
    after: ToolRegistry,
    name: Seq<char>,
)
    requires
        after.tools@ == before.tools@.push(tool),
    ensures
        after.offers(name) <==> before.offers(name) || tool.name@ == name,
{
    let n = before.tools@.len() as int;
    if tool.name@ == name {
        assert(after.tools@[n].name@ == name);
    }
    if before.offers(name) {
        let i = choose|i: int| 0 <= i < n && (#[trigger] before.tools@[i]).name@ == name;
        assert(after.tools@[i].name@ == name);
    }
    if after.offers(name) && tool.name@ != name {
        let i = choose|i: int| 0 <= i < n + 1 && (#[trigger] after.tools@[i]).name@ == name;
        assert(before.tools@[i].name@ == name);
    }
}

} // verus!
