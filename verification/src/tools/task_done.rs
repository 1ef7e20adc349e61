//! The tool that ends a review.
use vstd::prelude::*;

use crate::json::{no_items, no_members, Json};
use crate::tools::schema::{object_schema, object_schema_json};

verus! {

/// What the model is told of the tool.
pub const TASK_DONE_DESCRIPTION: &'static str =
    "Call this when you have completed the review and submitted all findings. This signals that you are done and no further analysis is needed.";

/// Signals that the review is complete.
pub struct TaskDone;

impl TaskDone {
    pub fn name(&self) -> (r: &'static str)
        ensures
            r@ == "task_done"@,
    {
        "task_done"
    }

    pub fn description(&self) -> (r: &'static str)
        ensures
            r@ == TASK_DONE_DESCRIPTION@,
    {
        TASK_DONE_DESCRIPTION
    }

    pub fn schema(&self) -> (r: Json)
        ensures
            r@ == object_schema(no_members(), no_items()),
    {
        object_schema_json(Json::object(), Json::array())
    }

    /// What the model is told.
    pub fn execute(&self) -> (r: Result<String, String>)
        ensures
            r matches Ok(s) && s@ == "Task completed."@,
    {
        Ok("Task completed.".to_owned())
    }
}

} // verus!
