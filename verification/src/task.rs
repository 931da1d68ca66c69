//! Names of the tasks of a query and of their outputs.

use crate::text::{spec_decimal, u32_to_decimal};
use vstd::prelude::*;
use vstd::string::StringExecFns;

verus! {

/// Names one task of one stage of a query.
#[derive(PartialEq, Eq, Hash, Clone, Debug)]
pub struct TaskId {
    pub task_id: u32,
    pub stage_id: u32,
    pub query_id: String,
}

/// Names one output of a task.
#[derive(PartialEq, Eq, Hash, Clone)]
pub struct TaskSinkId {
    pub task_id: TaskId,
    pub sink_id: u32,
}

/// The states that a task goes through.
#[derive(Clone, Copy, Debug, PartialEq, Eq, Structural)]
pub enum TaskState {
    Pending,
    Running,
    Blocking,
    Finished,
    Failed,
}

/// The text of a task output's name:
/// `TaskSinkId { query_id: "..", stage_id: .., task_id: .., sink_id: .. }`.
pub open spec fn spec_task_sink_id_text(
    query_id: Seq<char>,
    stage_id: u32,
    task_id: u32,
    sink_id: u32,
) -> Seq<char> {
    "TaskSinkId { query_id: \""@ + query_id + "\", stage_id: "@ + spec_decimal(stage_id as nat)
        + ", task_id: "@ + spec_decimal(task_id as nat) + ", sink_id: "@ + spec_decimal(
        sink_id as nat,
    ) + " }"@
}

impl TaskSinkId {
    /// The name as text, shorter than a field-by-field listing.
    pub fn debug_string(&self) -> (r: String)
        ensures
            r@ == spec_task_sink_id_text(
                self.task_id.query_id@,
                self.task_id.stage_id,
                self.task_id.task_id,
                self.sink_id,
            ),
    {
        let mut s = String::from_str("TaskSinkId { query_id: \"");
        s.append(self.task_id.query_id.as_str());
        s.append("\", stage_id: ");
        s.append(u32_to_decimal(self.task_id.stage_id).as_str());
        s.append(", task_id: ");
        s.append(u32_to_decimal(self.task_id.task_id).as_str());
        s.append(", sink_id: ");
        s.append(u32_to_decimal(self.sink_id).as_str());
        s.append(" }");
        s
    }
}

} // verus!
