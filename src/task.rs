use vstd::prelude::*;

verus! {

/// Whether a task is still pending or has been completed.
#[derive(Clone, Copy, Debug, PartialEq, Eq, Structural)]
pub enum TaskStatus {
    Todo,
    Done,
}

/// One unit of work: an identifier assigned by the store, a free-form
/// description, and its status.
#[derive(Debug)]
pub struct Task {
    pub id: usize,
    pub description: String,
    pub status: TaskStatus,
}

impl Task {
    /// The same task with its status replaced.
    pub open spec fn with_status(self, status: TaskStatus) -> Task {
        Task { status, ..self }
    }

    /// A fresh task always starts pending.
    pub fn new(id: usize, description: String) -> (t: Task)
        ensures
            t.id == id,
            t.description == description,
            t.status == TaskStatus::Todo,
    {
        Task { id, description, status: TaskStatus::Todo }
    }

    pub fn mark_done(&mut self)
        ensures
            *final(self) == old(self).with_status(TaskStatus::Done),
    {
        self.status = TaskStatus::Done;
    }

    pub fn mark_todo(&mut self)
        ensures
            *final(self) == old(self).with_status(TaskStatus::Todo),
    {
        self.status = TaskStatus::Todo;
    }
}

impl Clone for Task {
    fn clone(&self) -> (r: Task)
        ensures
            r == *self,
    {
        Task { id: self.id, description: self.description.clone(), status: self.status }
    }
}

} // verus!
