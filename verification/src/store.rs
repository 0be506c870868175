//! The task store: the ordered sequence of tasks, in insertion order,
//! which is also display order.

use vstd::prelude::*;

use crate::task::{spec_next_status, next_status, Task, TaskView};

verus! {

/// The in-memory store of tasks. Order is insertion order.
#[derive(Debug)]
pub struct TaskStore {
    pub tasks: Vec<Task>,
}

impl View for TaskStore {
    type V = Seq<TaskView>;

    open spec fn view(&self) -> Seq<TaskView> {
        self.tasks@.map_values(|t: Task| t@)
    }
}

/// The model of a store after the status of the task at `i` is advanced
/// one step in the cycle; a store without a task at `i` is unchanged.
pub open spec fn spec_toggle_status(ts: Seq<TaskView>, i: int) -> Seq<TaskView> {
    if 0 <= i < ts.len() {
        ts.update(i, TaskView { status: spec_next_status(ts[i].status), ..ts[i] })
    } else {
        ts
    }
}

impl TaskStore {
    /// An empty store.
    pub fn new() -> (r: Self)
        ensures
            r@ == Seq::<TaskView>::empty(),
    {
        let r = TaskStore { tasks: Vec::new() };
        proof {
            assert(r@ =~= Seq::<TaskView>::empty());
        }
        r
    }

    /// The number of tasks held.
    pub fn len(&self) -> (r: usize)
        ensures
            r == self@.len(),
    {
        self.tasks.len()
    }

    /// The task at `i`, or nothing when `i` is out of range.
    pub fn get(&self, i: usize) -> (r: Option<&Task>)
        ensures
            i < self@.len() ==> (r matches Some(t) && t@ == self@[i as int]),
            i >= self@.len() ==> r is None,
    {
        if i < self.tasks.len() {
            Some(&self.tasks[i])
        } else {
            None
        }
    }

    /// Appends a task at the end; every earlier task keeps its place.
    pub fn append(&mut self, t: Task)
        ensures
            final(self)@ == old(self)@.push(t@),
    {
        let ghost tv = t@;
        self.tasks.push(t);
        proof {
            assert(self@ =~= old(self)@.push(tv));
        }
    }

    /// Advances the status of the task at `i` one step in the cycle;
    /// leaves the store unchanged when `i` is out of range.
    pub fn toggle_status_at(&mut self, i: usize)
        ensures
            final(self)@ == spec_toggle_status(old(self)@, i as int),
    {
        if i < self.tasks.len() {
            let next = next_status(self.tasks[i].status);
            self.tasks[i].status = next;
            proof {
                assert(self@ =~= spec_toggle_status(old(self)@, i as int));
            }
        } else {
            proof {
                assert(self@ =~= spec_toggle_status(old(self)@, i as int));
            }
        }
    }
}

} // verus!
