//! Identifiers of tasks, output buffers and memory pools.
//!
//! Each identifier is an opaque name. Its view is the sequence of characters
//! of that name, and two identifiers denote the same thing exactly when their
//! views are equal.

use vstd::prelude::*;

verus! {

/// The coordinator-assigned identity of a task.
#[derive(Debug)]
pub struct TaskIdentity {
    name: String,
}

/// The name of one output buffer of a task.
#[derive(Debug)]
pub struct BufferId {
    name: String,
}

/// The name of a memory pool.
#[derive(Debug)]
pub struct PoolId {
    name: String,
}

impl View for TaskIdentity {
    type V = Seq<char>;

    closed spec fn view(&self) -> Seq<char> {
        self.name@
    }
}

impl View for BufferId {
    type V = Seq<char>;

    closed spec fn view(&self) -> Seq<char> {
        self.name@
    }
}

impl View for PoolId {
    type V = Seq<char>;

    closed spec fn view(&self) -> Seq<char> {
        self.name@
    }
}

impl TaskIdentity {
    pub fn new(name: String) -> (id: Self)
        ensures
            id@ == name@,
    {
        TaskIdentity { name }
    }

    pub fn as_str(&self) -> (s: &str)
        ensures
            s@ == self@,
    {
        self.name.as_str()
    }

    /// Whether both identifiers name the same task.
    pub fn same(&self, other: &TaskIdentity) -> (b: bool)
        ensures
            b == (self@ == other@),
    {
        self.name == other.name
    }
}

impl Clone for TaskIdentity {
    fn clone(&self) -> (id: Self)
        ensures
            id@ == self@,
    {
        TaskIdentity { name: self.name.clone() }
    }
}

impl BufferId {
    pub fn new(name: String) -> (id: Self)
        ensures
            id@ == name@,
    {
        BufferId { name }
    }

    pub fn as_str(&self) -> (s: &str)
        ensures
            s@ == self@,
    {
        self.name.as_str()
    }

    /// Whether both identifiers name the same buffer.
    pub fn same(&self, other: &BufferId) -> (b: bool)
        ensures
            b == (self@ == other@),
    {
        self.name == other.name
    }
}

impl Clone for BufferId {
    fn clone(&self) -> (id: Self)
        ensures
            id@ == self@,
    {
        BufferId { name: self.name.clone() }
    }
}

impl PoolId {
    pub fn new(name: String) -> (id: Self)
        ensures
            id@ == name@,
    {
        PoolId { name }
    }

    pub fn as_str(&self) -> (s: &str)
        ensures
            s@ == self@,
    {
        self.name.as_str()
    }

    /// Whether both identifiers name the same pool.
    pub fn same(&self, other: &PoolId) -> (b: bool)
        ensures
            b == (self@ == other@),
    {
        self.name == other.name
    }
}

impl Clone for PoolId {
    fn clone(&self) -> (id: Self)
        ensures
            id@ == self@,
    {
        PoolId { name: self.name.clone() }
    }
}

} // verus!
