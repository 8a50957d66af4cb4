//! Shared data types of the monitoring suite and the binary packet codec that
//! its endpoints speak.

use vstd::prelude::*;

pub mod net;

verus! {

/// A user account, known by its login name.
#[derive(Debug)]
pub struct User {
    name: String,
}

impl View for User {
    type V = Seq<char>;

    closed spec fn view(&self) -> Seq<char> {
        self.name@
    }
}

impl Clone for User {
    fn clone(&self) -> (res: Self)
        ensures
            res@ == self@,
    {
        User { name: self.name.clone() }
    }
}

impl User {
    /// The login name.
    pub fn name<'a>(&'a self) -> (res: &'a str)
        ensures
            res@ == self@,
    {
        self.name.as_str()
    }

    /// A user with the given login name.
    pub fn new(name: &str) -> (res: Self)
        ensures
            res@ == name@,
    {
        Self { name: name.to_owned() }
    }
}

/// What a `Process` stands for: its id, its name and the name of its owner.
pub struct ProcessView {
    pub pid: u32,
    pub name: Seq<char>,
    pub user: Seq<char>,
}

/// A running process as the suite reports it.
#[derive(Debug)]
pub struct Process {
    pid: u32,
    name: String,
    user: User,
}

impl View for Process {
    type V = ProcessView;

    closed spec fn view(&self) -> ProcessView {
        ProcessView { pid: self.pid, name: self.name@, user: self.user@ }
    }
}

impl Clone for Process {
    fn clone(&self) -> (res: Self)
        ensures
            res@ == self@,
    {
        Process { pid: self.pid, name: self.name.clone(), user: self.user.clone() }
    }
}

impl<'a> Process {
    /// The process id.
    pub fn pid(&'a self) -> (res: &'a u32)
        ensures
            *res == self@.pid,
    {
        &self.pid
    }

    /// The name of the executable.
    pub fn name(&'a self) -> (res: &'a str)
        ensures
            res@ == self@.name,
    {
        self.name.as_str()
    }

    /// The account that owns the process.
    pub fn user(&'a self) -> (res: &'a User)
        ensures
            res@ == self@.user,
    {
        &self.user
    }

    /// A process record; the name and the owner are copied.
    pub fn new(pid: u32, name: &str, user: &User) -> (res: Self)
        ensures
            res@ == (ProcessView { pid: pid, name: name@, user: user@ }),
    {
        Self { pid, name: name.to_owned(), user: user.clone() }
    }
}

/// Whether a process was seen to start or to stop.
#[derive(Debug)]
pub enum ProcessStatus {
    Start(Process),
    Stop(Process),
}

} // verus!
