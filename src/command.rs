//! A suggested shell command, and a command line as the history log keeps it.
use vstd::prelude::*;

verus! {

/// One candidate shell command offered to the user.
#[derive(Debug)]
pub struct Suggestion {
    pub command: String,
}

impl Suggestion {
    pub fn new(command: String) -> (r: Self)
        ensures
            r.command == command,
    {
        Suggestion { command }
    }

    /// The command text, as it is shown in a list of choices.
    pub fn to_string(&self) -> (r: String)
        ensures
            r@ == self.command@,
    {
        self.command.clone()
    }
}

impl Clone for Suggestion {
    fn clone(&self) -> (r: Self)
        ensures
            r == *self,
    {
        Suggestion { command: self.command.clone() }
    }
}

/// A command attempt: what the user asked for, the command that was settled
/// on, and when (Unix seconds).
#[derive(Debug, PartialEq, Eq)]
pub struct Command {
    pub description: String,
    pub command: String,
    pub timestamp: i64,
    pub executed: bool,
}

/// Relies on `chrono::Utc::now` and `DateTime::timestamp`: the current time in
/// whole seconds since the Unix epoch. Nothing is promised of its value.
#[verifier::external_body]
fn unix_now() -> (r: i64) {
    chrono::Utc::now().timestamp()
}

impl Command {
    /// A command created now, not yet marked executed.
    pub fn new(description: String, command: String) -> (r: Self)
        ensures
            r.description == description,
            r.command == command,
            !r.executed,
    {
        let timestamp = unix_now();
        Command::at(description, command, timestamp)
    }

    /// A command created at `timestamp`, not yet marked executed.
    pub fn at(description: String, command: String, timestamp: i64) -> (r: Self)
        ensures
            r == (Command { description, command, timestamp, executed: false }),
    {
        Command { description, command, timestamp, executed: false }
    }

    pub fn with_executed(self, executed: bool) -> (r: Self)
        ensures
            r == (Command { executed, ..self }),
    {
        let mut c = self;
        c.executed = executed;
        c
    }
}

impl Clone for Command {
    fn clone(&self) -> (r: Self)
        ensures
            r == *self,
    {
        Command {
            description: self.description.clone(),
            command: self.command.clone(),
            timestamp: self.timestamp,
            executed: self.executed,
        }
    }
}

} // verus!
