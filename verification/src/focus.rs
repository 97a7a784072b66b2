//! User-configured focus integration.
//!
//! Beckon intentionally has no window manager dependency; every window manager
//! goes through this same boundary.

use vstd::prelude::*;

use crate::config::{command_view, split_command, FocusConfig};
use crate::service::plain_answer;
use crate::text::views;

verus! {

broadcast use vstd::string::group_string_axioms;

/// Brings the terminal to the front.
pub trait FocusAdapter {
    /// The answers of the calls made so far, oldest first. It is ghost: an
    /// integration that is not itself verified has nothing to define.
    open spec fn made(&self) -> Seq<Result<(), Seq<char>>> {
        arbitrary()
    }

    /// Brings the terminal to the front.
    fn focus_terminal(&mut self) -> (answer: Result<(), String>)
        ensures
            final(self).made() == old(self).made().push(plain_answer(answer)),
    ;
}

/// Runs the configured command.
pub struct CommandFocus<'a> {
    config: &'a FocusConfig,
}

impl<'a> CommandFocus<'a> {
    /// The configuration of the command.
    pub closed spec fn configured(&self) -> Option<Seq<Seq<char>>> {
        command_view(*self.config)
    }

    /// Runs the command of a configuration.
    pub fn new(config: &'a FocusConfig) -> (focus: Self)
        ensures
            focus.configured() == command_view(*config),
    {
        CommandFocus { config }
    }

    /// The program to run and its arguments; none where no command is set. A
    /// configuration that is accepted has no empty command.
    pub fn command(&self) -> (command: Option<(String, Vec<String>)>)
        requires
            self.configured() is Some ==> (self.configured()->0).len() > 0,
        ensures
            match command {
                Some((program, arguments)) => self.configured() == Some(
                    seq![program@] + views(arguments@),
                ),
                None => self.configured() is None,
            },
    {
        match &self.config.command {
            None => None,
            Some(command) => split_command(command),
        }
    }
}

/// The result of a command that ran.
pub fn command_result(program: &str, success: bool, status: &str) -> (result: Result<(), String>)
    ensures
        match result {
            Ok(()) => success,
            Err(message) => !success && message@ == "focus command "@ + program@
                + " exited with "@ + status@,
        },
{
    if success {
        Ok(())
    } else {
        Err("focus command ".to_owned().concat(program).concat(" exited with ").concat(status))
    }
}

} // verus!
