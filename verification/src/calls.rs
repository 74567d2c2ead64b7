//! The commands that a runner was given, and its answers.

use vstd::prelude::*;

use crate::firewall;
use crate::firewall::{CommandRunner, CommandSpec, CommandView, RunResult};

verus! {

/// A runner with the log of what it was given and what it answered, in their
/// order. Nothing reaches the runner but through `run`, so the log is complete.
pub struct Calls<R> {
    runner: R,
    log: Ghost<Seq<(CommandView, RunResult)>>,
}

impl<R> Calls<R> {
    pub closed spec fn spec_runner(self) -> R {
        self.runner
    }

    pub closed spec fn log(self) -> Seq<(CommandView, RunResult)> {
        self.log@
    }

    pub fn new(runner: R) -> (r: Calls<R>)
        ensures
            r.spec_runner() == runner,
            r.log() == Seq::<(CommandView, RunResult)>::empty(),
    {
        Calls { runner, log: Ghost(Seq::empty()) }
    }
}

impl<R: CommandRunner> Calls<R> {
    /// Gives the runner a command and waits for its answer.
    pub fn run(&mut self, command: &CommandSpec) -> (answer: RunResult)
        ensures
            firewall::answered(old(self).spec_runner(), command@, answer),
            final(self).spec_runner() == old(self).spec_runner(),
            final(self).log() == old(self).log().push((command@, answer)),
    {
        let answer = self.runner.run(command);
        assert(call_ensures(R::run, (&self.runner, command), answer));
        proof {
            self.log@ = self.log@.push((command@, answer));
        }
        answer
    }
}

} // verus!
