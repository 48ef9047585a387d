//! The NAT backend that runs its commands through a shell: local, or over
//! SSH, whichever the command runner does.

use vstd::prelude::*;

use crate::error::Error;
use crate::iptables::{
    apply_spec, config_hash_spec, delete_all_spec, emittable, invocations, BatchOpts,
    IptablesBackend,
};
use crate::operator::{outcome, Backend, BackendCall, DeleteFilter};
use crate::planner::{rule_views, Rule};
use crate::text::views;

verus! {

/// Runs one shell command and returns what it printed, or why it failed.
pub trait CommandRunner {
    fn run(&mut self, cmd: &str) -> Result<String, String>;
}

/// The iptables backend, with its commands run by `R`.
pub struct ShellBackend<R> {
    inner: IptablesBackend,
    runner: R,
    log: Ghost<Seq<BackendCall>>,
}

impl<R: CommandRunner> ShellBackend<R> {
    pub fn new(
        runner: R,
        batch_opts: BatchOpts,
        local_ip: Option<String>,
        extra_ips: Option<String>,
    ) -> (r: Self)
        ensures
            r.history() == Seq::<BackendCall>::empty(),
            r.spec_inner()@.rule_state == Seq::<char>::empty(),
            r.spec_config_hash() == config_hash_spec(
                crate::res::entities::opt_view(local_ip),
                crate::res::entities::opt_view(extra_ips),
            ),
    {
        ShellBackend {
            inner: IptablesBackend::new(batch_opts, local_ip, extra_ips),
            runner,
            log: Ghost(Seq::empty()),
        }
    }

    pub closed spec fn spec_inner(&self) -> IptablesBackend {
        self.inner
    }

    /// The command generator and its snapshot of live rules.
    pub fn inner(&self) -> (r: &IptablesBackend)
        ensures
            *r == self.spec_inner(),
    {
        &self.inner
    }

    pub fn runner(&self) -> &R {
        &self.runner
    }

    /// Runs the invocations in order, stopping at the first that fails.
    fn run_all(&mut self, cmds: Vec<String>) -> (r: Result<(), Error>)
        ensures
            final(self).spec_inner() == old(self).spec_inner(),
            final(self).log == old(self).log,
    {
        let mut k: usize = 0;
        while k < cmds.len()
            invariant
                self.inner == old(self).inner,
                self.log == old(self).log,
            decreases cmds.len() - k,
        {
            match self.runner.run(cmds[k].as_str()) {
                Ok(_) => {},
                Err(msg) => {
                    return Err(Error::BackendError(Box::new(Error::ExecutorError(msg))));
                },
            }
            k = k + 1;
        }
        Ok(())
    }

    /// The invocations that `apply_rules` runs for `rules`, in order:
    /// nothing when some rule cannot be written.
    pub fn apply_invocations(&self, rules: &Vec<Rule>) -> (r: Option<Vec<String>>)
        ensures
            r is Some <==> forall|k: int|
                0 <= k < rules@.len() ==> emittable(#[trigger] rules@[k]@, self.spec_inner()@.local_ip),
            r is Some ==> views(r->0@) == invocations(
                apply_spec(
                    rule_views(rules@),
                    self.spec_inner()@.rule_state,
                    self.spec_inner()@.local_ip,
                    self.spec_inner()@.config_hash(),
                ),
                self.spec_inner()@.opts(),
            ),
    {
        if self.inner.can_emit(rules) {
            Some(self.inner.apply_commands(rules))
        } else {
            None
        }
    }
}

impl<R: CommandRunner> Backend for ShellBackend<R> {
    closed spec fn history(&self) -> Seq<BackendCall> {
        self.log@
    }

    closed spec fn spec_config_hash(&self) -> Seq<char> {
        self.inner@.config_hash()
    }

    /// Runs the snapshot command and keeps its marked lines; a failed
    /// command counts as no live rules.
    fn read_state(&mut self) {
        let cmd = self.inner.read_state_command();
        let out = match self.runner.run(cmd.as_str()) {
            Ok(o) => Some(o),
            Err(_) => None,
        };
        self.inner.set_rule_state(out);
        self.log = Ghost(self.log@.push(BackendCall::ReadState));
    }

    /// Runs the commands that append the rules not live yet, highest index
    /// first; a rule that cannot be written is an invariant violation.
    fn apply_rules(&mut self, rules: Vec<Rule>) -> (r: Result<(), Error>) {
        let ghost rv = rule_views(rules@);
        let r = match self.apply_invocations(&rules) {
            Some(cmds) => self.run_all(cmds),
            None => Err(
                Error::InvariantViolation(String::from_str("loopback rule without a local address")),
            ),
        };
        self.log = Ghost(self.log@.push(BackendCall::Apply(rv, outcome(r))));
        r
    }

    /// Runs the commands that delete the live rules `filter` selects.
    fn delete_rules(&mut self, filter: &DeleteFilter) -> (r: Result<(), Error>) {
        let cmds = self.inner.delete_commands(filter);
        let r = self.run_all(cmds);
        self.log = Ghost(self.log@.push(BackendCall::Delete(filter@, outcome(r))));
        r
    }

    fn config_hash(&self) -> (r: String) {
        self.inner.config_hash()
    }
}

} // verus!
