//! An in-memory backend: live rules kept by identity, for dry runs and for
//! exercising the reconciler without a host.

use vstd::prelude::*;

use crate::error::Error;
use crate::operator::{filter_matches, Backend, BackendCall, DeleteFilter};
use crate::planner::{rule_id_spec, rule_views, Rule, RuleView};

verus! {

/// Some held rule has identity `id`.
pub open spec fn holds_id(held: Seq<RuleView>, id: Seq<char>, config_hash: Seq<char>) -> bool {
    exists|j: int| 0 <= j < held.len() && rule_id_spec(#[trigger] held[j], config_hash) == id
}

/// The rules of `rules` whose identity is not among `held`, in order.
pub open spec fn new_rules(held: Seq<RuleView>, rules: Seq<RuleView>, config_hash: Seq<char>) -> Seq<
    RuleView,
>
    decreases rules.len(),
{
    if rules.len() == 0 {
        Seq::empty()
    } else {
        let rest = new_rules(held, rules.drop_last(), config_hash);
        if holds_id(held, rule_id_spec(rules.last(), config_hash), config_hash) {
            rest
        } else {
            rest.push(rules.last())
        }
    }
}

/// The held rules after applying `rules`: as with the NAT table's snapshot,
/// each rule whose identity was not live before the call is added, in
/// order.
pub open spec fn upsert_spec(held: Seq<RuleView>, rules: Seq<RuleView>, config_hash: Seq<char>) -> Seq<
    RuleView,
> {
    held + new_rules(held, rules, config_hash)
}

/// The held rules that `f` does not select, in order.
pub open spec fn retain_spec(held: Seq<RuleView>, f: crate::operator::DeleteFilterView, config_hash: Seq<char>) -> Seq<RuleView>
    decreases held.len(),
{
    if held.len() == 0 {
        held
    } else {
        let rest = retain_spec(held.drop_last(), f, config_hash);
        if filter_matches(f, rule_id_spec(held.last(), config_hash)) {
            rest
        } else {
            rest.push(held.last())
        }
    }
}

/// The live rules after each call of `calls` in turn, from none.
pub open spec fn replay(calls: Seq<BackendCall>, config_hash: Seq<char>) -> Seq<RuleView>
    decreases calls.len(),
{
    if calls.len() == 0 {
        Seq::empty()
    } else {
        let h = replay(calls.drop_last(), config_hash);
        match calls.last() {
            BackendCall::ReadState => h,
            BackendCall::Apply(rules, _) => upsert_spec(h, rules, config_hash),
            BackendCall::Delete(f, _) => retain_spec(h, f, config_hash),
        }
    }
}

fn holds(held: &Vec<Rule>, config_hash: &String, id: &String, upto: usize) -> (r: bool)
    requires
        upto <= held@.len(),
    ensures
        r == holds_id(rule_views(held@).take(upto as int), id@, config_hash@),
{
    let ghost hv = rule_views(held@);
    let mut j: usize = 0;
    while j < upto
        invariant
            hv == rule_views(held@),
            upto <= hv.len(),
            j <= upto,
            forall|k: int| 0 <= k < j ==> rule_id_spec(#[trigger] hv[k], config_hash@) != id@,
        decreases upto - j,
    {
        let other = held[j].rule_id(config_hash.as_str());
        if other == *id {
            assert(rule_id_spec(hv.take(upto as int)[j as int], config_hash@) == id@);
            return true;
        }
        j = j + 1;
    }
    assert forall|k: int| 0 <= k < upto implies rule_id_spec(
        #[trigger] hv.take(upto as int)[k],
        config_hash@,
    ) != id@ by {
        assert(hv.take(upto as int)[k] == hv[k]);
    }
    false
}

/// `held` with each rule of `rules` whose identity was not live added.
fn upserted(held: &Vec<Rule>, config_hash: &String, rules: Vec<Rule>) -> (r: Vec<Rule>)
    ensures
        rule_views(r@) == upsert_spec(rule_views(held@), rule_views(rules@), config_hash@),
{
    let ghost start = rule_views(held@);
    let ghost rv = rule_views(rules@);
    let ghost ch = config_hash@;
    let mut out: Vec<Rule> = Vec::new();
    let mut j: usize = 0;
    while j < held.len()
        invariant
            start == rule_views(held@),
            j <= held@.len(),
            rule_views(out@) == start.take(j as int),
        decreases held.len() - j,
    {
        let ghost prev = rule_views(out@);
        out.push(held[j].clone());
        assert(rule_views(out@) =~= prev.push(held@[j as int]@));
        assert(start.take(j + 1) =~= start.take(j as int).push(start[j as int]));
        j = j + 1;
    }
    assert(start.take(j as int) =~= start);
    let mut k: usize = 0;
    assert(rv.take(0) =~= Seq::<RuleView>::empty());
    assert(start + new_rules(start, rv.take(0), ch) =~= start);
    while k < rules.len()
        invariant
            rv == rule_views(rules@),
            ch == config_hash@,
            start == rule_views(held@),
            k <= rv.len(),
            rule_views(out@) == start + new_rules(start, rv.take(k as int), ch),
        decreases rules.len() - k,
    {
        assert(rv.take(k + 1).drop_last() =~= rv.take(k as int));
        assert(rv.take(k + 1).last() == rules@[k as int]@);
        assert(start.take(held@.len() as int) =~= start);
        let id = rules[k].rule_id(config_hash.as_str());
        if !holds(held, config_hash, &id, held.len()) {
            let ghost prev = rule_views(out@);
            out.push(rules[k].clone());
            assert(rule_views(out@) =~= prev.push(rules@[k as int]@));
            assert(rule_views(out@) =~= start + new_rules(start, rv.take(k + 1), ch));
        }
        k = k + 1;
    }
    assert(rv.take(k as int) =~= rv);
    out
}

/// The rules of `held` that `filter` does not select.
fn retained(held: &Vec<Rule>, config_hash: &String, filter: &DeleteFilter) -> (r: Vec<Rule>)
    ensures
        rule_views(r@) == retain_spec(rule_views(held@), filter@, config_hash@),
{
    let ghost hv = rule_views(held@);
    let mut kept: Vec<Rule> = Vec::new();
    let mut k: usize = 0;
    while k < held.len()
        invariant
            hv == rule_views(held@),
            k <= hv.len(),
            rule_views(kept@) == retain_spec(hv.take(k as int), filter@, config_hash@),
        decreases held.len() - k,
    {
        assert(hv.take(k + 1).drop_last() =~= hv.take(k as int));
        assert(hv.take(k + 1).last() == held@[k as int]@);
        let id = held[k].rule_id(config_hash.as_str());
        if !filter.matches(id.as_str()) {
            let ghost prev = rule_views(kept@);
            kept.push(held[k].clone());
            assert(rule_views(kept@) =~= prev.push(held@[k as int]@));
        }
        k = k + 1;
    }
    assert(hv.take(k as int) =~= hv);
    kept
}

/// Live rules kept in memory, matched by their identities. The live rules
/// are always the replay of the calls received.
pub struct MemoryBackend {
    rules: Vec<Rule>,
    config_hash: String,
    log: Ghost<Seq<BackendCall>>,
}

impl MemoryBackend {
    #[verifier::type_invariant]
    spec fn inv(&self) -> bool {
        rule_views(self.rules@) == replay(self.log@, self.config_hash@)
    }

    /// An empty table under the given configuration hash.
    pub fn new(config_hash: &str) -> (r: Self)
        ensures
            r.spec_config_hash() == config_hash@,
            r.history() == Seq::<BackendCall>::empty(),
    {
        let rules: Vec<Rule> = Vec::new();
        let ch = config_hash.to_owned();
        assert(rule_views(rules@) =~= replay(Seq::<BackendCall>::empty(), ch@));
        MemoryBackend { rules, config_hash: ch, log: Ghost(Seq::empty()) }
    }

    /// The live rules: the replay of every call received.
    pub fn rules(&self) -> (r: &Vec<Rule>)
        ensures
            rule_views(r@) == replay(self.history(), self.spec_config_hash()),
    {
        proof {
            use_type_invariant(self);
        }
        &self.rules
    }
}

impl Backend for MemoryBackend {
    closed spec fn history(&self) -> Seq<BackendCall> {
        self.log@
    }

    closed spec fn spec_config_hash(&self) -> Seq<char> {
        self.config_hash@
    }

    fn read_state(&mut self) {
        proof {
            use_type_invariant(&*self);
        }
        let ghost log = self.log@.push(BackendCall::ReadState);
        assert(log.drop_last() =~= self.log@);
        self.log = Ghost(log);
    }

    fn apply_rules(&mut self, rules: Vec<Rule>) -> (r: Result<(), Error>) {
        proof {
            use_type_invariant(&*self);
        }
        let ghost log = self.log@.push(BackendCall::Apply(rule_views(rules@), None));
        assert(log.drop_last() =~= self.log@);
        let next = upserted(&self.rules, &self.config_hash, rules);
        let ch = self.config_hash.clone();
        *self = MemoryBackend { rules: next, config_hash: ch, log: Ghost(log) };
        Ok(())
    }

    fn delete_rules(&mut self, filter: &DeleteFilter) -> (r: Result<(), Error>) {
        proof {
            use_type_invariant(&*self);
        }
        let ghost log = self.log@.push(BackendCall::Delete(filter@, None));
        assert(log.drop_last() =~= self.log@);
        let next = retained(&self.rules, &self.config_hash, filter);
        let ch = self.config_hash.clone();
        *self = MemoryBackend { rules: next, config_hash: ch, log: Ghost(log) };
        Ok(())
    }

    fn config_hash(&self) -> (r: String) {
        self.config_hash.clone()
    }
}

} // verus!
