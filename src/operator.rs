//! The reconciler: decides which rules to apply and which live rules to
//! delete when the state changes, and drives a backend accordingly.

use vstd::prelude::*;

use crate::error::Error;
use crate::planner::{
    active_nodes_of, interfaces_of, make_pod_rules, make_rules_for, nodes_rules, plan,
    plan_spec, pod_rules_spec, rule_id_spec, rule_views, services_of, Rule, RuleView,
};
use crate::res::{ResourceKind, ResourceView};
use crate::state::{minus, of_kind, State};
use crate::text::{contains_spec, contains_text};

verus! {

/// Which live rules to delete, by what their text contains.
#[derive(Debug)]
pub enum DeleteFilter {
    /// Every live rule.
    All,
    /// Rules that contain none of these ids.
    NoneOf(Vec<String>),
    /// Rules that contain one of these ids.
    AnyOf(Vec<String>),
    /// Pod rules that contain none of these ids.
    PodsNoneOf(Vec<String>),
}

pub enum DeleteFilterView {
    All,
    NoneOf(Seq<Seq<char>>),
    AnyOf(Seq<Seq<char>>),
    PodsNoneOf(Seq<Seq<char>>),
}

pub open spec fn texts(v: Seq<String>) -> Seq<Seq<char>> {
    v.map_values(|s: String| s@)
}

impl View for DeleteFilter {
    type V = DeleteFilterView;

    open spec fn view(&self) -> DeleteFilterView {
        match self {
            DeleteFilter::All => DeleteFilterView::All,
            DeleteFilter::NoneOf(v) => DeleteFilterView::NoneOf(texts(v@)),
            DeleteFilter::AnyOf(v) => DeleteFilterView::AnyOf(texts(v@)),
            DeleteFilter::PodsNoneOf(v) => DeleteFilterView::PodsNoneOf(texts(v@)),
        }
    }
}

pub open spec fn contains_none(line: Seq<char>, ids: Seq<Seq<char>>) -> bool {
    forall|k: int| 0 <= k < ids.len() ==> !contains_spec(line, #[trigger] ids[k])
}

/// Whether a live rule's text is selected for deletion.
pub open spec fn filter_matches(f: DeleteFilterView, line: Seq<char>) -> bool {
    match f {
        DeleteFilterView::All => true,
        DeleteFilterView::NoneOf(ids) => contains_none(line, ids),
        DeleteFilterView::AnyOf(ids) => !contains_none(line, ids),
        DeleteFilterView::PodsNoneOf(ids) => contains_spec(line, "pod::"@) && contains_none(
            line,
            ids,
        ),
    }
}

fn contains_none_exec(line: &str, ids: &Vec<String>) -> (r: bool)
    ensures
        r == contains_none(line@, texts(ids@)),
{
    let mut k: usize = 0;
    while k < ids.len()
        invariant
            k <= ids@.len(),
            forall|j: int| 0 <= j < k ==> !contains_spec(line@, #[trigger] texts(ids@)[j]),
        decreases ids.len() - k,
    {
        if contains_text(line, ids[k].as_str()) {
            assert(contains_spec(line@, texts(ids@)[k as int]));
            return false;
        }
        k = k + 1;
    }
    true
}

impl DeleteFilter {
    pub fn matches(&self, line: &str) -> (r: bool)
        ensures
            r == filter_matches(self@, line@),
    {
        match self {
            DeleteFilter::All => true,
            DeleteFilter::NoneOf(ids) => contains_none_exec(line, ids),
            DeleteFilter::AnyOf(ids) => !contains_none_exec(line, ids),
            DeleteFilter::PodsNoneOf(ids) => contains_text(line, "pod::") && contains_none_exec(
                line,
                ids,
            ),
        }
    }
}

/// One step of a reconciliation pass.
#[derive(Debug)]
pub enum Action {
    Apply(Vec<Rule>),
    Delete(DeleteFilter),
}

pub enum ActionView {
    Apply(Seq<RuleView>),
    Delete(DeleteFilterView),
}

impl View for Action {
    type V = ActionView;

    open spec fn view(&self) -> ActionView {
        match self {
            Action::Apply(v) => ActionView::Apply(rule_views(v@)),
            Action::Delete(f) => ActionView::Delete(f@),
        }
    }
}

pub open spec fn action_views(v: Seq<Action>) -> Seq<ActionView> {
    v.map_values(|a: Action| a@)
}

/// The full identities of `rules` under `config_hash`.
pub open spec fn rule_ids(rules: Seq<RuleView>, config_hash: Seq<char>) -> Seq<Seq<char>>
    decreases rules.len(),
{
    if rules.len() == 0 {
        Seq::empty()
    } else {
        rule_ids(rules.drop_last(), config_hash).push(rule_id_spec(rules.last(), config_hash))
    }
}

/// The identities of the services among `s`.
pub open spec fn service_hashes(s: Seq<ResourceView>) -> Seq<Seq<char>>
    decreases s.len(),
{
    if s.len() == 0 {
        Seq::empty()
    } else {
        let rest = service_hashes(s.drop_last());
        match s.last() {
            ResourceView::Service(x) => rest.push(x.service_hash()),
            _ => rest,
        }
    }
}

/// Some entry of `s` has kind `k`.
pub open spec fn has_kind(s: Seq<ResourceView>, k: ResourceKind) -> bool {
    exists|i: int| 0 <= i < s.len() && (#[trigger] s[i]).kind() == k
}

/// The diff between two states touches resources of kind `k`.
pub open spec fn touches(s: Seq<ResourceView>, prev: Seq<ResourceView>, k: ResourceKind) -> bool {
    has_kind(minus(s, prev), k) || has_kind(minus(prev, s), k)
}

/// The steps of a reconciliation pass from `prev` to `s`, or `None` when
/// nothing changed. A change of nodes or interfaces rebuilds everything:
/// apply the full plan, delete every live rule outside it. Otherwise a
/// service change applies the rules of the added services and deletes the
/// rules of the removed ones, and a pod change re-plans all pod rules and
/// deletes the pod rules outside that plan.
pub open spec fn reconcile_spec(s: Seq<ResourceView>, prev: Seq<ResourceView>, config_hash: Seq<
    char,
>) -> Option<Seq<ActionView>> {
    let added = minus(s, prev);
    let removed = minus(prev, s);
    if added.len() == 0 && removed.len() == 0 {
        None
    } else if touches(s, prev, ResourceKind::Node) || touches(s, prev, ResourceKind::Interface) {
        let rules = plan_spec(s);
        Some(
            seq![
                ActionView::Apply(rules),
                ActionView::Delete(DeleteFilterView::NoneOf(rule_ids(rules, config_hash))),
            ],
        )
    } else {
        let svc_steps = if touches(s, prev, ResourceKind::Service) {
            let ns = active_nodes_of(s);
            seq![
                ActionView::Apply(nodes_rules(ns, ns, services_of(added), interfaces_of(s))),
                ActionView::Delete(DeleteFilterView::AnyOf(service_hashes(removed))),
            ]
        } else {
            Seq::empty()
        };
        let pod_steps = if touches(s, prev, ResourceKind::Pod) {
            let rules = pod_rules_spec(s);
            seq![
                ActionView::Apply(rules),
                ActionView::Delete(DeleteFilterView::PodsNoneOf(rule_ids(rules, config_hash))),
            ]
        } else {
            Seq::empty()
        };
        Some(svc_steps + pod_steps)
    }
}

fn rule_ids_exec(rules: &Vec<Rule>, config_hash: &str) -> (r: Vec<String>)
    ensures
        texts(r@) == rule_ids(rule_views(rules@), config_hash@),
{
    let ghost rv = rule_views(rules@);
    let mut out: Vec<String> = Vec::new();
    let mut k: usize = 0;
    while k < rules.len()
        invariant
            rv == rule_views(rules@),
            k <= rules@.len(),
            texts(out@) == rule_ids(rv.take(k as int), config_hash@),
        decreases rules.len() - k,
    {
        let ghost prev = texts(out@);
        assert(rv.take(k + 1).drop_last() =~= rv.take(k as int));
        assert(rv.take(k + 1).last() == rules@[k as int]@);
        let id = rules[k].rule_id(config_hash);
        out.push(id);
        assert(texts(out@) =~= prev.push(id@));
        k = k + 1;
    }
    assert(rv.take(k as int) =~= rv);
    out
}

fn service_hashes_exec(s: &State) -> (r: Vec<String>)
    ensures
        texts(r@) == service_hashes(s@),
{
    let rs = s.resources();
    let ghost sv = s@;
    let mut out: Vec<String> = Vec::new();
    let mut k: usize = 0;
    while k < rs.len()
        invariant
            sv == crate::state::res_views(rs@),
            k <= sv.len(),
            texts(out@) == service_hashes(sv.take(k as int)),
        decreases rs.len() - k,
    {
        let ghost prev = texts(out@);
        assert(sv.take(k + 1).drop_last() =~= sv.take(k as int));
        assert(sv.take(k + 1).last() == rs@[k as int]@);
        match &rs[k] {
            crate::res::Resource::Service(x) => {
                let h = x.service_hash();
                out.push(h);
                assert(texts(out@) =~= prev.push(h@));
            },
            _ => {},
        }
        k = k + 1;
    }
    assert(sv.take(k as int) =~= sv);
    out
}

fn has_kind_exec(s: &State, k: ResourceKind) -> (r: bool)
    ensures
        r == has_kind(s@, k),
{
    let rs = s.resources();
    let mut i: usize = 0;
    while i < rs.len()
        invariant
            s@ == crate::state::res_views(rs@),
            i <= s@.len(),
            forall|j: int| 0 <= j < i ==> (#[trigger] s@[j]).kind() != k,
        decreases rs.len() - i,
    {
        assert(s@[i as int] == rs@[i as int]@);
        if rs[i].type_id() == k {
            return true;
        }
        i = i + 1;
    }
    false
}

/// The steps of a reconciliation pass from `prev_state` to `state`, or
/// `None` when nothing changed.
pub fn reconcile_plan(state: &State, prev_state: &State, config_hash: &str) -> (r: Option<
    Vec<Action>,
>)
    ensures
        match reconcile_spec(state@, prev_state@, config_hash@) {
            None => r is None,
            Some(steps) => r is Some && action_views(r->0@) == steps,
        },
{
    let (added, removed) = state.diff(prev_state);
    if added.is_empty() && removed.is_empty() {
        return None;
    }
    let mut steps: Vec<Action> = Vec::new();
    let nodes_changed = has_kind_exec(&added, ResourceKind::Node) || has_kind_exec(
        &removed,
        ResourceKind::Node,
    );
    let ifaces_changed = has_kind_exec(&added, ResourceKind::Interface) || has_kind_exec(
        &removed,
        ResourceKind::Interface,
    );
    if nodes_changed || ifaces_changed {
        let rules = plan(state);
        let ids = rule_ids_exec(&rules, config_hash);
        steps.push(Action::Apply(rules));
        steps.push(Action::Delete(DeleteFilter::NoneOf(ids)));
        assert(action_views(steps@) =~= reconcile_spec(state@, prev_state@, config_hash@)->0);
        return Some(steps);
    }
    let ghost svc_start = action_views(steps@);
    if has_kind_exec(&added, ResourceKind::Service) || has_kind_exec(
        &removed,
        ResourceKind::Service,
    ) {
        let rules = make_rules_for(state, &added, state);
        let ids = service_hashes_exec(&removed);
        steps.push(Action::Apply(rules));
        steps.push(Action::Delete(DeleteFilter::AnyOf(ids)));
    }
    let ghost svc_steps = action_views(steps@);
    if has_kind_exec(&added, ResourceKind::Pod) || has_kind_exec(&removed, ResourceKind::Pod) {
        let rules = make_pod_rules(state);
        let ids = rule_ids_exec(&rules, config_hash);
        steps.push(Action::Apply(rules));
        steps.push(Action::Delete(DeleteFilter::PodsNoneOf(ids)));
    }
    assert(action_views(steps@) =~= reconcile_spec(state@, prev_state@, config_hash@)->0);
    Some(steps)
}

/// Reconciling a state against itself finds no change and has nothing to
/// do: no step is planned and the backend is not touched.
pub proof fn lemma_reconcile_unchanged(s: Seq<ResourceView>, config_hash: Seq<char>)
    ensures
        minus(s, s).len() == 0,
        reconcile_spec(s, s, config_hash) is None,
{
    if minus(s, s).len() > 0 {
        let x = minus(s, s)[0];
        assert(minus(s, s).contains(x));
        lemma_minus_member(s, s, x);
    }
}

proof fn lemma_minus_member(a: Seq<ResourceView>, b: Seq<ResourceView>, x: ResourceView)
    ensures
        minus(a, b).contains(x) <==> (a.contains(x) && !b.contains(x)),
{
    crate::state::lemma_filter_subset(a, crate::state::not_in(b), x);
}

proof fn lemma_kind_change_touches(s: Seq<ResourceView>, prev: Seq<ResourceView>, k: ResourceKind)
    requires
        of_kind(s, k).to_set() != of_kind(prev, k).to_set(),
    ensures
        touches(s, prev, k),
{
    let a = of_kind(s, k).to_set();
    let b = of_kind(prev, k).to_set();
    if forall|x: ResourceView| a.contains(x) == b.contains(x) {
        assert(a =~= b);
    }
    let x = choose|x: ResourceView| a.contains(x) != b.contains(x);
    crate::state::lemma_filter_subset(s, crate::state::kind_is(k), x);
    crate::state::lemma_filter_subset(prev, crate::state::kind_is(k), x);
    lemma_minus_member(s, prev, x);
    lemma_minus_member(prev, s, x);
    if a.contains(x) {
        let i = choose|i: int| 0 <= i < minus(s, prev).len() && minus(s, prev)[i] == x;
        assert(minus(s, prev)[i].kind() == k);
    } else {
        let i = choose|i: int| 0 <= i < minus(prev, s).len() && minus(prev, s)[i] == x;
        assert(minus(prev, s)[i].kind() == k);
    }
}

/// When the set of nodes or of interfaces changes, the pass rebuilds from
/// the full plan of the new state: it applies exactly that plan and deletes
/// every live rule outside it.
pub proof fn lemma_nuclear_trigger(s: Seq<ResourceView>, prev: Seq<ResourceView>, config_hash: Seq<
    char,
>)
    requires
        of_kind(s, ResourceKind::Node).to_set() != of_kind(prev, ResourceKind::Node).to_set()
            || of_kind(s, ResourceKind::Interface).to_set() != of_kind(
            prev,
            ResourceKind::Interface,
        ).to_set(),
    ensures
        reconcile_spec(s, prev, config_hash) == Some(
            seq![
                ActionView::Apply(plan_spec(s)),
                ActionView::Delete(DeleteFilterView::NoneOf(rule_ids(plan_spec(s), config_hash))),
            ],
        ),
{
    let k = if of_kind(s, ResourceKind::Node).to_set() != of_kind(prev, ResourceKind::Node).to_set() {
        ResourceKind::Node
    } else {
        ResourceKind::Interface
    };
    lemma_kind_change_touches(s, prev, k);
}

/// Rule identities are a function of the resources and the configuration
/// hash alone: the same state and hash give the same ids in every run, and
/// so does the plan that carries them.
pub proof fn lemma_rule_ids_stable(
    s1: Seq<ResourceView>,
    s2: Seq<ResourceView>,
    config_hash: Seq<char>,
)
    requires
        s1 == s2,
    ensures
        rule_ids(plan_spec(s1), config_hash) == rule_ids(plan_spec(s2), config_hash),
{
}

/// When the only change is that service `s` became `s2` (for instance a new
/// host port), the pass applies the rules of `s2` alone and deletes the live
/// rules that carry `s`'s identity; nothing else is touched.
pub proof fn lemma_service_change(
    state: Seq<ResourceView>,
    prev: Seq<ResourceView>,
    s: crate::res::entities::ServiceView,
    s2: crate::res::entities::ServiceView,
    config_hash: Seq<char>,
)
    requires
        minus(state, prev) == seq![ResourceView::Service(s2)],
        minus(prev, state) == seq![ResourceView::Service(s)],
    ensures
        reconcile_spec(state, prev, config_hash) == Some(
            seq![
                ActionView::Apply(
                    nodes_rules(
                        active_nodes_of(state),
                        active_nodes_of(state),
                        seq![s2],
                        interfaces_of(state),
                    ),
                ),
                ActionView::Delete(DeleteFilterView::AnyOf(seq![s.service_hash()])),
            ],
        ),
{
    let a = minus(state, prev);
    let b = minus(prev, state);
    assert(!has_kind(a, ResourceKind::Node) && !has_kind(b, ResourceKind::Node));
    assert(!has_kind(a, ResourceKind::Interface) && !has_kind(b, ResourceKind::Interface));
    assert(!has_kind(a, ResourceKind::Pod) && !has_kind(b, ResourceKind::Pod));
    assert(a[0].kind() == ResourceKind::Service);
    assert(a.drop_last() =~= Seq::<ResourceView>::empty());
    assert(b.drop_last() =~= Seq::<ResourceView>::empty());
    assert(a.last() == ResourceView::Service(s2));
    assert(b.last() == ResourceView::Service(s));
    assert(services_of(a.drop_last()) =~= Seq::<crate::res::entities::ServiceView>::empty());
    assert(service_hashes(b.drop_last()) =~= Seq::<Seq<char>>::empty());
    assert(services_of(a) =~= seq![s2]);
    assert(service_hashes(b) =~= seq![s.service_hash()]);
    let steps = reconcile_spec(state, prev, config_hash)->0;
    assert(steps =~= seq![
        ActionView::Apply(
            nodes_rules(active_nodes_of(state), active_nodes_of(state), seq![s2], interfaces_of(state)),
        ),
        ActionView::Delete(DeleteFilterView::AnyOf(seq![s.service_hash()])),
    ]);
}

/// When a node leaves the state (it went not ready, or was excluded), the
/// pass rebuilds from the full plan of the new state and deletes every live
/// rule outside it, including every rule that sent traffic to that node.
pub proof fn lemma_node_removed(
    state: Seq<ResourceView>,
    prev: Seq<ResourceView>,
    n: crate::res::entities::NodeView,
    config_hash: Seq<char>,
)
    requires
        minus(prev, state).contains(ResourceView::Node(n)),
    ensures
        reconcile_spec(state, prev, config_hash) == Some(
            seq![
                ActionView::Apply(plan_spec(state)),
                ActionView::Delete(DeleteFilterView::NoneOf(rule_ids(plan_spec(state), config_hash))),
            ],
        ),
{
    let b = minus(prev, state);
    let i = choose|i: int| 0 <= i < b.len() && b[i] == ResourceView::Node(n);
    assert(b[i].kind() == ResourceKind::Node);
    assert(touches(state, prev, ResourceKind::Node));
}

/// One call a backend received, with the error it answered, if any.
pub enum BackendCall {
    ReadState,
    Apply(Seq<RuleView>, Option<Error>),
    Delete(DeleteFilterView, Option<Error>),
}

/// The error of a call's result, if any.
pub open spec fn outcome(r: Result<(), Error>) -> Option<Error> {
    match r {
        Ok(_) => None,
        Err(e) => Some(e),
    }
}

/// The step a call carried out, if it carried one out.
pub open spec fn call_step(c: BackendCall) -> Option<ActionView> {
    match c {
        BackendCall::ReadState => None,
        BackendCall::Apply(rules, _) => Some(ActionView::Apply(rules)),
        BackendCall::Delete(f, _) => Some(ActionView::Delete(f)),
    }
}

/// The error a call answered, if any.
pub open spec fn call_error(c: BackendCall) -> Option<Error> {
    match c {
        BackendCall::ReadState => None,
        BackendCall::Apply(_, e) => e,
        BackendCall::Delete(_, e) => e,
    }
}

/// `calls` carry out the first steps of `steps` in order, and every call
/// but possibly the last succeeded.
pub open spec fn follows_prefix(calls: Seq<BackendCall>, steps: Seq<ActionView>) -> bool {
    &&& calls.len() <= steps.len()
    &&& forall|i: int| 0 <= i < calls.len() ==> call_step(#[trigger] calls[i]) == Some(steps[i])
    &&& forall|i: int| 0 <= i < calls.len() - 1 ==> call_error(#[trigger] calls[i]) is None
}

/// The outcome of carrying out `steps` with `calls`: either every step was
/// carried out and succeeded and the result is `Ok`, or the last call made
/// failed, no step followed it, and the result wraps its error.
pub open spec fn steps_outcome(calls: Seq<BackendCall>, steps: Seq<ActionView>, r: Result<(), Error>) -> bool {
    &&& follows_prefix(calls, steps)
    &&& r is Ok ==> calls.len() == steps.len() && (calls.len() == 0 || call_error(calls.last()) is None)
    &&& r is Err ==> calls.len() > 0 && call_error(calls.last()) is Some && r->Err_0
        == Error::OperatorError(Box::new(call_error(calls.last())->0))
}

/// The backend's history across one pass that changed something: a
/// snapshot refresh, then the planned steps as `steps_outcome` says.
pub open spec fn pass_calls(
    before: Seq<BackendCall>,
    after: Seq<BackendCall>,
    steps: Seq<ActionView>,
    r: Result<(), Error>,
) -> bool {
    &&& after.len() > before.len()
    &&& after.take(before.len() as int) == before
    &&& after[before.len() as int] == BackendCall::ReadState
    &&& steps_outcome(after.skip(before.len() + 1 as int), steps, r)
}

/// Where a reconciliation pass sends its work: the live NAT table. Its
/// model is the history of calls it received, each with the error it
/// answered, and the configuration hash it reports.
pub trait Backend {
    spec fn history(&self) -> Seq<BackendCall>;

    spec fn spec_config_hash(&self) -> Seq<char>;

    /// Refreshes the snapshot of live rules.
    fn read_state(&mut self)
        ensures
            final(self).history() == old(self).history().push(BackendCall::ReadState),
            final(self).spec_config_hash() == old(self).spec_config_hash(),
    ;

    /// Applies the rules that are not live yet.
    fn apply_rules(&mut self, rules: Vec<Rule>) -> (r: Result<(), Error>)
        ensures
            final(self).history() == old(self).history().push(
                BackendCall::Apply(rule_views(rules@), outcome(r)),
            ),
            final(self).spec_config_hash() == old(self).spec_config_hash(),
    ;

    /// Deletes the live rules that `filter` selects.
    fn delete_rules(&mut self, filter: &DeleteFilter) -> (r: Result<(), Error>)
        ensures
            final(self).history() == old(self).history().push(
                BackendCall::Delete(filter@, outcome(r)),
            ),
            final(self).spec_config_hash() == old(self).spec_config_hash(),
    ;

    /// The hash of the options that shape emitted rules.
    fn config_hash(&self) -> (r: String)
        ensures
            r@ == self.spec_config_hash(),
    ;
}

/// Drives a backend from state changes.
pub struct Operator<B> {
    backend: B,
}

impl<B: Backend> Operator<B> {
    pub fn new(backend: B) -> (r: Self)
        ensures
            r.spec_backend() == backend,
    {
        Operator { backend }
    }

    pub closed spec fn spec_backend(&self) -> B {
        self.backend
    }

    pub fn backend(&self) -> (r: &B)
        ensures
            *r == self.spec_backend(),
    {
        &self.backend
    }

    /// Brings the live rules from what `prev_state` called for to what
    /// `state` calls for. When nothing changed, the backend is not touched.
    /// Otherwise the backend refreshes its snapshot and then receives the
    /// steps planned under its configuration hash, in order, up to and
    /// including the first that fails; that failure comes back wrapped, and
    /// nothing is rolled back.
    pub fn reconcile(&mut self, state: &State, prev_state: &State) -> (r: Result<(), Error>)
        ensures
            minus(state@, prev_state@).len() == 0 && minus(prev_state@, state@).len() == 0 ==> r is Ok,
            minus(state@, prev_state@).len() == 0 && minus(prev_state@, state@).len() == 0 ==> *final(self) == *old(self),
            !(minus(state@, prev_state@).len() == 0 && minus(prev_state@, state@).len() == 0) ==> pass_calls(
                old(self).spec_backend().history(),
                final(self).spec_backend().history(),
                reconcile_spec(
                    state@,
                    prev_state@,
                    old(self).spec_backend().spec_config_hash(),
                )->0,
                r,
            ),
            final(self).spec_backend().spec_config_hash() == old(self).spec_backend().spec_config_hash(),
    {
        let (added, removed) = state.diff(prev_state);
        if added.is_empty() && removed.is_empty() {
            return Ok(());
        }
        self.backend.read_state();
        let ghost mid = self.backend.history();
        let config_hash = self.backend.config_hash();
        match reconcile_plan(state, prev_state, config_hash.as_str()) {
            None => {
                assert(false);
                Ok(())
            },
            Some(steps) => {
                let ghost sv = action_views(steps@);
                let r = self.perform(steps);
                let ghost before = old(self).spec_backend().history();
                let ghost after = self.backend.history();
                assert(after.take(before.len() as int) =~= before) by {
                    assert(after.take(mid.len() as int) == mid);
                    assert(mid.take(before.len() as int) =~= before);
                    assert(after.take(before.len() as int) =~= after.take(mid.len() as int).take(
                        before.len() as int,
                    ));
                }
                assert(after.skip(before.len() + 1 as int) =~= after.skip(mid.len() as int));
                assert(after[before.len() as int] == after.take(mid.len() as int)[before.len() as int]);
                assert(mid[before.len() as int] == BackendCall::ReadState);
                assert(sv == reconcile_spec(state@, prev_state@, old(self).spec_backend().spec_config_hash())->0);
                r
            },
        }
    }

    /// Carries out the steps in order, stopping at the first backend error,
    /// which comes back wrapped.
    fn perform(&mut self, actions: Vec<Action>) -> (r: Result<(), Error>)
        ensures
            final(self).spec_backend().history().len() >= old(self).spec_backend().history().len(),
            final(self).spec_backend().history().take(old(self).spec_backend().history().len() as int)
                == old(self).spec_backend().history(),
            steps_outcome(
                final(self).spec_backend().history().skip(old(self).spec_backend().history().len() as int),
                action_views(actions@),
                r,
            ),
            final(self).spec_backend().spec_config_hash() == old(self).spec_backend().spec_config_hash(),
    {
        let ghost all = action_views(actions@);
        let ghost start = self.backend.history();
        let ghost ch = self.backend.spec_config_hash();
        let mut steps = actions;
        let n = steps.len();
        let mut k: usize = 0;
        assert(self.backend.history().skip(start.len() as int) =~= Seq::<BackendCall>::empty());
        assert(self.backend.history().take(start.len() as int) =~= start);
        while k < n
            invariant
                n == all.len(),
                k <= n,
                action_views(steps@) == all.skip(k as int),
                steps@.len() == n - k,
                all == action_views(actions@),
                start == old(self).spec_backend().history(),
                ch == old(self).spec_backend().spec_config_hash(),
                self.backend.spec_config_hash() == ch,
                self.backend.history().len() == start.len() + k,
                self.backend.history().take(start.len() as int) == start,
                forall|i: int|
                    0 <= i < k ==> call_step(#[trigger] self.backend.history()[start.len() + i])
                        == Some(all[i]),
                forall|i: int|
                    0 <= i < k ==> call_error(#[trigger] self.backend.history()[start.len() + i])
                        is None,
            decreases n - k,
        {
            let ghost h0 = self.backend.history();
            let ghost prior = steps@;
            assert(action_views(prior)[0] == prior[0]@);
            assert(all.skip(k as int)[0] == all[k as int]);
            let step = steps.remove(0);
            assert(step@ == all[k as int]);
            assert(action_views(steps@) =~= action_views(prior).drop_first());
            let res = match step {
                Action::Apply(rules) => self.backend.apply_rules(rules),
                Action::Delete(filter) => self.backend.delete_rules(&filter),
            };
            let ghost h1 = self.backend.history();
            assert(h1 == h0.push(h1.last()));
            assert(call_step(h1[start.len() + k]) == Some(all[k as int]));
            assert(call_error(h1[start.len() + k]) == outcome(res));
            assert(h1.take(start.len() as int) =~= start) by {
                assert(h1.take(start.len() as int) =~= h0.take(start.len() as int));
            }
            assert forall|i: int| 0 <= i < k implies call_step(#[trigger] h1[start.len() + i])
                == Some(all[i]) by {
                assert(h1[start.len() + i] == h0[start.len() + i]);
            }
            assert forall|i: int| 0 <= i < k implies call_error(#[trigger] h1[start.len() + i])
                is None by {
                assert(h1[start.len() + i] == h0[start.len() + i]);
            }
            match res {
                Ok(()) => {},
                Err(e) => {
                    let ghost calls = h1.skip(start.len() as int);
                    assert(calls.len() == k + 1);
                    assert forall|i: int| 0 <= i < calls.len() implies call_step(#[trigger] calls[i])
                        == Some(all[i]) by {
                        assert(calls[i] == h1[start.len() + i]);
                    }
                    assert forall|i: int| 0 <= i < calls.len() - 1 implies call_error(
                        #[trigger] calls[i],
                    ) is None by {
                        assert(calls[i] == h1[start.len() + i]);
                    }
                    assert(calls.last() == h1[start.len() + k]);
                    return Err(Error::OperatorError(Box::new(e)));
                },
            }
            k = k + 1;
        }
        let ghost h = self.backend.history();
        let ghost calls = h.skip(start.len() as int);
        assert forall|i: int| 0 <= i < calls.len() implies call_step(#[trigger] calls[i]) == Some(
            all[i],
        ) by {
            assert(calls[i] == h[start.len() + i]);
        }
        assert forall|i: int| 0 <= i < calls.len() - 1 implies call_error(#[trigger] calls[i])
            is None by {
            assert(calls[i] == h[start.len() + i]);
        }
        proof {
            if calls.len() > 0 {
                assert(calls.last() == h[start.len() + (calls.len() - 1)]);
            }
        }
        Ok(())
    }

    /// Deletes every live rule: the backend refreshes its snapshot, then
    /// deletes with a filter that selects every line. The result is `Ok`
    /// exactly when that delete succeeded, else it wraps the delete's error.
    pub fn cleanup(&mut self) -> (r: Result<(), Error>)
        ensures
            final(self).spec_backend().history().len() == old(self).spec_backend().history().len() + 2,
            final(self).spec_backend().history().drop_last() == old(self).spec_backend().history().push(
                BackendCall::ReadState,
            ),
            call_step(final(self).spec_backend().history().last()) == Some(
                ActionView::Delete(DeleteFilterView::All),
            ),
            match call_error(final(self).spec_backend().history().last()) {
                None => r is Ok,
                Some(err) => r == Err::<(), Error>(Error::OperatorError(Box::new(err))),
            },
            final(self).spec_backend().spec_config_hash() == old(self).spec_backend().spec_config_hash(),
    {
        self.backend.read_state();
        let res = self.backend.delete_rules(&DeleteFilter::All);
        assert(self.backend.history().drop_last() =~= old(self).spec_backend().history().push(
            BackendCall::ReadState,
        ));
        match res {
            Ok(()) => Ok(()),
            Err(err) => Err(Error::OperatorError(Box::new(err))),
        }
    }
}

} // verus!
