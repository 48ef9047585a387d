//! The controller's view of the cluster: a set of resources with at most
//! one entry per kind and identity, with per-kind replacement and diffing.

use vstd::prelude::*;

use crate::res::{Resource, ResourceKind, ResourceLike, ResourceView};

verus! {

broadcast use {
    vstd::seq_lib::group_filter_ensures,
    Seq::lemma_filter_push,
    Seq::lemma_filter_contains_rev,
};

/// Two resources share kind and identity.
pub open spec fn same_key(a: ResourceView, b: ResourceView) -> bool {
    a.kind() == b.kind() && a.id() == b.id()
}

/// At most one entry per kind and identity.
pub open spec fn keys_unique(s: Seq<ResourceView>) -> bool {
    forall|i: int, j: int|
        0 <= i < s.len() && 0 <= j < s.len() && #[trigger] same_key(s[i], s[j]) ==> i == j
}

pub open spec fn res_views(v: Seq<Resource>) -> Seq<ResourceView> {
    v.map_values(|r: Resource| r@)
}

/// `s` without the entry that shares kind and identity with `r`.
pub open spec fn without_key(s: Seq<ResourceView>, r: ResourceView) -> Seq<ResourceView> {
    s.filter(key_differs(r))
}

pub open spec fn key_differs(r: ResourceView) -> spec_fn(ResourceView) -> bool {
    |x: ResourceView| !same_key(x, r)
}

pub open spec fn kind_differs(k: ResourceKind) -> spec_fn(ResourceView) -> bool {
    |x: ResourceView| x.kind() != k
}

pub open spec fn kind_is(k: ResourceKind) -> spec_fn(ResourceView) -> bool {
    |x: ResourceView| x.kind() == k
}

pub open spec fn id_differs(id: Seq<char>) -> spec_fn(ResourceView) -> bool {
    |x: ResourceView| x.id() != id
}

pub open spec fn not_in(b: Seq<ResourceView>) -> spec_fn(ResourceView) -> bool {
    |x: ResourceView| !b.contains(x)
}

/// `s` without the entries of kind `k`.
pub open spec fn without_kind(s: Seq<ResourceView>, k: ResourceKind) -> Seq<ResourceView> {
    s.filter(kind_differs(k))
}

/// The entries of kind `k`.
pub open spec fn of_kind(s: Seq<ResourceView>, k: ResourceKind) -> Seq<ResourceView> {
    s.filter(kind_is(k))
}

/// `s` without the entries whose identity is `id`, whatever their kind.
pub open spec fn without_id(s: Seq<ResourceView>, id: Seq<char>) -> Seq<ResourceView> {
    s.filter(id_differs(id))
}

/// The entries of `a` that are not in `b`.
pub open spec fn minus(a: Seq<ResourceView>, b: Seq<ResourceView>) -> Seq<ResourceView> {
    a.filter(not_in(b))
}

/// Inserting `r`, replacing the entry with its kind and identity.
pub open spec fn insert_spec(s: Seq<ResourceView>, r: ResourceView) -> Seq<ResourceView> {
    without_key(s, r).push(r)
}

/// Inserting each of `items` in turn.
pub open spec fn insert_all(s: Seq<ResourceView>, items: Seq<ResourceView>) -> Seq<ResourceView>
    decreases items.len(),
{
    if items.len() == 0 {
        s
    } else {
        insert_spec(insert_all(s, items.drop_last()), items.last())
    }
}

pub proof fn lemma_filter_keys_unique(s: Seq<ResourceView>, p: spec_fn(ResourceView) -> bool)
    requires
        keys_unique(s),
    ensures
        keys_unique(s.filter(p)),
    decreases s.len(),
{
    if s.len() > 0 {
        let init = s.drop_last();
        assert(keys_unique(init)) by {
            assert forall|i: int, j: int|
                0 <= i < init.len() && 0 <= j < init.len() && #[trigger] same_key(
                    init[i],
                    init[j],
                ) implies i == j by {
                assert(same_key(s[i], s[j]));
            }
        }
        lemma_filter_keys_unique(init, p);
        assert(init.push(s.last()) =~= s);
        let f = init.filter(p);
        if p(s.last()) {
            let g = f.push(s.last());
            assert forall|i: int, j: int|
                0 <= i < g.len() && 0 <= j < g.len() && #[trigger] same_key(g[i], g[j]) implies i
                == j by {
                if i == f.len() && j < f.len() {
                    assert(f.contains(f[j]));
                    assert(init.contains(f[j]));
                    let k = choose|k: int| 0 <= k < init.len() && init[k] == f[j];
                    assert(same_key(s[k], s[s.len() - 1]));
                } else if j == f.len() && i < f.len() {
                    assert(f.contains(f[i]));
                    assert(init.contains(f[i]));
                    let k = choose|k: int| 0 <= k < init.len() && init[k] == f[i];
                    assert(same_key(s[k], s[s.len() - 1]));
                }
            }
        }
    }
}

pub proof fn lemma_insert_keys_unique(s: Seq<ResourceView>, r: ResourceView)
    requires
        keys_unique(s),
    ensures
        keys_unique(insert_spec(s, r)),
{
    let f = without_key(s, r);
    lemma_filter_keys_unique(s, key_differs(r));
    let g = f.push(r);
    assert forall|i: int, j: int|
        0 <= i < g.len() && 0 <= j < g.len() && #[trigger] same_key(g[i], g[j]) implies i == j by {
        if i < f.len() && j == f.len() {
            assert(!same_key(f[i], r));
        } else if j < f.len() && i == f.len() {
            assert(!same_key(f[j], r));
        }
    }
}

pub proof fn lemma_filter_subset(s: Seq<ResourceView>, p: spec_fn(ResourceView) -> bool, x: ResourceView)
    ensures
        s.filter(p).contains(x) <==> (s.contains(x) && p(x)),
{
    if s.contains(x) && p(x) {
        let k = choose|k: int| 0 <= k < s.len() && s[k] == x;
        assert(s.filter(p).contains(s[k]));
    }
    if s.filter(p).contains(x) {
        let k = choose|k: int| 0 <= k < s.filter(p).len() && s.filter(p)[k] == x;
        assert(p(s.filter(p)[k]));
    }
}

/// The set of resources the controller currently knows.
#[derive(Debug)]
pub struct State {
    resources: Vec<Resource>,
}

impl View for State {
    type V = Seq<ResourceView>;

    closed spec fn view(&self) -> Seq<ResourceView> {
        res_views(self.resources@)
    }
}

impl State {
    #[verifier::type_invariant]
    spec fn inv(&self) -> bool {
        keys_unique(self@)
    }

    /// The state with no resources.
    pub fn new() -> (r: State)
        ensures
            r@ == Seq::<ResourceView>::empty(),
    {
        let r = State { resources: Vec::new() };
        assert(r@ =~= Seq::<ResourceView>::empty());
        r
    }

    pub fn is_empty(&self) -> (r: bool)
        ensures
            r == (self@.len() == 0),
            keys_unique(self@),
    {
        proof {
            use_type_invariant(self);
        }
        self.resources.len() == 0
    }

    /// The resources, in the order the state holds them.
    pub fn resources(&self) -> (r: &Vec<Resource>)
        ensures
            res_views(r@) == self@,
    {
        &self.resources
    }

    /// Inserts `r`, replacing the entry with the same kind and identity.
    pub fn insert(&mut self, r: Resource)
        ensures
            final(self)@ == insert_spec(old(self)@, r@),
            keys_unique(old(self)@),
            keys_unique(final(self)@),
    {
        proof {
            use_type_invariant(&*self);
        }
        let key = r.id();
        let kind = r.type_id();
        let mut kept: Vec<Resource> = Vec::new();
        let ghost s = self@;
        let ghost p = key_differs(r@);
        let mut i: usize = 0;
        while i < self.resources.len()
            invariant
                s == res_views(self.resources@),
                p == key_differs(r@),
                key@ == r@.id(),
                kind == r@.kind(),
                i <= s.len(),
                res_views(kept@) == s.take(i as int).filter(p),
            decreases self.resources.len() - i,
        {
            let ghost prev = res_views(kept@);
            assert(s.take(i + 1) =~= s.take(i as int).push(s[i as int]));
            proof {
                s.take(i as int).lemma_filter_push(s[i as int], p);
            }
            assert(s[i as int] == self.resources@[i as int]@);
            let other_key = self.resources[i].id();
            let other_kind = self.resources[i].type_id();
            if !(other_kind == kind && other_key == key) {
                let c = self.resources[i].clone();
                kept.push(c);
                assert(res_views(kept@) =~= prev.push(s[i as int]));
            }
            i = i + 1;
        }
        assert(s.take(i as int) =~= s);
        let ghost before = res_views(kept@);
        kept.push(r);
        assert(res_views(kept@) =~= before.push(r@));
        proof {
            lemma_insert_keys_unique(s, r@);
        }
        self.resources = kept;
    }

    /// Deletes every resource whose identity is `id`, whatever its kind.
    pub fn remove_id(&mut self, id: &String)
        ensures
            final(self)@ == without_id(old(self)@, id@),
            keys_unique(old(self)@),
            keys_unique(final(self)@),
    {
        proof {
            use_type_invariant(&*self);
        }
        let mut kept: Vec<Resource> = Vec::new();
        let ghost s = self@;
        let ghost p = id_differs(id@);
        let mut i: usize = 0;
        while i < self.resources.len()
            invariant
                s == res_views(self.resources@),
                p == id_differs(id@),
                i <= s.len(),
                res_views(kept@) == s.take(i as int).filter(p),
            decreases self.resources.len() - i,
        {
            let ghost prev = res_views(kept@);
            assert(s.take(i + 1) =~= s.take(i as int).push(s[i as int]));
            proof {
                s.take(i as int).lemma_filter_push(s[i as int], p);
            }
            assert(s[i as int] == self.resources@[i as int]@);
            let other = self.resources[i].id();
            if !(other == *id) {
                let c = self.resources[i].clone();
                kept.push(c);
                assert(res_views(kept@) =~= prev.push(s[i as int]));
            }
            i = i + 1;
        }
        assert(s.take(i as int) =~= s);
        proof {
            lemma_filter_keys_unique(s, p);
        }
        self.resources = kept;
    }

    /// `added` holds what is here and not in `prev`; `removed` what is in
    /// `prev` and not here. Entries compare by every field.
    pub fn diff(&self, prev_state: &State) -> (r: (State, State))
        ensures
            r.0@ == minus(self@, prev_state@),
            r.1@ == minus(prev_state@, self@),
    {
        let added = subtract(self, prev_state);
        let removed = subtract(prev_state, self);
        (added, removed)
    }

    /// Replaces every resource of `R`'s kind with `other`, inserted in turn.
    pub fn with<R: ResourceLike>(self, other: Vec<R>) -> (r: State)
        ensures
            r@ == insert_all(
                without_kind(self@, R::kind_spec()),
                other@.map_values(|x: R| x.as_resource()),
            ),
    {
        proof {
            use_type_invariant(&self);
        }
        let kind = R::kind();
        let mut kept: Vec<Resource> = Vec::new();
        let ghost s = self@;
        let ghost p = kind_differs(kind);
        let mut i: usize = 0;
        while i < self.resources.len()
            invariant
                s == res_views(self.resources@),
                p == kind_differs(kind),
                kind == R::kind_spec(),
                i <= s.len(),
                res_views(kept@) == s.take(i as int).filter(p),
            decreases self.resources.len() - i,
        {
            let ghost prev = res_views(kept@);
            assert(s.take(i + 1) =~= s.take(i as int).push(s[i as int]));
            proof {
                s.take(i as int).lemma_filter_push(s[i as int], p);
            }
            assert(s[i as int] == self.resources@[i as int]@);
            if self.resources[i].type_id() != kind {
                let c = self.resources[i].clone();
                kept.push(c);
                assert(res_views(kept@) =~= prev.push(s[i as int]));
            }
            i = i + 1;
        }
        assert(s.take(i as int) =~= s);
        proof {
            lemma_filter_keys_unique(s, p);
        }
        let mut out = State { resources: kept };
        let ghost items = other@.map_values(|x: R| x.as_resource());
        let ghost base = out@;
        let mut rest = other;
        assert(items.take(0) =~= Seq::<ResourceView>::empty());
        let mut j: usize = 0;
        let n = rest.len();
        while j < n
            invariant
                n == items.len(),
                j <= n,
                out@ == insert_all(base, items.take(j as int)),
                rest@.len() == n - j,
                forall|k: int| 0 <= k < rest@.len() ==> (#[trigger] rest@[k]).as_resource()
                    == items[j + k],
            decreases n - j,
        {
            let x = rest.remove(0);
            assert(x.as_resource() == items[j as int]);
            let res = x.into_resource();
            out.insert(res);
            assert(items.take(j + 1).drop_last() =~= items.take(j as int));
            j = j + 1;
        }
        assert(items.take(n as int) =~= items);
        out
    }

    /// The resources of `R`'s kind.
    pub fn get<R: ResourceLike>(&self) -> (r: Vec<R>)
        ensures
            r@.map_values(|x: R| x.as_resource()) == of_kind(self@, R::kind_spec()),
    {
        let kind = R::kind();
        let mut out: Vec<R> = Vec::new();
        let ghost s = self@;
        let ghost p = kind_is(kind);
        let mut i: usize = 0;
        while i < self.resources.len()
            invariant
                s == res_views(self.resources@),
                p == kind_is(kind),
                kind == R::kind_spec(),
                i <= s.len(),
                out@.map_values(|x: R| x.as_resource()) == s.take(i as int).filter(p),
            decreases self.resources.len() - i,
        {
            let ghost prev = out@.map_values(|x: R| x.as_resource());
            assert(s.take(i + 1) =~= s.take(i as int).push(s[i as int]));
            proof {
                s.take(i as int).lemma_filter_push(s[i as int], p);
            }
            assert(s[i as int] == self.resources@[i as int]@);
            match R::from_resource(&self.resources[i]) {
                Some(x) => {
                    out.push(x);
                    assert(out@.map_values(|x: R| x.as_resource()) =~= prev.push(s[i as int]));
                },
                None => {},
            }
            i = i + 1;
        }
        assert(s.take(i as int) =~= s);
        out
    }

    /// Whether `r` is in the state, compared by every field.
    pub fn contains(&self, r: &Resource) -> (b: bool)
        ensures
            b == self@.contains(r@),
    {
        let mut i: usize = 0;
        while i < self.resources.len()
            invariant
                i <= self@.len(),
                self@ == res_views(self.resources@),
                forall|k: int| 0 <= k < i ==> self@[k] != r@,
            decreases self.resources.len() - i,
        {
            if self.resources[i] == *r {
                assert(self@[i as int] == r@);
                return true;
            }
            i = i + 1;
        }
        false
    }
}

impl Default for State {
    fn default() -> (r: State)
        ensures
            r@ == Seq::<ResourceView>::empty(),
    {
        State::new()
    }
}

impl Clone for State {
    fn clone(&self) -> (r: State)
        ensures
            r@ == self@,
    {
        proof {
            use_type_invariant(self);
        }
        let mut out: Vec<Resource> = Vec::new();
        let mut i: usize = 0;
        while i < self.resources.len()
            invariant
                i <= self@.len(),
                self@ == res_views(self.resources@),
                res_views(out@) == self@.take(i as int),
            decreases self.resources.len() - i,
        {
            let ghost prev = res_views(out@);
            out.push(self.resources[i].clone());
            assert(res_views(out@) =~= prev.push(self@[i as int]));
            assert(self@.take(i + 1) =~= self@.take(i as int).push(self@[i as int]));
            i = i + 1;
        }
        assert(self@.take(i as int) =~= self@);
        State { resources: out }
    }
}

/// Whether every resource of `a` is in `b`.
fn included(a: &State, b: &State) -> (r: bool)
    ensures
        r == (forall|x: ResourceView| a@.contains(x) ==> b@.contains(x)),
{
    let rs = a.resources();
    let mut i: usize = 0;
    while i < rs.len()
        invariant
            a@ == res_views(rs@),
            i <= a@.len(),
            forall|k: int| 0 <= k < i ==> b@.contains(#[trigger] a@[k]),
        decreases rs.len() - i,
    {
        assert(a@[i as int] == rs@[i as int]@);
        if !b.contains(&rs[i]) {
            assert(a@.contains(a@[i as int]));
            return false;
        }
        i = i + 1;
    }
    true
}

impl PartialEq for State {
    fn eq(&self, other: &State) -> (r: bool) {
        let r = included(self, other) && included(other, self);
        proof {
            if r {
                assert(self@.to_set() =~= other@.to_set());
            } else if self@.to_set() == other@.to_set() {
                assert forall|x: ResourceView| self@.contains(x) implies other@.contains(x) by {
                    assert(self@.to_set().contains(x));
                }
                assert forall|x: ResourceView| other@.contains(x) implies self@.contains(x) by {
                    assert(other@.to_set().contains(x));
                }
            }
        }
        r
    }
}

impl vstd::std_specs::cmp::PartialEqSpecImpl for State {
    open spec fn obeys_eq_spec() -> bool {
        true
    }

    open spec fn eq_spec(&self, other: &State) -> bool {
        self@.to_set() == other@.to_set()
    }
}

/// The entries of `a` that are not in `b`.
fn subtract(a: &State, b: &State) -> (r: State)
    ensures
        r@ == minus(a@, b@),
{
    proof {
        use_type_invariant(a);
    }
    let mut kept: Vec<Resource> = Vec::new();
    let ghost s = a@;
    let ghost p = not_in(b@);
    let mut i: usize = 0;
    while i < a.resources.len()
        invariant
            s == res_views(a.resources@),
            p == not_in(b@),
            i <= s.len(),
            res_views(kept@) == s.take(i as int).filter(p),
        decreases a.resources.len() - i,
    {
        let ghost prev = res_views(kept@);
        assert(s.take(i + 1) =~= s.take(i as int).push(s[i as int]));
        proof {
            s.take(i as int).lemma_filter_push(s[i as int], p);
        }
        assert(s[i as int] == a.resources@[i as int]@);
        if !b.contains(&a.resources[i]) {
            let c = a.resources[i].clone();
            kept.push(c);
            assert(res_views(kept@) =~= prev.push(s[i as int]));
        }
        i = i + 1;
    }
    assert(s.take(i as int) =~= s);
    proof {
        lemma_filter_keys_unique(s, p);
    }
    State { resources: kept }
}

/// A change to the state.
#[derive(Debug)]
pub enum Op {
    ResourceAdd(Resource),
    ResourceRemove(String),
}

pub enum OpView {
    Add(ResourceView),
    Remove(Seq<char>),
}

impl View for Op {
    type V = OpView;

    open spec fn view(&self) -> OpView {
        match self {
            Op::ResourceAdd(r) => OpView::Add(r@),
            Op::ResourceRemove(id) => OpView::Remove(id@),
        }
    }
}

/// The state after one change: an addition replaces the entry with the same
/// kind and identity; a removal deletes every entry with that identity.
pub open spec fn apply_op_spec(s: Seq<ResourceView>, op: OpView) -> Seq<ResourceView> {
    match op {
        OpView::Add(r) => insert_spec(s, r),
        OpView::Remove(id) => without_id(s, id),
    }
}

/// The state after each change in turn.
pub open spec fn apply_ops_spec(s: Seq<ResourceView>, ops: Seq<OpView>) -> Seq<ResourceView>
    decreases ops.len(),
{
    if ops.len() == 0 {
        s
    } else {
        apply_op_spec(apply_ops_spec(s, ops.drop_last()), ops.last())
    }
}

pub open spec fn op_views(ops: Seq<Op>) -> Seq<OpView> {
    ops.map_values(|o: Op| o@)
}

impl Op {
    pub fn apply(&self, state: &mut State)
        ensures
            final(state)@ == apply_op_spec(old(state)@, self@),
            keys_unique(old(state)@),
            keys_unique(final(state)@),
    {
        match self {
            Op::ResourceAdd(r) => {
                let c = r.clone();
                state.insert(c);
            },
            Op::ResourceRemove(id) => {
                state.remove_id(id);
            },
        }
    }
}

/// The changes one watch event brings.
pub struct Ops(pub Vec<Op>);

/// What a watch stream delivers for one object.
#[derive(Debug)]
pub enum Event<T> {
    Apply(T),
    InitApply(T),
    Delete(T),
    Init,
    InitDone,
}

/// The changes for an event: an applied object is removed by identity and,
/// if active, added again; a deleted one is removed; markers bring nothing.
pub open spec fn event_ops(event: Event<Resource>) -> Seq<OpView> {
    match event {
        Event::Apply(r) | Event::InitApply(r) => if r@.is_active() {
            seq![OpView::Remove(r@.id()), OpView::Add(r@)]
        } else {
            seq![OpView::Remove(r@.id())]
        },
        Event::Delete(r) => seq![OpView::Remove(r@.id())],
        _ => Seq::empty(),
    }
}

impl Ops {
    pub fn from_event(event: Event<Resource>) -> (r: Ops)
        ensures
            op_views(r.0@) == event_ops(event),
    {
        let ghost e = event;
        let mut ops: Vec<Op> = Vec::new();
        match event {
            Event::Apply(r) | Event::InitApply(r) => {
                let id = r.id();
                ops.push(Op::ResourceRemove(id));
                if r.is_active() {
                    ops.push(Op::ResourceAdd(r));
                }
            },
            Event::Delete(r) => {
                let id = r.id();
                ops.push(Op::ResourceRemove(id));
            },
            _ => {},
        }
        assert(op_views(ops@) =~= event_ops(e));
        Ops(ops)
    }

    /// The changes for an event whose object may have failed to parse: a
    /// parse failure brings no change.
    pub fn from_parsed<E>(event: Event<Result<Resource, E>>) -> (r: Ops)
        ensures
            match event {
                Event::Apply(Ok(x)) => op_views(r.0@) == event_ops(Event::Apply(x)),
                Event::InitApply(Ok(x)) => op_views(r.0@) == event_ops(Event::InitApply(x)),
                Event::Delete(Ok(x)) => op_views(r.0@) == event_ops(Event::Delete(x)),
                _ => r.0@.len() == 0,
            },
    {
        match event {
            Event::Apply(Ok(x)) => Ops::from_event(Event::Apply(x)),
            Event::InitApply(Ok(x)) => Ops::from_event(Event::InitApply(x)),
            Event::Delete(Ok(x)) => Ops::from_event(Event::Delete(x)),
            _ => Ops(Vec::new()),
        }
    }
}

/// Applies each change in turn.
pub fn apply(ops: Vec<Op>, state: &mut State)
    ensures
        final(state)@ == apply_ops_spec(old(state)@, op_views(ops@)),
        keys_unique(final(state)@),
{
    proof {
        use_type_invariant(&*state);
    }
    let ghost start = state@;
    let ghost vs = op_views(ops@);
    let mut i: usize = 0;
    assert(vs.take(0) =~= Seq::<OpView>::empty());
    while i < ops.len()
        invariant
            vs == op_views(ops@),
            i <= ops@.len(),
            state@ == apply_ops_spec(start, vs.take(i as int)),
            keys_unique(state@),
        decreases ops.len() - i,
    {
        ops[i].apply(state);
        assert(vs.take(i + 1).drop_last() =~= vs.take(i as int));
        i = i + 1;
    }
    assert(vs.take(i as int) =~= vs);
}

proof fn lemma_filter_all(s: Seq<ResourceView>, p: spec_fn(ResourceView) -> bool)
    requires
        forall|j: int| 0 <= j < s.len() ==> p(#[trigger] s[j]),
    ensures
        s.filter(p) == s,
    decreases s.len(),
{
    if s.len() > 0 {
        let init = s.drop_last();
        assert forall|j: int| 0 <= j < init.len() implies p(#[trigger] init[j]) by {
            assert(init[j] == s[j]);
        }
        lemma_filter_all(init, p);
        assert(p(s[s.len() - 1]));
        assert(init.push(s.last()) =~= s);
        init.lemma_filter_push(s.last(), p);
    } else {
        assert(s.filter(p).len() == 0);
        assert(s.filter(p) =~= s);
    }
}

proof fn lemma_without_key_len(s: Seq<ResourceView>, r: ResourceView, i: int)
    requires
        keys_unique(s),
        0 <= i < s.len(),
        same_key(s[i], r),
    ensures
        without_key(s, r).len() == s.len() - 1,
    decreases s.len(),
{
    let init = s.drop_last();
    let p = key_differs(r);
    assert(init.push(s.last()) =~= s);
    init.lemma_filter_push(s.last(), p);
    if i == s.len() - 1 {
        assert forall|j: int| 0 <= j < init.len() implies p(#[trigger] init[j]) by {
            if same_key(init[j], r) {
                assert(same_key(s[j], s[i]));
            }
        }
        lemma_filter_all(init, p);
    } else {
        assert(keys_unique(init)) by {
            assert forall|a: int, b: int|
                0 <= a < init.len() && 0 <= b < init.len() && #[trigger] same_key(
                    init[a],
                    init[b],
                ) implies a == b by {
                assert(same_key(s[a], s[b]));
            }
        }
        if same_key(s.last(), r) {
            assert(same_key(s[i], s[s.len() - 1]));
        }
        lemma_without_key_len(init, r, i);
    }
}

/// Adding a resource whose kind and identity are already present keeps the
/// number of resources, and afterwards the added resource is the only one
/// at that kind and identity.
pub proof fn lemma_add_replaces(s: Seq<ResourceView>, r: ResourceView, i: int)
    requires
        keys_unique(s),
        0 <= i < s.len(),
        same_key(s[i], r),
    ensures
        apply_op_spec(s, OpView::Add(r)).len() == s.len(),
        apply_op_spec(s, OpView::Add(r)).contains(r),
        forall|j: int|
            0 <= j < apply_op_spec(s, OpView::Add(r)).len() && same_key(
                #[trigger] apply_op_spec(s, OpView::Add(r))[j],
                r,
            ) ==> apply_op_spec(s, OpView::Add(r))[j] == r,
{
    lemma_without_key_len(s, r, i);
    let f = without_key(s, r);
    let t = f.push(r);
    assert(t[t.len() - 1] == r);
    assert forall|j: int| 0 <= j < t.len() && same_key(#[trigger] t[j], r) implies t[j] == r by {
        if j < f.len() {
            assert(key_differs(r)(f[j]));
        }
    }
}

/// Diffing loses nothing: the new state is the previous one with the added
/// resources put in and the removed ones taken out.
pub proof fn lemma_diff_restores(s1: Seq<ResourceView>, s2: Seq<ResourceView>)
    ensures
        s1.to_set() == s2.to_set().union(minus(s1, s2).to_set()).difference(
            minus(s2, s1).to_set(),
        ),
{
    let added = minus(s1, s2);
    let removed = minus(s2, s1);
    assert forall|x: ResourceView|
        s1.to_set().contains(x) == s2.to_set().union(added.to_set()).difference(
            removed.to_set(),
        ).contains(x) by {
        lemma_filter_subset(s1, not_in(s2), x);
        lemma_filter_subset(s2, not_in(s1), x);
    }
    assert(s1.to_set() =~= s2.to_set().union(added.to_set()).difference(removed.to_set()));
}

} // verus!
