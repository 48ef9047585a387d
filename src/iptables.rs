//! The NAT backend's own logic: the `iptables` statements for rules, the
//! order they are applied in, and the deletion of live rules by marker.
//! Running the commands is left to the caller.

use vstd::prelude::*;

use crate::batch::{batches_spec, Batch};
use crate::hash::{short_digest, short_hash};
use crate::operator::{filter_matches, DeleteFilter, DeleteFilterView};
use crate::planner::{rule_id_spec, rule_views, Rule, RuleView};
use crate::res::entities::{opt_clone, opt_view};
use crate::res::Proto;
use crate::text::{
    contains_spec, contains_text, decimal, join_spec, join_text, occurs_at, split_spec,
    split_text, usize_text, views,
};

verus! {

/// How commands are grouped into shell invocations.
#[derive(Debug)]
pub struct BatchOpts {
    /// Whether to join several commands into one invocation.
    pub batch_commands: bool,
    /// The length bound of one invocation.
    pub batch_size: usize,
}

/// The form `{:?}` gives a string: quoted, with special characters escaped.
pub uninterp spec fn debug_text(s: Seq<char>) -> Seq<char>;

/// Relies on `Debug` for `str`, through `format!("{:?}")`: the quoted,
/// escaped form of the string, which depends on its characters alone.
#[verifier::external_body]
fn debug_string(s: &str) -> (r: String)
    ensures
        r@ == debug_text(s@),
{
    format!("{:?}", s)
}

/// `{:?}` of an optional string.
pub open spec fn debug_option(o: Option<Seq<char>>) -> Seq<char> {
    match o {
        Some(s) => "Some("@ + debug_text(s) + ")"@,
        None => "None"@,
    }
}

fn debug_option_exec(o: &Option<String>) -> (r: String)
    ensures
        r@ == debug_option(opt_view(*o)),
{
    match o {
        Some(s) => {
            let mut t = String::from_str("Some(");
            let d = debug_string(s.as_str());
            t.append(d.as_str());
            t.append(")");
            t
        },
        None => String::from_str("None"),
    }
}

/// The identity of the options that shape emitted rules.
pub open spec fn config_hash_spec(local_ip: Option<Seq<char>>, extra_ips: Option<Seq<char>>) -> Seq<
    char,
> {
    short_hash(debug_option(local_ip) + "::"@ + debug_option(extra_ips), 32)
}

/// The owner part of a rule hash, `kind::owner::placement`.
pub open spec fn owner_of(rule_hash: Seq<char>) -> Seq<char> {
    let parts = split_spec(rule_hash, ':');
    if parts.len() >= 3 {
        parts[2]
    } else {
        rule_hash
    }
}

pub open spec fn proto_flag(p: Proto) -> Seq<char> {
    match p {
        Proto::Tcp => " -p tcp"@,
        Proto::Udp => " -p udp"@,
    }
}

/// New connections only, for tcp.
pub open spec fn state_flag(p: Proto) -> Seq<char> {
    match p {
        Proto::Tcp => " -m state --state NEW"@,
        Proto::Udp => Seq::empty(),
    }
}

/// Loopback traffic is matched on the way out, to the local address; other
/// traffic on the way in, on its interface, from the allowed range.
pub open spec fn selector(r: RuleView, local_ip: Option<Seq<char>>) -> Seq<char> {
    let tail = proto_flag(r.port_spec.proto) + " --dport "@ + decimal(r.port_spec.host_port as nat)
        + state_flag(r.port_spec.proto);
    if r.interface.name == "lo"@ {
        " -o lo -d "@ + local_ip->0 + tail
    } else {
        let range = match r.allow_range {
            Some(x) => " -s "@ + x,
            None => Seq::empty(),
        };
        let dest = match local_ip {
            Some(x) => " -d "@ + x,
            None => Seq::empty(),
        };
        " -i "@ + r.interface.name + range + dest + tail
    }
}

/// One packet in `nth + 1` for all but the first of a group.
pub open spec fn balance(nth: nat) -> Seq<char> {
    if nth == 0 {
        Seq::empty()
    } else {
        " -m statistic --mode nth --every "@ + decimal(nth + 1) + " --packet 0"@
    }
}

pub open spec fn comment_text(r: RuleView, config_hash: Seq<char>) -> Seq<char> {
    let human = match r.comment {
        Some(c) => c,
        None => Seq::empty(),
    };
    " -m comment --comment '"@ + human + "; epok_rule_id: "@ + rule_id_spec(r, config_hash)
        + "; epok_service_id: "@ + owner_of(r.rule_hash) + "'"@
}

/// The command that appends the rule to the NAT table.
pub open spec fn statement(r: RuleView, local_ip: Option<Seq<char>>, config_hash: Seq<char>) -> Seq<
    char,
> {
    let chain = if r.interface.name == "lo"@ {
        "OUTPUT"@
    } else {
        "PREROUTING"@
    };
    "sudo iptables -w -t nat -A "@ + chain + selector(r, local_ip) + balance(r.nth) + comment_text(
        r,
        config_hash,
    ) + " -j DNAT --to-destination "@ + r.dest_addr + ":"@ + decimal(r.port_spec.dest_port as nat)
}

/// A rule's statement carries its identity after the rule marker, so a
/// later pass over the same inputs finds the rule live by that identity.
pub proof fn lemma_statement_carries_id(r: RuleView, local_ip: Option<Seq<char>>, config_hash: Seq<
    char,
>)
    ensures
        contains_spec(statement(r, local_ip, config_hash), rule_id_spec(r, config_hash)),
        contains_spec(
            statement(r, local_ip, config_hash),
            "; epok_rule_id: "@ + rule_id_spec(r, config_hash),
        ),
{
    let chain = if r.interface.name == "lo"@ {
        "OUTPUT"@
    } else {
        "PREROUTING"@
    };
    let human = match r.comment {
        Some(c) => c,
        None => Seq::empty(),
    };
    let id = rule_id_spec(r, config_hash);
    let head = "sudo iptables -w -t nat -A "@ + chain + selector(r, local_ip) + balance(r.nth)
        + " -m comment --comment '"@ + human;
    let marker = "; epok_rule_id: "@;
    let tail = "; epok_service_id: "@ + owner_of(r.rule_hash) + "'"@ + " -j DNAT --to-destination "@
        + r.dest_addr + ":"@ + decimal(r.port_spec.dest_port as nat);
    let st = statement(r, local_ip, config_hash);
    assert(st =~= head + marker + id + tail);
    let i = (head + marker).len() as int;
    assert(st.subrange(i, i + id.len()) =~= id);
    assert(occurs_at(st, id, i));
    let k = head.len() as int;
    assert(st.subrange(k, k + (marker + id).len()) =~= marker + id);
    assert(occurs_at(st, marker + id, k));
}

proof fn lemma_contains_trans(a: Seq<char>, b: Seq<char>, c: Seq<char>)
    requires
        contains_spec(a, b),
        contains_spec(b, c),
    ensures
        contains_spec(a, c),
{
    let i = choose|i: int| occurs_at(a, b, i);
    let j = choose|j: int| occurs_at(b, c, j);
    assert(a.subrange(i + j, i + j + c.len()) =~= b.subrange(j, j + c.len()));
    assert(occurs_at(a, c, i + j));
}

/// Applying is idempotent across passes: once a rule's statement is in the
/// live snapshot, a pass under the same configuration does not apply the
/// rule again.
pub proof fn lemma_live_rule_not_reapplied(
    r: RuleView,
    live: Seq<char>,
    local_ip: Option<Seq<char>>,
    config_hash: Seq<char>,
)
    requires
        contains_spec(live, statement(r, local_ip, config_hash)),
    ensures
        pending(seq![r], live, config_hash) == Seq::<RuleView>::empty(),
{
    lemma_statement_carries_id(r, local_ip, config_hash);
    lemma_contains_trans(live, statement(r, local_ip, config_hash), rule_id_spec(r, config_hash));
    let one = seq![r];
    assert(one.drop_last() =~= Seq::<RuleView>::empty());
    assert(one.last() == r);
    assert(pending(one.drop_last(), live, config_hash) == Seq::<RuleView>::empty());
    assert(pending(one, live, config_hash) == pending(one.drop_last(), live, config_hash));
}

/// The lines that carry the rule marker, in order.
pub open spec fn marked_lines(lines: Seq<Seq<char>>) -> Seq<Seq<char>>
    decreases lines.len(),
{
    if lines.len() == 0 {
        Seq::empty()
    } else {
        let rest = marked_lines(lines.drop_last());
        if contains_spec(lines.last(), "epok_rule_id"@) {
            rest.push(lines.last())
        } else {
            rest
        }
    }
}

fn marked_exec(lines: &Vec<String>) -> (r: Vec<String>)
    ensures
        views(r@) == marked_lines(views(lines@)),
{
    let ghost lv = views(lines@);
    let mut out: Vec<String> = Vec::new();
    let mut k: usize = 0;
    while k < lines.len()
        invariant
            lv == views(lines@),
            k <= lv.len(),
            views(out@) == marked_lines(lv.take(k as int)),
        decreases lines.len() - k,
    {
        let ghost prev = views(out@);
        assert(lv.take(k + 1).drop_last() =~= lv.take(k as int));
        assert(lv.take(k + 1).last() == lines@[k as int]@);
        if contains_text(lines[k].as_str(), "epok_rule_id") {
            out.push(lines[k].clone());
            assert(views(out@) =~= prev.push(lines@[k as int]@));
        }
        k = k + 1;
    }
    assert(lv.take(k as int) =~= lv);
    out
}

/// Every rule of `rs` has index `v`.
proof fn lemma_with_nth_all(rs: Seq<RuleView>, v: nat)
    ensures
        forall|j: int| 0 <= j < with_nth(rs, v).len() ==> (#[trigger] with_nth(rs, v)[j]).nth == v,
    decreases rs.len(),
{
    if rs.len() > 0 {
        lemma_with_nth_all(rs.drop_last(), v);
    }
}

/// The order of application: indices never increase along the sequence,
/// and none exceeds `v`.
pub proof fn lemma_descending_order(rs: Seq<RuleView>, v: nat)
    ensures
        forall|i: int, j: int|
            0 <= i <= j < descending(rs, v).len() ==> (#[trigger] descending(rs, v)[i]).nth
                >= (#[trigger] descending(rs, v)[j]).nth,
        forall|i: int| 0 <= i < descending(rs, v).len() ==> (#[trigger] descending(rs, v)[i]).nth <= v,
    decreases v,
{
    lemma_with_nth_all(rs, v);
    if v > 0 {
        lemma_descending_order(rs, (v - 1) as nat);
        let a = with_nth(rs, v);
        let b = descending(rs, (v - 1) as nat);
        assert(descending(rs, v) == a + b);
        assert forall|i: int| 0 <= i < (a + b).len() implies (#[trigger] (a + b)[i]).nth <= v by {
            if i >= a.len() {
                assert((a + b)[i] == b[i - a.len()]);
            }
        }
        assert forall|i: int, j: int|
            0 <= i <= j < (a + b).len() implies (#[trigger] (a + b)[i]).nth >= (#[trigger] (a
            + b)[j]).nth by {
            if j < a.len() {
            } else if i >= a.len() {
                assert((a + b)[i] == b[i - a.len()]);
                assert((a + b)[j] == b[j - a.len()]);
            } else {
                assert((a + b)[j] == b[j - a.len()]);
            }
        }
    }
}

/// A rule with index above 0 is balanced: its statement holds the
/// statistic match with `every` one more than the index.
pub proof fn lemma_statement_balance(r: RuleView, local_ip: Option<Seq<char>>, config_hash: Seq<
    char,
>)
    ensures
        r.nth > 0 ==> contains_spec(
            statement(r, local_ip, config_hash),
            " -m statistic --mode nth --every "@ + decimal(r.nth + 1) + " --packet 0"@,
        ),
        r.nth == 0 ==> balance(r.nth) == Seq::<char>::empty(),
{
    if r.nth > 0 {
        let chain = if r.interface.name == "lo"@ {
            "OUTPUT"@
        } else {
            "PREROUTING"@
        };
        let head = "sudo iptables -w -t nat -A "@ + chain + selector(r, local_ip);
        let b = balance(r.nth);
        let tail = comment_text(r, config_hash) + " -j DNAT --to-destination "@ + r.dest_addr
            + ":"@ + decimal(r.port_spec.dest_port as nat);
        let st = statement(r, local_ip, config_hash);
        assert(st =~= head + b + tail);
        let i = head.len() as int;
        assert(st.subrange(i, i + b.len()) =~= b);
        assert(occurs_at(st, b, i));
    }
}

/// A loopback rule needs the local address.
pub open spec fn emittable(r: RuleView, local_ip: Option<Seq<char>>) -> bool {
    &&& r.interface.name == "lo"@ ==> local_ip is Some
    &&& r.nth < usize::MAX
}

/// The rules of `rs` whose index is `v`, in order.
pub open spec fn with_nth(rs: Seq<RuleView>, v: nat) -> Seq<RuleView>
    decreases rs.len(),
{
    if rs.len() == 0 {
        Seq::empty()
    } else {
        let rest = with_nth(rs.drop_last(), v);
        if rs.last().nth == v {
            rest.push(rs.last())
        } else {
            rest
        }
    }
}

/// The rules of `rs` with index at most `v`, highest index first, in
/// order within an index.
pub open spec fn descending(rs: Seq<RuleView>, v: nat) -> Seq<RuleView>
    decreases v,
{
    if v == 0 {
        with_nth(rs, 0)
    } else {
        with_nth(rs, v) + descending(rs, (v - 1) as nat)
    }
}

/// The largest index in `rs`, 0 for none.
pub open spec fn max_nth(rs: Seq<RuleView>) -> nat
    decreases rs.len(),
{
    if rs.len() == 0 {
        0
    } else {
        let m = max_nth(rs.drop_last());
        if rs.last().nth > m {
            rs.last().nth
        } else {
            m
        }
    }
}

/// The rules whose identity is not in the live snapshot.
pub open spec fn pending(rs: Seq<RuleView>, live: Seq<char>, config_hash: Seq<char>) -> Seq<
    RuleView,
>
    decreases rs.len(),
{
    if rs.len() == 0 {
        Seq::empty()
    } else {
        let rest = pending(rs.drop_last(), live, config_hash);
        if contains_spec(live, rule_id_spec(rs.last(), config_hash)) {
            rest
        } else {
            rest.push(rs.last())
        }
    }
}

pub open spec fn statements(rs: Seq<RuleView>, local_ip: Option<Seq<char>>, config_hash: Seq<
    char,
>) -> Seq<Seq<char>>
    decreases rs.len(),
{
    if rs.len() == 0 {
        Seq::empty()
    } else {
        statements(rs.drop_last(), local_ip, config_hash).push(
            statement(rs.last(), local_ip, config_hash),
        )
    }
}

/// The commands as they are handed to the shell: joined with `; ` into
/// batches under the bound, or one by one.
pub open spec fn invocations(cmds: Seq<Seq<char>>, opts: BatchOpts) -> Seq<Seq<char>> {
    if opts.batch_commands {
        batches_spec(cmds, "; "@, opts.batch_size as nat)
    } else {
        cmds
    }
}

/// The commands that apply the rules not yet live, highest index first.
pub open spec fn apply_spec(
    rs: Seq<RuleView>,
    live: Seq<char>,
    local_ip: Option<Seq<char>>,
    config_hash: Seq<char>,
) -> Seq<Seq<char>> {
    let p = pending(rs, live, config_hash);
    statements(descending(p, max_nth(p)), local_ip, config_hash)
}

/// The command that deletes a live rule: `iptables-save` writes it as
/// `-A CHAIN ...`; the first word is dropped and the rest issued with `-D`.
pub open spec fn delete_statement(line: Seq<char>) -> Seq<char> {
    "sudo iptables -w -t nat -D "@ + join_spec(split_spec(line, ' ').drop_first(), " "@)
}

pub open spec fn delete_spec(lines: Seq<Seq<char>>, f: DeleteFilterView) -> Seq<Seq<char>>
    decreases lines.len(),
{
    if lines.len() == 0 {
        Seq::empty()
    } else {
        let rest = delete_spec(lines.drop_last(), f);
        if lines.last().len() > 0 && filter_matches(f, lines.last()) {
            rest.push(delete_statement(lines.last()))
        } else {
            rest
        }
    }
}

/// The commands that delete the live rules `f` selects, one per non-empty
/// line of the snapshot.
pub open spec fn delete_all_spec(live: Seq<char>, f: DeleteFilterView) -> Seq<Seq<char>> {
    delete_spec(split_spec(live, '\n'), f)
}

proof fn lemma_with_nth_emittable(rs: Seq<RuleView>, v: nat, local_ip: Option<Seq<char>>)
    requires
        forall|j: int| 0 <= j < rs.len() ==> emittable(#[trigger] rs[j], local_ip),
    ensures
        forall|j: int|
            0 <= j < with_nth(rs, v).len() ==> emittable(#[trigger] with_nth(rs, v)[j], local_ip),
    decreases rs.len(),
{
    if rs.len() > 0 {
        let init = rs.drop_last();
        assert forall|j: int| 0 <= j < init.len() implies emittable(#[trigger] init[j], local_ip) by {
            assert(init[j] == rs[j]);
        }
        lemma_with_nth_emittable(init, v, local_ip);
        assert(emittable(rs[rs.len() - 1], local_ip));
        let w = with_nth(rs, v);
        assert forall|j: int| 0 <= j < w.len() implies emittable(#[trigger] w[j], local_ip) by {
            if j < with_nth(init, v).len() {
                assert(w[j] == with_nth(init, v)[j]);
            }
        }
    }
}

proof fn lemma_descending_emittable(rs: Seq<RuleView>, v: nat, local_ip: Option<Seq<char>>)
    requires
        forall|j: int| 0 <= j < rs.len() ==> emittable(#[trigger] rs[j], local_ip),
    ensures
        forall|j: int|
            0 <= j < descending(rs, v).len() ==> emittable(#[trigger] descending(rs, v)[j], local_ip),
    decreases v,
{
    lemma_with_nth_emittable(rs, v, local_ip);
    if v > 0 {
        lemma_descending_emittable(rs, (v - 1) as nat, local_ip);
        let a = with_nth(rs, v);
        let b = descending(rs, (v - 1) as nat);
        assert forall|j: int| 0 <= j < (a + b).len() implies emittable(#[trigger] (a + b)[j], local_ip) by {
            if j >= a.len() {
                assert((a + b)[j] == b[j - a.len()]);
            }
        }
    }
}

fn with_nth_exec(rs: &Vec<Rule>, v: usize) -> (r: Vec<Rule>)
    ensures
        rule_views(r@) == with_nth(rule_views(rs@), v as nat),
{
    let ghost rv = rule_views(rs@);
    let mut out: Vec<Rule> = Vec::new();
    let mut k: usize = 0;
    while k < rs.len()
        invariant
            rv == rule_views(rs@),
            k <= rs@.len(),
            rule_views(out@) == with_nth(rv.take(k as int), v as nat),
        decreases rs.len() - k,
    {
        let ghost prev = rule_views(out@);
        assert(rv.take(k + 1).drop_last() =~= rv.take(k as int));
        assert(rv.take(k + 1).last() == rs@[k as int]@);
        if rs[k].nth == v {
            out.push(rs[k].clone());
            assert(rule_views(out@) =~= prev.push(rs@[k as int]@));
        }
        k = k + 1;
    }
    assert(rv.take(k as int) =~= rv);
    out
}

/// The command that deletes the live rule written as `rule`.
pub fn append_to_delete(rule: &str) -> (r: String)
    ensures
        r@ == delete_statement(rule@),
{
    let parts = split_text(rule, ' ');
    proof {
        crate::text::lemma_split_nonempty(rule@, ' ');
    }
    let mut rest: Vec<String> = Vec::new();
    let mut k: usize = 1;
    let ghost pv = views(parts@);
    while k < parts.len()
        invariant
            pv == views(parts@),
            pv.len() >= 1,
            1 <= k <= pv.len(),
            views(rest@) == pv.subrange(1, k as int),
        decreases parts.len() - k,
    {
        let ghost prev = views(rest@);
        rest.push(parts[k].clone());
        assert(views(rest@) =~= prev.push(pv[k as int]));
        assert(pv.subrange(1, k + 1) =~= pv.subrange(1, k as int).push(pv[k as int]));
        k = k + 1;
    }
    assert(pv.subrange(1, pv.len() as int) =~= pv.drop_first());
    let tail = join_text(&rest, " ");
    let mut s = String::from_str("sudo iptables -w -t nat -D ");
    s.append(tail.as_str());
    s
}

/// The NAT backend: its options and the latest snapshot of live rules.
pub struct IptablesBackend {
    batch_opts: BatchOpts,
    rule_state: String,
    local_ip: Option<String>,
    extra_ips: Option<String>,
}

pub struct IptablesView {
    pub batch_commands: bool,
    pub batch_size: usize,
    pub rule_state: Seq<char>,
    pub local_ip: Option<Seq<char>>,
    pub extra_ips: Option<Seq<char>>,
}

impl View for IptablesBackend {
    type V = IptablesView;

    closed spec fn view(&self) -> IptablesView {
        IptablesView {
            batch_commands: self.batch_opts.batch_commands,
            batch_size: self.batch_opts.batch_size,
            rule_state: self.rule_state@,
            local_ip: opt_view(self.local_ip),
            extra_ips: opt_view(self.extra_ips),
        }
    }
}

impl IptablesView {
    pub open spec fn opts(self) -> BatchOpts {
        BatchOpts { batch_commands: self.batch_commands, batch_size: self.batch_size }
    }

    pub open spec fn config_hash(self) -> Seq<char> {
        config_hash_spec(self.local_ip, self.extra_ips)
    }
}

fn selector_exec(r: &Rule, local_ip: &Option<String>, is_lo: bool) -> (s: String)
    requires
        is_lo == (r@.interface.name == "lo"@),
        emittable(r@, opt_view(*local_ip)),
    ensures
        s@ == selector(r@, opt_view(*local_ip)),
{
    let mut s = String::new();
    if is_lo {
        s.append(" -o lo -d ");
        match local_ip {
            Some(ip) => s.append(ip.as_str()),
            None => {},
        }
    } else {
        s.append(" -i ");
        s.append(r.interface.name.as_str());
        match &r.allow_range {
            Some(x) => {
                s.append(" -s ");
                s.append(x.as_str());
            },
            None => {},
        }
        match local_ip {
            Some(x) => {
                s.append(" -d ");
                s.append(x.as_str());
            },
            None => {},
        }
    }
    let ghost head = s@;
    match r.port_spec.proto {
        Proto::Tcp => s.append(" -p tcp"),
        Proto::Udp => s.append(" -p udp"),
    }
    s.append(" --dport ");
    let hp = usize_text(r.port_spec.host_port as usize);
    s.append(hp.as_str());
    match r.port_spec.proto {
        Proto::Tcp => s.append(" -m state --state NEW"),
        Proto::Udp => {},
    }
    let ghost tail = proto_flag(r.port_spec.proto) + " --dport "@ + decimal(
        r.port_spec.host_port as nat,
    ) + state_flag(r.port_spec.proto);
    assert(s@ =~= head + tail);
    s
}

fn balance_exec(nth: usize) -> (s: String)
    requires
        nth < usize::MAX,
    ensures
        s@ == balance(nth as nat),
{
    if nth > 0 {
        let mut s = String::from_str(" -m statistic --mode nth --every ");
        let every = usize_text(nth + 1);
        s.append(every.as_str());
        s.append(" --packet 0");
        s
    } else {
        String::new()
    }
}

fn comment_exec(r: &Rule, config_hash: &String) -> (s: String)
    ensures
        s@ == comment_text(r@, config_hash@),
{
    let mut s = String::from_str(" -m comment --comment '");
    match &r.comment {
        Some(c) => s.append(c.as_str()),
        None => {},
    }
    s.append("; epok_rule_id: ");
    let id = r.rule_id(config_hash.as_str());
    s.append(id.as_str());
    s.append("; epok_service_id: ");
    let parts = split_text(r.rule_hash.as_str(), ':');
    if parts.len() >= 3 {
        s.append(parts[2].as_str());
    } else {
        s.append(r.rule_hash.as_str());
    }
    s.append("'");
    s
}

fn statement_exec(r: &Rule, local_ip: &Option<String>, config_hash: &String) -> (s: String)
    requires
        emittable(r@, opt_view(*local_ip)),
    ensures
        s@ == statement(r@, opt_view(*local_ip), config_hash@),
{
    let lo = String::from_str("lo");
    let is_lo = r.interface.name == lo;
    let mut s = String::from_str("sudo iptables -w -t nat -A ");
    if is_lo {
        s.append("OUTPUT");
    } else {
        s.append("PREROUTING");
    }
    let sel = selector_exec(r, local_ip, is_lo);
    s.append(sel.as_str());
    let bal = balance_exec(r.nth);
    s.append(bal.as_str());
    let com = comment_exec(r, config_hash);
    s.append(com.as_str());
    s.append(" -j DNAT --to-destination ");
    s.append(r.dest_addr.as_str());
    s.append(":");
    let dp = usize_text(r.port_spec.dest_port as usize);
    s.append(dp.as_str());
    s
}

impl IptablesBackend {
    pub fn new(batch_opts: BatchOpts, local_ip: Option<String>, extra_ips: Option<String>) -> (r:
        Self)
        ensures
            r@.batch_commands == batch_opts.batch_commands,
            r@.batch_size == batch_opts.batch_size,
            r@.rule_state == Seq::<char>::empty(),
            r@.local_ip == opt_view(local_ip),
            r@.extra_ips == opt_view(extra_ips),
    {
        IptablesBackend { batch_opts, rule_state: String::new(), local_ip, extra_ips }
    }

    /// The command whose output is the snapshot of live rules.
    pub fn read_state_command(&self) -> (r: String)
        ensures
            r@ == "sudo iptables-save -t nat | grep epok_rule_id"@,
    {
        String::from_str("sudo iptables-save -t nat | grep epok_rule_id")
    }

    /// Takes the output of the snapshot command and keeps its marked lines;
    /// a failed command counts as no live rules.
    pub fn set_rule_state(&mut self, output: Option<String>)
        ensures
            final(self)@ == (IptablesView {
                rule_state: match output {
                    Some(o) => join_spec(marked_lines(split_spec(o@, '\n')), "\n"@),
                    None => Seq::empty(),
                },
                ..old(self)@
            }),
    {
        match output {
            Some(o) => {
                let lines = split_text(o.as_str(), '\n');
                let marked = marked_exec(&lines);
                self.rule_state = join_text(&marked, "\n");
            },
            None => self.rule_state = String::new(),
        }
    }

    /// The statement that appends `rule` to the NAT table.
    pub fn iptables_statement(&self, rule: &Rule) -> (r: String)
        requires
            emittable(rule@, self@.local_ip),
        ensures
            r@ == statement(rule@, self@.local_ip, self@.config_hash()),
    {
        let ch = self.config_hash();
        statement_exec(rule, &self.local_ip, &ch)
    }

    /// The snapshot of live rules.
    pub fn rule_state(&self) -> (r: &String)
        ensures
            r@ == self@.rule_state,
    {
        &self.rule_state
    }

    pub fn config_hash(&self) -> (r: String)
        ensures
            r@ == self@.config_hash(),
            r@.len() == 32,
            crate::hash::all_hex(r@),
    {
        let mut text = debug_option_exec(&self.local_ip);
        text.append("::");
        let extra = debug_option_exec(&self.extra_ips);
        text.append(extra.as_str());
        short_digest(text.as_str(), 32)
    }

    /// Whether every rule can be written: loopback rules need the local
    /// address.
    pub fn can_emit(&self, rules: &Vec<Rule>) -> (r: bool)
        ensures
            r == forall|k: int| 0 <= k < rules@.len() ==> emittable(#[trigger] rules@[k]@, self@.local_ip),
    {
        let lo = String::from_str("lo");
        let mut k: usize = 0;
        while k < rules.len()
            invariant
                lo@ == "lo"@,
                k <= rules@.len(),
                forall|j: int| 0 <= j < k ==> emittable(#[trigger] rules@[j]@, self@.local_ip),
            decreases rules.len() - k,
        {
            if (rules[k].interface.name == lo && self.local_ip.is_none()) || rules[k].nth
                == usize::MAX {
                assert(!emittable(rules@[k as int]@, self@.local_ip));
                return false;
            }
            k = k + 1;
        }
        true
    }

    /// The invocations that apply the rules not yet live, highest index
    /// first.
    pub fn apply_commands(&self, rules: &Vec<Rule>) -> (r: Vec<String>)
        requires
            forall|k: int| 0 <= k < rules@.len() ==> emittable(#[trigger] rules@[k]@, self@.local_ip),
        ensures
            views(r@) == invocations(
                apply_spec(rule_views(rules@), self@.rule_state, self@.local_ip, self@.config_hash()),
                self@.opts(),
            ),
    {
        let ch = self.config_hash();
        let ghost rv = rule_views(rules@);
        let ghost live = self@.rule_state;
        let ghost lip = self@.local_ip;
        // the rules not live yet
        let mut fresh: Vec<Rule> = Vec::new();
        let mut k: usize = 0;
        while k < rules.len()
            invariant
                rv == rule_views(rules@),
                live == self@.rule_state,
                lip == self@.local_ip,
                ch@ == self@.config_hash(),
                forall|j: int| 0 <= j < rules@.len() ==> emittable(#[trigger] rules@[j]@, lip),
                k <= rules@.len(),
                rule_views(fresh@) == pending(rv.take(k as int), live, ch@),
                forall|j: int| 0 <= j < fresh@.len() ==> emittable(#[trigger] fresh@[j]@, lip),
            decreases rules.len() - k,
        {
            let ghost prev = rule_views(fresh@);
            assert(rv.take(k + 1).drop_last() =~= rv.take(k as int));
            assert(rv.take(k + 1).last() == rules@[k as int]@);
            let id = rules[k].rule_id(ch.as_str());
            if !contains_text(self.rule_state.as_str(), id.as_str()) {
                fresh.push(rules[k].clone());
                assert(rule_views(fresh@) =~= prev.push(rules@[k as int]@));
            }
            k = k + 1;
        }
        assert(rv.take(k as int) =~= rv);
        let ghost pv = rule_views(fresh@);
        // the largest index
        let mut top: usize = 0;
        let mut k: usize = 0;
        while k < fresh.len()
            invariant
                pv == rule_views(fresh@),
                k <= fresh@.len(),
                top as nat == max_nth(pv.take(k as int)),
            decreases fresh.len() - k,
        {
            assert(pv.take(k + 1).drop_last() =~= pv.take(k as int));
            assert(pv.take(k + 1).last() == fresh@[k as int]@);
            if fresh[k].nth > top {
                top = fresh[k].nth;
            }
            k = k + 1;
        }
        assert(pv.take(k as int) =~= pv);
        // highest index first
        let mut ordered: Vec<Rule> = Vec::new();
        let mut v: usize = top;
        loop
            invariant_except_break
                pv == rule_views(fresh@),
                v <= top,
                rule_views(ordered@) + descending(pv, v as nat) == descending(pv, top as nat),
            ensures
                rule_views(ordered@) == descending(pv, top as nat),
            decreases v,
        {
            let ghost prev = rule_views(ordered@);
            let part = with_nth_exec(&fresh, v);
            let mut part = part;
            let ghost partv = rule_views(part@);
            ordered.append(&mut part);
            assert(rule_views(ordered@) =~= prev + partv);
            if v == 0 {
                break;
            }
            assert(descending(pv, v as nat) == partv + descending(pv, (v - 1) as nat));
            assert(rule_views(ordered@) + descending(pv, (v - 1) as nat) =~= prev + descending(
                pv,
                v as nat,
            ));
            v = v - 1;
        }
        proof {
            lemma_descending_emittable(pv, top as nat, lip);
        }
        let ghost ov = rule_views(ordered@);
        let mut cmds: Vec<String> = Vec::new();
        let mut k: usize = 0;
        while k < ordered.len()
            invariant
                ov == rule_views(ordered@),
                lip == self@.local_ip,
                ch@ == self@.config_hash(),
                forall|j: int| 0 <= j < ov.len() ==> emittable(#[trigger] ov[j], lip),
                k <= ov.len(),
                views(cmds@) == statements(ov.take(k as int), lip, ch@),
            decreases ordered.len() - k,
        {
            let ghost prev = views(cmds@);
            assert(ov.take(k + 1).drop_last() =~= ov.take(k as int));
            assert(ov.take(k + 1).last() == ordered@[k as int]@);
            assert(emittable(ov[k as int], lip));
            let st = statement_exec(&ordered[k], &self.local_ip, &ch);
            cmds.push(st);
            assert(views(cmds@) =~= prev.push(st@));
            k = k + 1;
        }
        assert(ov.take(k as int) =~= ov);
        self.invocations(cmds)
    }

    /// The invocations that delete the live rules `filter` selects.
    pub fn delete_commands(&self, filter: &DeleteFilter) -> (r: Vec<String>)
        requires
        ensures
            views(r@) == invocations(delete_all_spec(self@.rule_state, filter@), self@.opts()),
    {
        let lines = split_text(self.rule_state.as_str(), '\n');
        let ghost lv = views(lines@);
        let mut cmds: Vec<String> = Vec::new();
        let mut k: usize = 0;
        while k < lines.len()
            invariant
                lv == views(lines@),
                lv == split_spec(self@.rule_state, '\n'),
                k <= lv.len(),
                views(cmds@) == delete_spec(lv.take(k as int), filter@),
            decreases lines.len() - k,
        {
            let ghost prev = views(cmds@);
            assert(lv.take(k + 1).drop_last() =~= lv.take(k as int));
            assert(lv.take(k + 1).last() == lines@[k as int]@);
            let line = lines[k].as_str();
            if !line.is_empty() && filter.matches(line) {
                let c = append_to_delete(line);
                cmds.push(c);
                assert(views(cmds@) =~= prev.push(c@));
            }
            k = k + 1;
        }
        assert(lv.take(k as int) =~= lv);
        self.invocations(cmds)
    }

    /// Groups commands into invocations as the options ask.
    pub fn invocations(&self, cmds: Vec<String>) -> (r: Vec<String>)
        requires
        ensures
            views(r@) == invocations(views(cmds@), self@.opts()),
    {
        if !self.batch_opts.batch_commands {
            return cmds;
        }
        if self.batch_opts.batch_size == 0 {
            proof {
                crate::batch::lemma_batches_zero_bound(views(cmds@), "; "@);
            }
            return cmds;
        }
        let ghost all = batches_spec(views(cmds@), "; "@, self.batch_opts.batch_size as nat);
        let mut batch = Batch::new(cmds, self.batch_opts.batch_size, "; ");
        let mut out: Vec<String> = Vec::new();
        assert(views(out@) + batch.remaining() =~= all);
        loop
            invariant_except_break
                batch.wf(),
                views(out@) + batch.remaining() == all,
            ensures
                views(out@) == all,
            decreases batch.remaining().len(),
        {
            let ghost before = batch.remaining();
            let ghost prev = views(out@);
            match batch.next() {
                Some(b) => {
                    out.push(b);
                    assert(views(out@) =~= prev.push(b@));
                    assert(views(out@) + batch.remaining() =~= prev + before);
                },
                None => {
                    assert(before.len() == 0);
                    assert(prev + before =~= prev);
                    break;
                },
            }
        }
        out
    }
}

} // verus!
