//! Greedy batching of shell commands under a length bound.

use vstd::prelude::*;
use vstd::utf8::encode_utf8;

use crate::text::{join_spec, views};

verus! {

/// The length of `s` in bytes, as `str::len` reports it.
pub open spec fn text_len(s: Seq<char>) -> nat {
    (encode_utf8(s).len() as usize) as nat
}

/// The batches that greedy grouping yields from item `i` on, where `cur`
/// is the batch being filled (if `open`). An item joins the open batch
/// while the batch's length plus the item's stays under `n`; otherwise the
/// batch is closed and the item opens the next one.
pub open spec fn batches_from(
    items: Seq<Seq<char>>,
    sep: Seq<char>,
    n: nat,
    i: int,
    cur: Seq<char>,
    open: bool,
) -> Seq<Seq<char>>
    decreases items.len() - i,
{
    if i >= items.len() {
        if open {
            seq![cur]
        } else {
            Seq::empty()
        }
    } else if !open {
        batches_from(items, sep, n, i + 1, items[i], true)
    } else if text_len(cur) + text_len(items[i]) >= n {
        seq![cur] + batches_from(items, sep, n, i + 1, items[i], true)
    } else {
        batches_from(items, sep, n, i + 1, cur + sep + items[i], true)
    }
}

/// All batches of `items`, joined with `sep`, under the bound `n`.
pub open spec fn batches_spec(items: Seq<Seq<char>>, sep: Seq<char>, n: nat) -> Seq<Seq<char>> {
    batches_from(items, sep, n, 0, Seq::empty(), false)
}

proof fn lemma_join_prepend(a: Seq<char>, rest: Seq<Seq<char>>, sep: Seq<char>)
    ensures
        rest.len() > 0 ==> join_spec(seq![a] + rest, sep) == a + sep + join_spec(rest, sep),
        rest.len() == 0 ==> join_spec(seq![a] + rest, sep) == a,
    decreases rest.len(),
{
    let all = seq![a] + rest;
    if rest.len() == 0 {
        assert(all =~= seq![a]);
        assert(join_spec(all, sep) == all[0]);
    } else if rest.len() == 1 {
        assert(all.drop_last() =~= seq![a]);
        assert(join_spec(all.drop_last(), sep) == a);
        assert(all.last() == rest[0]);
        assert(join_spec(rest, sep) == rest[0]);
    } else {
        lemma_join_prepend(a, rest.drop_last(), sep);
        assert(all.drop_last() =~= seq![a] + rest.drop_last());
        assert(all.last() == rest.last());
        assert(a + sep + join_spec(rest, sep) =~= a + sep + join_spec(rest.drop_last(), sep) + sep
            + rest.last());
    }
}

proof fn lemma_batches_from_join(
    items: Seq<Seq<char>>,
    sep: Seq<char>,
    n: nat,
    i: int,
    cur: Seq<char>,
)
    requires
        0 <= i <= items.len(),
    ensures
        join_spec(batches_from(items, sep, n, i, cur, true), sep) == join_spec(
            seq![cur] + items.subrange(i, items.len() as int),
            sep,
        ),
    decreases items.len() - i,
{
    let rest = items.subrange(i, items.len() as int);
    if i == items.len() {
        assert(seq![cur] + rest =~= seq![cur]);
    } else {
        let tail = items.subrange(i + 1, items.len() as int);
        assert(rest =~= seq![items[i]] + tail);
        lemma_batches_from_join(items, sep, n, i + 1, items[i]);
        lemma_join_prepend(cur, rest, sep);
        lemma_join_prepend(items[i], tail, sep);
        if text_len(cur) + text_len(items[i]) >= n {
            let later = batches_from(items, sep, n, i + 1, items[i], true);
            lemma_batches_nonempty(items, sep, n, i + 1, items[i]);
            lemma_join_prepend(cur, later, sep);
        } else {
            let merged = cur + sep + items[i];
            lemma_batches_from_join(items, sep, n, i + 1, merged);
            lemma_join_prepend(merged, tail, sep);
            if tail.len() > 0 {
                assert(merged + sep + join_spec(tail, sep) =~= cur + sep + (items[i] + sep
                    + join_spec(tail, sep)));
            }
        }
    }
}

proof fn lemma_batches_nonempty(
    items: Seq<Seq<char>>,
    sep: Seq<char>,
    n: nat,
    i: int,
    cur: Seq<char>,
)
    ensures
        batches_from(items, sep, n, i, cur, true).len() > 0,
    decreases items.len() - i,
{
    if i < items.len() {
        lemma_batches_nonempty(items, sep, n, i + 1, items[i]);
        lemma_batches_nonempty(items, sep, n, i + 1, cur + sep + items[i]);
    }
}

/// Batching loses and adds nothing: joining the batches with the separator
/// gives the same text as joining the commands themselves.
pub proof fn lemma_batches_join(items: Seq<Seq<char>>, sep: Seq<char>, n: nat)
    ensures
        join_spec(batches_spec(items, sep, n), sep) == join_spec(items, sep),
{
    if items.len() > 0 {
        lemma_batches_from_join(items, sep, n, 1, items[0]);
        assert(seq![items[0]] + items.subrange(1, items.len() as int) =~= items);
    }
}

proof fn lemma_batches_from_zero(items: Seq<Seq<char>>, sep: Seq<char>, i: int, cur: Seq<char>)
    requires
        0 <= i <= items.len(),
    ensures
        batches_from(items, sep, 0, i, cur, true) == seq![cur] + items.subrange(i, items.len() as int),
    decreases items.len() - i,
{
    if i < items.len() {
        lemma_batches_from_zero(items, sep, i + 1, items[i]);
        assert(seq![cur] + (seq![items[i]] + items.subrange(i + 1, items.len() as int)) =~= seq![cur]
            + items.subrange(i, items.len() as int));
    } else {
        assert(seq![cur] + items.subrange(i, items.len() as int) =~= seq![cur]);
    }
}

/// With a bound of 0 every command stands alone.
pub proof fn lemma_batches_zero_bound(items: Seq<Seq<char>>, sep: Seq<char>)
    ensures
        batches_spec(items, sep, 0) == items,
{
    if items.len() > 0 {
        lemma_batches_from_zero(items, sep, 1, items[0]);
        assert(seq![items[0]] + items.subrange(1, items.len() as int) =~= items);
    } else {
        assert(batches_spec(items, sep, 0) =~= items);
    }
}

/// Groups an ordered list of commands into joined batches, greedily from
/// the left, so that each batch stays under a length bound where it can.
pub struct Batch {
    items: Vec<String>,
    sep: String,
    arg_max: usize,
    pos: usize,
}

impl Batch {
    /// The batches still to come.
    pub closed spec fn remaining(&self) -> Seq<Seq<char>> {
        batches_from(views(self.items@), self.sep@, self.arg_max as nat, self.pos as int,
            Seq::empty(), false)
    }

    pub closed spec fn wf(&self) -> bool {
        self.pos <= self.items@.len() && self.arg_max > 0
    }

    pub fn new(items: Vec<String>, arg_max: usize, sep: &str) -> (r: Batch)
        requires
            arg_max > 0,
        ensures
            r.wf(),
            r.remaining() == batches_spec(views(items@), sep@, arg_max as nat),
            r.arg_max() == arg_max,
    {
        Batch { items, sep: sep.to_owned(), arg_max, pos: 0 }
    }

    pub closed spec fn spec_arg_max(&self) -> usize {
        self.arg_max
    }

    /// The length bound.
    #[verifier::when_used_as_spec(spec_arg_max)]
    pub fn arg_max(&self) -> (r: usize)
        ensures
            r == self.spec_arg_max(),
    {
        self.arg_max
    }

    /// The next batch, or `None` once all commands have been handed out.
    pub fn next(&mut self) -> (r: Option<String>)
        requires
            old(self).wf(),
        ensures
            final(self).wf(),
            final(self).arg_max() == old(self).arg_max(),
            r is None <==> old(self).remaining().len() == 0,
            r is Some ==> old(self).remaining() == seq![r->0@] + final(self).remaining(),
            r is None ==> final(self).remaining() == old(self).remaining(),
    {
        let n = self.items.len();
        if self.pos >= n {
            return None;
        }
        let ghost items = views(self.items@);
        let ghost sep = self.sep@;
        let ghost bound = self.arg_max as nat;
        let ghost total = self.remaining();
        assert(total == batches_from(items, sep, bound, self.pos + 1, items[self.pos as int], true));
        let mut acc = self.items[self.pos].clone();
        self.pos = self.pos + 1;
        while self.pos < n
            invariant
                n == self.items@.len(),
                items == views(self.items@),
                sep == self.sep@,
                bound == self.arg_max as nat,
                self.arg_max == old(self).arg_max,
                self.arg_max > 0,
                1 <= self.pos <= n,
                total == batches_from(items, sep, bound, self.pos as int, acc@, true),
                total == old(self).remaining(),
            decreases n - self.pos,
        {
            let acc_len = acc.as_str().len();
            let item_len = self.items[self.pos].as_str().len();
            if acc_len >= self.arg_max || item_len >= self.arg_max - acc_len {
                assert(total == seq![acc@] + batches_from(items, sep, bound, self.pos + 1,
                    items[self.pos as int], true));
                assert(batches_from(items, sep, bound, self.pos as int, Seq::empty(), false)
                    == batches_from(items, sep, bound, self.pos + 1, items[self.pos as int], true));
                assert(self.remaining() == batches_from(items, sep, bound, self.pos as int,
                    Seq::empty(), false));
                assert(old(self).remaining() == total);
                return Some(acc);
            }
            acc.append(self.sep.as_str());
            acc.append(self.items[self.pos].as_str());
            self.pos = self.pos + 1;
        }
        assert(total == seq![acc@]);
        assert(self.remaining() =~= Seq::<Seq<char>>::empty());
        assert(total =~= seq![acc@] + self.remaining());
        Some(acc)
    }
}

} // verus!
