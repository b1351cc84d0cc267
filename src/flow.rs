//! Fan-out and fan-in: the copies a fork sends down its branches, and the
//! join state that collects them again.
use vstd::prelude::*;
use crate::json::{JsonValue, same, str_eq};
use crate::template::push_char;
use crate::types::{Connection, Message, same_message};

verus! {

/// The digit character for `d < 10`.
pub open spec fn digit_char(d: nat) -> char {
    if d == 0 {
        '0'
    } else if d == 1 {
        '1'
    } else if d == 2 {
        '2'
    } else if d == 3 {
        '3'
    } else if d == 4 {
        '4'
    } else if d == 5 {
        '5'
    } else if d == 6 {
        '6'
    } else if d == 7 {
        '7'
    } else if d == 8 {
        '8'
    } else {
        '9'
    }
}

/// The decimal text of `n`, without leading zeros.
pub open spec fn decimal(n: nat) -> Seq<char>
    decreases n,
{
    if n < 10 {
        seq![digit_char(n)]
    } else {
        decimal(n / 10).push(digit_char(n % 10))
    }
}

fn digit(d: usize) -> (c: char)
    requires
        d < 10,
    ensures
        c == digit_char(d as nat),
{
    if d == 0 {
        '0'
    } else if d == 1 {
        '1'
    } else if d == 2 {
        '2'
    } else if d == 3 {
        '3'
    } else if d == 4 {
        '4'
    } else if d == 5 {
        '5'
    } else if d == 6 {
        '6'
    } else if d == 7 {
        '7'
    } else if d == 8 {
        '8'
    } else {
        '9'
    }
}

/// The decimal text of `n`.
pub fn decimal_text(n: usize) -> (r: String)
    ensures
        r@ == decimal(n as nat),
    decreases n,
{
    if n < 10 {
        let mut s = String::new();
        push_char(&mut s, digit(n));
        assert(s@ =~= seq![digit_char(n as nat)]);
        s
    } else {
        let mut s = decimal_text(n / 10);
        push_char(&mut s, digit(n % 10));
        s
    }
}

/// Targets of the connections labelled `success` that leave `from`, in order.
pub open spec fn success_targets(conns: Seq<Connection>, from: u128) -> Seq<u128>
    decreases conns.len(),
{
    if conns.len() == 0 {
        Seq::empty()
    } else if conns.last().from_id == from && conns.last().label@ == "success"@ {
        success_targets(conns.drop_last(), from).push(conns.last().to_id)
    } else {
        success_targets(conns.drop_last(), from)
    }
}

/// `b` is the copy a fork sends down branch `i`: the same message, with
/// `branch_id` set to `i` and `is_branch` to `true` in its metadata.
pub open spec fn branch_copy(msg: Message, b: Message, i: nat) -> bool {
    &&& b.id == msg.id
    &&& b.msg_type@ == msg.msg_type@
    &&& same(msg.data, b.data)
    &&& b.timestamp == msg.timestamp
    &&& b.metadata.get_spec("branch_id"@) == Some(decimal(i))
    &&& b.metadata.get_spec("is_branch"@) == Some("true"@)
    &&& forall|k: Seq<char>| k != "branch_id"@ && k != "is_branch"@ ==> #[trigger] b.metadata.get_spec(k) == msg.metadata.get_spec(k)
}

/// One copy of `msg` for each `success` connection leaving `from`, paired
/// with the node it goes to; branch ids count from 0 in connection order.
pub fn branch_messages(msg: &Message, from: u128, conns: &Vec<Connection>) -> (r: Vec<(u128, Message)>)
    ensures
        r@.len() == success_targets(conns@, from).len(),
        forall|i: int| 0 <= i < r@.len() ==> (#[trigger] r@[i]).0 == success_targets(conns@, from)[i] && branch_copy(
            *msg,
            r@[i].1,
            i as nat,
        ),
{
    let mut out: Vec<(u128, Message)> = Vec::new();
    let mut k: usize = 0;
    while k < conns.len()
        invariant
            k <= conns@.len(),
            out@.len() == success_targets(conns@.subrange(0, k as int), from).len(),
            forall|i: int| 0 <= i < out@.len() ==> (#[trigger] out@[i]).0 == success_targets(conns@.subrange(0, k as int), from)[i]
                && branch_copy(*msg, out@[i].1, i as nat),
        decreases conns@.len() - k,
    {
        let ghost sub = conns@.subrange(0, k + 1);
        assert(sub.drop_last() =~= conns@.subrange(0, k as int));
        assert(sub.last() == conns@[k as int]);
        let ghost prev = out@;
        let ghost before = success_targets(conns@.subrange(0, k as int), from);
        if conns[k].from_id == from && str_eq(conns[k].label.as_str(), "success") {
            let i = out.len();
            let mut copy = msg.duplicate();
            copy.metadata.insert("branch_id".to_string(), decimal_text(i));
            let ghost mid_meta = copy.metadata;
            copy.metadata.insert("is_branch".to_string(), "true".to_string());
            proof {
                reveal_strlit("branch_id");
                reveal_strlit("is_branch");
                assert("branch_id"@ != "is_branch"@) by {
                    assert("branch_id"@[0] != "is_branch"@[0]);
                }
                assert(copy.metadata.get_spec("branch_id"@) == mid_meta.get_spec("branch_id"@));
                assert(branch_copy(*msg, copy, i as nat));
            }
            out.push((conns[k].to_id, copy));
            proof {
                assert forall|q: int| 0 <= q < out@.len() implies (#[trigger] out@[q]).0 == success_targets(sub, from)[q]
                    && branch_copy(*msg, out@[q].1, q as nat) by {
                    if q < prev.len() {
                        assert(out@[q] == prev[q]);
                        assert(success_targets(sub, from)[q] == before[q]);
                    }
                }
            }
        } else {
            proof {
                if conns@[k as int].from_id == from && conns@[k as int].label@ == "success"@ {
                    assert(conns[k as int].label@ == "success"@);
                }
            }
        }
        k = k + 1;
    }
    assert(conns@.subrange(0, conns@.len() as int) =~= conns@);
    out
}

/// Results handed over by the branches of a fork, kept in order of branch id.
#[derive(Debug)]
pub struct BranchResults {
    pub entries: Vec<(usize, Message)>,
}

impl BranchResults {
    /// Branch ids increase strictly along the entries.
    pub open spec fn wf(&self) -> bool {
        forall|a: int, b: int| 0 <= a < b < self.entries@.len() ==> (#[trigger] self.entries@[a]).0 < (#[trigger] self.entries@[b]).0
    }

    /// The result stored for `branch`.
    pub open spec fn result_of(&self, branch: usize) -> Option<Message> {
        if exists|a: int| 0 <= a < self.entries@.len() && (#[trigger] self.entries@[a]).0 == branch {
            Some(self.entries@[choose|a: int| 0 <= a < self.entries@.len() && (#[trigger] self.entries@[a]).0 == branch].1)
        } else {
            None
        }
    }

    pub fn new() -> (r: BranchResults)
        ensures
            r.wf(),
            r.entries@.len() == 0,
    {
        BranchResults { entries: Vec::new() }
    }

    /// Stores `msg` as the result of `branch`, replacing an earlier one.
    pub fn add_branch_result(&mut self, branch: usize, msg: Message)
        requires
            old(self).wf(),
        ensures
            final(self).wf(),
            final(self).result_of(branch) == Some(msg),
            forall|b: usize| b != branch ==> #[trigger] final(self).result_of(b) == old(self).result_of(b),
    {
        let mut i: usize = 0;
        while i < self.entries.len() && self.entries[i].0 < branch
            invariant
                i <= self.entries@.len(),
                self.wf(),
                self.entries@ == old(self).entries@,
                forall|a: int| 0 <= a < i ==> (#[trigger] self.entries@[a]).0 < branch,
            decreases self.entries@.len() - i,
        {
            i = i + 1;
        }
        let ghost pre = self.entries@;
        if i < self.entries.len() && self.entries[i].0 == branch {
            self.entries.set(i, (branch, msg));
            proof {
                assert forall|b: usize| true implies #[trigger] self.result_of(b) == if b == branch {
                    Some(msg)
                } else {
                    old(self).result_of(b)
                } by {
                    if b == branch {
                        assert(self.entries@[i as int].0 == branch);
                        let a = choose|a: int| 0 <= a < self.entries@.len() && (#[trigger] self.entries@[a]).0 == branch;
                        if a != i {
                            assert(self.entries@[a] == pre[a]);
                            if a > i {
                                assert(pre[i as int].0 < pre[a].0);
                            }
                        }
                        assert(a == i);
                    } else if exists|a: int| 0 <= a < pre.len() && (#[trigger] pre[a]).0 == b {
                        let a = choose|a: int| 0 <= a < pre.len() && (#[trigger] pre[a]).0 == b;
                        assert(self.entries@[a] == pre[a]);
                        let c = choose|c: int| 0 <= c < self.entries@.len() && (#[trigger] self.entries@[c]).0 == b;
                        assert(c == a);
                    } else {
                        assert forall|c: int| 0 <= c < self.entries@.len() implies (#[trigger] self.entries@[c]).0 != b by {
                            if c != i {
                                assert(self.entries@[c] == pre[c]);
                            }
                        }
                    }
                }
            }
        } else {
            self.entries.insert(i, (branch, msg));
            proof {
                assert forall|a: int| 0 <= a < self.entries@.len() implies (#[trigger] self.entries@[a]) == if a < i {
                    pre[a]
                } else if a == i {
                    (branch, msg)
                } else {
                    pre[a - 1]
                } by {}
                assert forall|b: usize| true implies #[trigger] self.result_of(b) == if b == branch {
                    Some(msg)
                } else {
                    old(self).result_of(b)
                } by {
                    if b == branch {
                        assert(self.entries@[i as int].0 == branch);
                        let a = choose|a: int| 0 <= a < self.entries@.len() && (#[trigger] self.entries@[a]).0 == branch;
                        if a != i {
                            if a < i {
                                assert(pre[a].0 < branch);
                            } else {
                                assert(pre[a - 1].0 > branch || pre[a - 1].0 == branch) by {
                                    if i < pre.len() {
                                        assert(pre[i as int].0 >= branch);
                                        if a - 1 > i {
                                            assert(pre[i as int].0 < pre[a - 1].0);
                                        }
                                    }
                                }
                                assert(i < pre.len() ==> pre[i as int].0 != branch);
                            }
                        }
                    } else if exists|a: int| 0 <= a < pre.len() && (#[trigger] pre[a]).0 == b {
                        let a = choose|a: int| 0 <= a < pre.len() && (#[trigger] pre[a]).0 == b;
                        let a2 = if a < i { a } else { a + 1 };
                        assert(self.entries@[a2].0 == b);
                        let c = choose|c: int| 0 <= c < self.entries@.len() && (#[trigger] self.entries@[c]).0 == b;
                        let c0 = if c < i { c } else { c - 1 };
                        assert(c != i);
                        assert(pre[c0].0 == b);
                        assert(c0 == a);
                    } else {
                        assert forall|c: int| 0 <= c < self.entries@.len() implies (#[trigger] self.entries@[c]).0 != b by {
                            if c < i {
                                assert(self.entries@[c] == pre[c]);
                            } else if c > i {
                                assert(self.entries@[c] == pre[c - 1]);
                            }
                        }
                    }
                }
            }
        }
    }

    /// The stored results, in order of branch id.
    pub fn get_branch_results(&self) -> (r: Vec<Message>)
        ensures
            r@.len() == self.entries@.len(),
            forall|a: int| 0 <= a < r@.len() ==> same_message(self.entries@[a].1, #[trigger] r@[a]),
    {
        let mut out: Vec<Message> = Vec::new();
        let mut a: usize = 0;
        while a < self.entries.len()
            invariant
                a <= self.entries@.len(),
                out@.len() == a,
                forall|q: int| 0 <= q < a ==> same_message(self.entries@[q].1, #[trigger] out@[q]),
            decreases self.entries@.len() - a,
        {
            out.push(self.entries[a].1.duplicate());
            a = a + 1;
        }
        out
    }
}

/// A message waiting at a join node.
#[derive(Debug)]
pub struct Arrival {
    pub node_id: u128,
    pub msg: Message,
}

/// Messages waiting at join node `node` under message id `mid`, in order of arrival.
pub open spec fn pending(s: Seq<Arrival>, node: u128, mid: u128) -> Seq<Message>
    decreases s.len(),
{
    if s.len() == 0 {
        Seq::empty()
    } else if s.last().node_id == node && s.last().msg.id == mid {
        pending(s.drop_last(), node, mid).push(s.last().msg)
    } else {
        pending(s.drop_last(), node, mid)
    }
}

/// The arrivals of `s` not waiting under (`node`, `mid`).
pub open spec fn others(s: Seq<Arrival>, node: u128, mid: u128) -> Seq<Arrival>
    decreases s.len(),
{
    if s.len() == 0 {
        Seq::empty()
    } else if s.last().node_id == node && s.last().msg.id == mid {
        others(s.drop_last(), node, mid)
    } else {
        others(s.drop_last(), node, mid).push(s.last())
    }
}

proof fn lemma_others_pending(s: Seq<Arrival>, node: u128, mid: u128, n2: u128, m2: u128)
    ensures
        pending(others(s, node, mid), n2, m2) == if n2 == node && m2 == mid {
            Seq::<Message>::empty()
        } else {
            pending(s, n2, m2)
        },
    decreases s.len(),
{
    if s.len() > 0 {
        lemma_others_pending(s.drop_last(), node, mid, n2, m2);
        let o = others(s.drop_last(), node, mid);
        if !(s.last().node_id == node && s.last().msg.id == mid) {
            assert(o.push(s.last()).drop_last() =~= o);
        }
    }
}

/// `v` is `{"data": d}`.
pub open spec fn data_item(v: JsonValue, d: JsonValue) -> bool {
    &&& v matches JsonValue::Object(f)
    &&& f@.len() == 1
    &&& f@[0].0@ == "data"@
    &&& f@[0].1 == d
}

/// `d` is the merged payload `{"branches": [{"data": ...}, ...]}` of `arrivals`.
pub open spec fn merged_data(d: JsonValue, arrivals: Seq<Message>) -> bool {
    &&& d matches JsonValue::Object(top)
    &&& top@.len() == 1
    &&& top@[0].0@ == "branches"@
    &&& top@[0].1 matches JsonValue::Array(items)
    &&& items@.len() == arrivals.len()
    &&& forall|i: int|
        0 <= i < items@.len() ==> data_item(#[trigger] items@[i], arrivals[i].data)
}

/// What a join node does with an arriving message.
#[derive(Debug)]
pub enum JoinOutcome {
    /// More branches are due: the message is kept and handed back.
    Waiting(Message),
    /// The last branch arrived: the merged message goes on.
    Merged(Message),
}

/// Whether an arrival completes the join: the waiting ones and it reach the
/// expected count.
pub open spec fn completes(waiting: nat, expected: nat) -> bool {
    waiting + 1 >= expected
}

/// Messages waiting at join nodes, keyed by join node and message id.
#[derive(Debug)]
pub struct JoinState {
    pub arrivals: Vec<Arrival>,
}

impl JoinState {
    pub open spec fn waiting(&self, node: u128, mid: u128) -> Seq<Message> {
        pending(self.arrivals@, node, mid)
    }

    /// No message waits.
    pub fn new() -> (r: JoinState)
        ensures
            r.arrivals@.len() == 0,
    {
        JoinState { arrivals: Vec::new() }
    }

    /// Number of messages waiting at `node` under `mid`.
    pub fn waiting_count(&self, node: u128, mid: u128) -> (r: usize)
        ensures
            r == self.waiting(node, mid).len(),
    {
        let mut c: usize = 0;
        let mut k: usize = 0;
        while k < self.arrivals.len()
            invariant
                k <= self.arrivals@.len(),
                c == pending(self.arrivals@.subrange(0, k as int), node, mid).len(),
                c <= k,
            decreases self.arrivals@.len() - k,
        {
            let ghost sub = self.arrivals@.subrange(0, k + 1);
            assert(sub.drop_last() =~= self.arrivals@.subrange(0, k as int));
            if self.arrivals[k].node_id == node && self.arrivals[k].msg.id == mid {
                c = c + 1;
            }
            k = k + 1;
        }
        assert(self.arrivals@.subrange(0, k as int) =~= self.arrivals@);
        c
    }

    /// Takes out the messages waiting at `node` under `mid`.
    fn take(&mut self, node: u128, mid: u128) -> (r: Vec<Message>)
        ensures
            r@ == old(self).waiting(node, mid),
            final(self).arrivals@ == others(old(self).arrivals@, node, mid),
    {
        let mut rest: Vec<Arrival> = Vec::new();
        std::mem::swap(&mut rest, &mut self.arrivals);
        let ghost all = rest@;
        let mut taken: Vec<Message> = Vec::new();
        let mut kept: Vec<Arrival> = Vec::new();
        let mut k: usize = 0;
        let n = rest.len();
        while rest.len() > 0
            invariant
                n == all.len(),
                k + rest@.len() == n,
                rest@ == all.subrange(k as int, n as int),
                taken@ == pending(all.subrange(0, k as int), node, mid),
                kept@ == others(all.subrange(0, k as int), node, mid),
            decreases rest@.len(),
        {
            let a = rest.remove(0);
            let ghost sub = all.subrange(0, k + 1);
            assert(sub.drop_last() =~= all.subrange(0, k as int));
            assert(a == all[k as int]);
            assert(rest@ =~= all.subrange(k + 1, n as int));
            if a.node_id == node && a.msg.id == mid {
                taken.push(a.msg);
            } else {
                kept.push(a);
            }
            k = k + 1;
        }
        assert(all.subrange(0, n as int) =~= all);
        self.arrivals = kept;
        taken
    }

    /// Records that `msg` reached join node `node`, which expects `expected`
    /// arrivals per message id. While fewer have come, the message is kept
    /// and a copy handed back. The arrival that completes the count takes
    /// out all waiting messages and yields one merged message: id, type,
    /// metadata and time of the last arrival, and payload
    /// `{"branches": [{"data": ...}, ...]}` in order of arrival.
    pub fn arrive(&mut self, node: u128, msg: Message, expected: usize) -> (r: JoinOutcome)
        ensures
            ({
                let before = old(self).waiting(node, msg.id);
                if completes(before.len(), expected as nat) {
                    &&& r matches JoinOutcome::Merged(m) && m.id == msg.id && m.msg_type == msg.msg_type && m.metadata == msg.metadata
                        && m.timestamp == msg.timestamp && merged_data(m.data, before.push(msg))
                    &&& final(self).waiting(node, msg.id).len() == 0
                } else {
                    &&& r matches JoinOutcome::Waiting(w) && same_message(msg, w)
                    &&& final(self).waiting(node, msg.id) == before.push(msg)
                }
            }),
            forall|n2: u128, m2: u128|
                !(n2 == node && m2 == msg.id) ==> #[trigger] final(self).waiting(n2, m2) == old(self).waiting(n2, m2),
    {
        let count = self.waiting_count(node, msg.id);
        if expected > 0 && count < expected - 1 {
            let echo = msg.duplicate();
            let ghost pre = self.arrivals@;
            self.arrivals.push(Arrival { node_id: node, msg });
            proof {
                assert(self.arrivals@.drop_last() =~= pre);
                assert forall|n2: u128, m2: u128| !(n2 == node && m2 == echo.id) implies #[trigger] pending(self.arrivals@, n2, m2)
                    == pending(pre, n2, m2) by {}
            }
            return JoinOutcome::Waiting(echo);
        }
        let ghost pre = self.arrivals@;
        let mid = msg.id;
        let mut earlier = self.take(node, mid);
        proof {
            assert forall|n2: u128, m2: u128| true implies #[trigger] pending(self.arrivals@, n2, m2) == if n2 == node && m2 == mid {
                Seq::<Message>::empty()
            } else {
                pending(pre, n2, m2)
            } by {
                lemma_others_pending(pre, node, mid, n2, m2);
            }
        }
        let ghost arrivals = earlier@;
        let mut items: Vec<JsonValue> = Vec::new();
        let mut i: usize = 0;
        let total = earlier.len();
        while earlier.len() > 0
            invariant
                total == arrivals.len(),
                i + earlier@.len() == total,
                earlier@ == arrivals.subrange(i as int, total as int),
                items@.len() == i,
                forall|q: int|
                    0 <= q < i ==> data_item(#[trigger] items@[q], arrivals[q].data),
            decreases earlier@.len(),
        {
            let b = earlier.remove(0);
            assert(b == arrivals[i as int]);
            assert(earlier@ =~= arrivals.subrange(i + 1, total as int));
            let mut f: Vec<(String, JsonValue)> = Vec::new();
            f.push(("data".to_string(), b.data));
            items.push(JsonValue::Object(f));
            i = i + 1;
        }
        let mut f: Vec<(String, JsonValue)> = Vec::new();
        f.push(("data".to_string(), msg.data));
        items.push(JsonValue::Object(f));
        let mut top: Vec<(String, JsonValue)> = Vec::new();
        top.push(("branches".to_string(), JsonValue::Array(items)));
        let merged = Message {
            id: msg.id,
            msg_type: msg.msg_type,
            metadata: msg.metadata,
            data: JsonValue::Object(top),
            timestamp: msg.timestamp,
        };
        proof {
            let all = arrivals.push(msg);
            assert forall|q: int| 0 <= q < items@.len() implies data_item(#[trigger] items@[q], all[q].data) by {
                if q < arrivals.len() {
                    assert(all[q] == arrivals[q]);
                }
            }
            assert(merged_data(merged.data, all));
        }
        JoinOutcome::Merged(merged)
    }
}

/// Number of merged messages a join emits when `n` arrivals come for one
/// message id, `waiting` of them already held, and `expected` are due.
pub open spec fn merges_in_run(waiting: nat, n: nat, expected: nat) -> nat
    decreases n,
{
    if n == 0 {
        0
    } else if completes(waiting, expected) {
        1 + merges_in_run(0, (n - 1) as nat, expected)
    } else {
        merges_in_run(waiting + 1, (n - 1) as nat, expected)
    }
}

/// Messages still held after such a run.
pub open spec fn held_after_run(waiting: nat, n: nat, expected: nat) -> nat
    decreases n,
{
    if n == 0 {
        waiting
    } else if completes(waiting, expected) {
        held_after_run(0, (n - 1) as nat, expected)
    } else {
        held_after_run(waiting + 1, (n - 1) as nat, expected)
    }
}

/// A join fed by a fork with `n` success branches receives `n` arrivals per
/// message id: the first `n - 1` are held, the last one completes the join,
/// so exactly one merged message comes out and nothing stays held.
pub proof fn lemma_fork_join_emits_once(n: nat)
    requires
        n >= 1,
    ensures
        merges_in_run(0, n, n) == 1,
        held_after_run(0, n, n) == 0,
    decreases n,
{
    lemma_run_tail(0, n, n);
}

proof fn lemma_run_tail(waiting: nat, n: nat, expected: nat)
    requires
        n >= 1,
        waiting + n == expected,
    ensures
        merges_in_run(waiting, n, expected) == 1,
        held_after_run(waiting, n, expected) == 0,
    decreases n,
{
    if n == 1 {
        assert(completes(waiting, expected));
        assert(merges_in_run(0, 0, expected) == 0);
        assert(held_after_run(0, 0, expected) == 0);
        assert(merges_in_run(waiting, 1, expected) == 1 + merges_in_run(0, 0, expected));
        assert(held_after_run(waiting, 1, expected) == held_after_run(0, 0, expected));
    } else {
        assert(!completes(waiting, expected));
        lemma_run_tail(waiting + 1, (n - 1) as nat, expected);
        assert(merges_in_run(waiting, n, expected) == merges_in_run(waiting + 1, (n - 1) as nat, expected));
        assert(held_after_run(waiting, n, expected) == held_after_run(waiting + 1, (n - 1) as nat, expected));
    }
}

} // verus!
