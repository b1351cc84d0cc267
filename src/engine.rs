//! The chain store: loading with validation and cycle checks, lookup,
//! execution counters and removal.
use vstd::prelude::*;
use crate::chain::{chain_valid, node_edge, subchain_target, subchain_target_of};
use crate::graph::{acyclic_via, arrow_join, visits_once, cycle_via, find_cycle, has_edge, lemma_same_cycles, link_graph, path_text};
use crate::template::uuid_text;
use crate::registry::NodeRegistry;
use crate::types::{Metadata, RuleChain, RuleError};
use crate::version::VersionManager;

verus! {

/// How long removal waits for running executions, in milliseconds.
pub const REMOVE_TIMEOUT_MS: u64 = 5000;

/// How often removal looks at the execution counter, in milliseconds.
pub const REMOVE_POLL_MS: u64 = 100;

/// Chain ids are distinct.
pub open spec fn ids_unique(chains: Seq<RuleChain>) -> bool {
    forall|a: int, b: int| 0 <= a < b < chains.len() ==> (#[trigger] chains[a]).id != (#[trigger] chains[b]).id
}

pub open spec fn is_stored(chains: Seq<RuleChain>, id: u128) -> bool {
    exists|a: int| 0 <= a < chains.len() && #[trigger] chains[a].id == id
}

/// The store after putting `c` in it: in place of the chain with the same
/// id, or at the end.
pub open spec fn stored(chains: Seq<RuleChain>, c: RuleChain) -> Seq<RuleChain> {
    if is_stored(chains, c.id) {
        chains.update(choose|a: int| 0 <= a < chains.len() && #[trigger] chains[a].id == c.id, c)
    } else {
        chains.push(c)
    }
}

/// Chain `a` holds a sub-chain node that invokes chain `b`.
pub open spec fn chain_edge(chains: Seq<RuleChain>, a: int, b: int) -> bool {
    &&& 0 <= a < chains.len()
    &&& 0 <= b < chains.len()
    &&& exists|x: int| 0 <= x < chains[a].nodes@.len() && subchain_target(#[trigger] chains[a].nodes@[x]) == Some(chains[b].id)
}

/// No chain reaches itself through sub-chain nodes.
pub open spec fn chains_acyclic(chains: Seq<RuleChain>) -> bool {
    acyclic_via(|a: int, b: int| chain_edge(chains, a, b), chains.len() as int)
}

/// No node of `c` reaches itself through connections.
pub open spec fn nodes_acyclic(c: RuleChain) -> bool {
    acyclic_via(|i: int, j: int| node_edge(c, i, j), c.nodes@.len() as int)
}

/// `c` is a cycle among the nodes of `chain`.
pub open spec fn is_node_cycle(chain: RuleChain, c: Seq<usize>) -> bool {
    cycle_via(|i: int, j: int| node_edge(chain, i, j), chain.nodes@.len() as int, c)
}

/// `c` is a cycle among `chains` through sub-chain nodes.
pub open spec fn is_chain_cycle(chains: Seq<RuleChain>, c: Seq<usize>) -> bool {
    cycle_via(|a: int, b: int| chain_edge(chains, a, b), chains.len() as int, c)
}

/// The message naming node cycle `c`: the node ids along it, in order.
pub open spec fn node_cycle_text(chain: RuleChain, c: Seq<usize>) -> Seq<char> {
    "node cycle: "@ + arrow_join(c.map_values(|v: usize| uuid_text(chain.nodes@[v as int].id)))
}

/// The message naming chain cycle `c`: the chain names along it, in order.
pub open spec fn chain_cycle_text(chains: Seq<RuleChain>, c: Seq<usize>) -> Seq<char> {
    "chain cycle: "@ + arrow_join(c.map_values(|v: usize| chains[v as int].name@))
}

/// `m` names, in traversal order, a cycle among the nodes of `chain` that
/// passes each node once.
pub open spec fn names_node_cycle(chain: RuleChain, m: Seq<char>) -> bool {
    exists|c: Seq<usize>| #[trigger] is_node_cycle(chain, c) && visits_once(c) && m == node_cycle_text(chain, c)
}

/// `m` names, in traversal order, a cycle among `chains` that passes each
/// chain once.
pub open spec fn names_chain_cycle(chains: Seq<RuleChain>, m: Seq<char>) -> bool {
    exists|c: Seq<usize>| #[trigger] is_chain_cycle(chains, c) && visits_once(c) && m == chain_cycle_text(chains, c)
}

/// Some chain holds a sub-chain node that invokes `id`.
pub open spec fn referenced(chains: Seq<RuleChain>, id: u128) -> bool {
    exists|a: int, x: int|
        0 <= a < chains.len() && 0 <= x < chains[a].nodes@.len() && subchain_target(#[trigger] chains[a].nodes@[x]) == Some(id)
}

/// `c` with the version and update time a load gives it.
pub open spec fn with_version(c: RuleChain, version: u64, updated_at: i64) -> RuleChain {
    RuleChain { metadata: Metadata { version, updated_at, created_at: c.metadata.created_at }, ..c }
}

/// Number of running executions of `id`.
pub open spec fn count_of(counters: Seq<(u128, usize)>, id: u128) -> usize
    decreases counters.len(),
{
    if counters.len() == 0 {
        0
    } else if counters[0].0 == id {
        counters[0].1
    } else {
        count_of(counters.drop_first(), id)
    }
}

proof fn lemma_count_update(s: Seq<(u128, usize)>, i: int, e: (u128, usize), q: u128)
    requires
        0 <= i < s.len(),
        s[i].0 == e.0,
        forall|j: int| 0 <= j < i ==> (#[trigger] s[j]).0 != e.0,
    ensures
        count_of(s.update(i, e), q) == if q == e.0 {
            e.1
        } else {
            count_of(s, q)
        },
    decreases s.len(),
{
    let u = s.update(i, e);
    if i == 0 {
        assert(u.drop_first() =~= s.drop_first());
    } else {
        assert(u.drop_first() =~= s.drop_first().update(i - 1, e));
        assert(s[0].0 != e.0);
        lemma_count_update(s.drop_first(), i - 1, e, q);
    }
}

proof fn lemma_count_push(s: Seq<(u128, usize)>, e: (u128, usize), q: u128)
    requires
        forall|j: int| 0 <= j < s.len() ==> (#[trigger] s[j]).0 != e.0,
    ensures
        count_of(s.push(e), q) == if q == e.0 {
            e.1
        } else {
            count_of(s, q)
        },
    decreases s.len(),
{
    let sp = s.push(e);
    if s.len() == 0 {
        assert(sp[0] == e);
        assert(sp.drop_first() =~= Seq::<(u128, usize)>::empty());
        assert(count_of(sp.drop_first(), q) == 0);
    } else {
        assert(sp[0] == s[0]);
        assert(s[0].0 != e.0);
        if s[0].0 != q {
            assert(sp.drop_first() =~= s.drop_first().push(e));
            assert forall|j: int| 0 <= j < s.drop_first().len() implies (#[trigger] s.drop_first()[j]).0 != e.0 by {
                assert(s.drop_first()[j] == s[j + 1]);
            }
            lemma_count_push(s.drop_first(), e, q);
        }
    }
}

/// What removal does after looking at the execution counter.
#[derive(Debug, Clone, Copy, PartialEq, Eq, Structural)]
pub enum RemovalStep {
    /// No execution runs: remove the chain now.
    Remove,
    /// Executions run and time is left: look again after the poll interval.
    Wait,
    /// Executions still run after the timeout: give up.
    TimedOut,
}

/// The step removal takes when `count` executions run after `waited_ms`.
pub open spec fn removal_decision(count: usize, waited_ms: u64) -> RemovalStep {
    if count == 0 {
        RemovalStep::Remove
    } else if waited_ms < REMOVE_TIMEOUT_MS {
        RemovalStep::Wait
    } else {
        RemovalStep::TimedOut
    }
}

/// Where removal ends when its `i`-th and later looks at the counter, one
/// poll interval apart, see the counts `counts[i..]`; `Wait` when it has not
/// ended by the last of them.
pub open spec fn removal_run(counts: Seq<usize>, i: int) -> RemovalStep
    decreases counts.len() - i,
{
    if i < 0 || i >= counts.len() || i * REMOVE_POLL_MS >= u64::MAX {
        RemovalStep::Wait
    } else {
        match removal_decision(counts[i], (i * REMOVE_POLL_MS) as u64) {
            RemovalStep::Wait => removal_run(counts, i + 1),
            step => step,
        }
    }
}

/// Number of looks removal takes before its timeout has passed.
pub open spec fn polls_in_timeout() -> int {
    (REMOVE_TIMEOUT_MS / REMOVE_POLL_MS) as int
}

proof fn lemma_removal_run_from(counts: Seq<usize>, k: int)
    requires
        0 <= k <= polls_in_timeout(),
        counts.len() > polls_in_timeout(),
    ensures
        removal_run(counts, k) == RemovalStep::Remove <==> exists|i: int| k <= i <= polls_in_timeout() && counts[i] == 0,
        removal_run(counts, k) == RemovalStep::TimedOut <==> forall|i: int| k <= i <= polls_in_timeout() ==> counts[i] > 0,
    decreases polls_in_timeout() - k,
{
    if k < polls_in_timeout() {
        lemma_removal_run_from(counts, k + 1);
        if counts[k] != 0 {
            assert forall|i: int| k <= i <= polls_in_timeout() && counts[i] == 0 implies k + 1 <= i by {}
        }
    }
}

/// Removal of a chain with running executions, looking at the counter once
/// per poll interval, removes the chain exactly when the count reaches zero
/// within the timeout, and fails exactly when it stays above zero
/// throughout: `counts[i]` is the count seen at the `i`-th look.
pub proof fn lemma_removal_waits_then_removes_or_fails(counts: Seq<usize>)
    requires
        counts.len() > polls_in_timeout(),
    ensures
        removal_run(counts, 0) == RemovalStep::Remove <==> exists|i: int| 0 <= i <= polls_in_timeout() && counts[i] == 0,
        removal_run(counts, 0) == RemovalStep::TimedOut <==> forall|i: int| 0 <= i <= polls_in_timeout() ==> counts[i] > 0,
{
    lemma_removal_run_from(counts, 0);
}

/// Loaded chains, the types that can make their nodes, and execution counts.
#[derive(Debug)]
pub struct RuleEngine {
    pub chains: Vec<RuleChain>,
    pub counters: Vec<(u128, usize)>,
    pub registry: NodeRegistry,
    pub version_manager: VersionManager,
}

impl RuleEngine {
    /// Loaded chains have distinct ids and no cycle, neither among the nodes
    /// of one chain nor among chains through sub-chain nodes.
    pub open spec fn wf(&self) -> bool {
        &&& ids_unique(self.chains@)
        &&& forall|a: int| 0 <= a < self.chains@.len() ==> nodes_acyclic(#[trigger] self.chains@[a])
        &&& chains_acyclic(self.chains@)
    }

    pub open spec fn execution_count(&self, id: u128) -> usize {
        count_of(self.counters@, id)
    }

    /// An engine with no chains and the given node types.
    pub fn with_registry(registry: NodeRegistry) -> (r: RuleEngine)
        ensures
            r.wf(),
            r.chains@.len() == 0,
            r.registry == registry,
            r.version_manager.current_version == 1,
            forall|id: u128| #[trigger] r.execution_count(id) == 0,
    {
        let r = RuleEngine {
            chains: Vec::new(),
            counters: Vec::new(),
            registry,
            version_manager: VersionManager::new(),
        };
        proof {
            let e = |a: int, b: int| chain_edge(r.chains@, a, b);
            assert forall|c: Seq<usize>| !(#[trigger] cycle_via(e, 0, c)) by {
                if cycle_via(e, 0, c) {
                    assert(c[0] < 0);
                }
            }
        }
        r
    }

    /// Position of the chain with id `id`.
    pub fn find_chain(&self, id: u128) -> (r: Option<usize>)
        ensures
            r matches Some(a) ==> a < self.chains@.len() && self.chains@[a as int].id == id,
            r is None <==> !is_stored(self.chains@, id),
    {
        let mut a: usize = 0;
        while a < self.chains.len()
            invariant
                a <= self.chains@.len(),
                forall|b: int| 0 <= b < a ==> (#[trigger] self.chains@[b]).id != id,
            decreases self.chains@.len() - a,
        {
            if self.chains[a].id == id {
                return Some(a);
            }
            a = a + 1;
        }
        None
    }

    /// The chain with id `id`.
    pub fn get_chain(&self, id: u128) -> (r: Option<&RuleChain>)
        ensures
            r is None <==> !is_stored(self.chains@, id),
            r matches Some(c) ==> c.id == id && exists|a: int| 0 <= a < self.chains@.len() && self.chains@[a] == *c,
    {
        match self.find_chain(id) {
            Some(a) => Some(&self.chains[a]),
            None => None,
        }
    }

    /// All loaded chains.
    pub fn get_loaded_chains(&self) -> (r: &Vec<RuleChain>)
        ensures
            r@ == self.chains@,
    {
        &self.chains
    }

    /// The version the next load will get.
    pub fn get_current_version(&self) -> (r: u64)
        ensures
            r == self.version_manager.current_version,
    {
        self.version_manager.get_current_version()
    }

    /// The chain an external message enters: it must be loaded and a root.
    pub fn entry_chain(&self, id: u128) -> (r: Result<&RuleChain, RuleError>)
        ensures
            !is_stored(self.chains@, id) ==> r == Err::<&RuleChain, RuleError>(RuleError::ChainNotFound(id)),
            is_stored(self.chains@, id) ==> match r {
                Ok(c) => c.id == id && c.root && exists|a: int| 0 <= a < self.chains@.len() && self.chains@[a] == *c,
                Err(e) => e is ConfigError && exists|a: int|
                    0 <= a < self.chains@.len() && self.chains@[a].id == id && !self.chains@[a].root,
            },
    {
        match self.find_chain(id) {
            None => Err(RuleError::ChainNotFound(id)),
            Some(a) => {
                if self.chains[a].root {
                    Ok(&self.chains[a])
                } else {
                    Err(RuleError::ConfigError("chain is not a root chain".to_string()))
                }
            },
        }
    }

    /// The sub-chain targets of `c`'s nodes.
    fn chain_targets(c: &RuleChain) -> (r: Vec<u128>)
        ensures
            forall|t: u128| #[trigger] r@.contains(t) <==> exists|x: int|
                0 <= x < c.nodes@.len() && subchain_target(#[trigger] c.nodes@[x]) == Some(t),
    {
        let mut out: Vec<u128> = Vec::new();
        let mut x: usize = 0;
        while x < c.nodes.len()
            invariant
                x <= c.nodes@.len(),
                forall|t: u128| #[trigger] out@.contains(t) <==> exists|y: int|
                    0 <= y < x && subchain_target(#[trigger] c.nodes@[y]) == Some(t),
            decreases c.nodes@.len() - x,
        {
            let ghost before = out@;
            match subchain_target_of(&c.nodes[x]) {
                Some(t) => {
                    out.push(t);
                    proof {
                        assert forall|u: u128| #[trigger] out@.contains(u) <==> exists|y: int|
                            0 <= y < x + 1 && subchain_target(#[trigger] c.nodes@[y]) == Some(u) by {
                            if out@.contains(u) {
                                let p = choose|p: int| 0 <= p < out@.len() && out@[p] == u;
                                if p < before.len() {
                                    assert(before.contains(u));
                                }
                            }
                            if exists|y: int| 0 <= y < x + 1 && subchain_target(#[trigger] c.nodes@[y]) == Some(u) {
                                let y = choose|y: int| 0 <= y < x + 1 && subchain_target(#[trigger] c.nodes@[y]) == Some(u);
                                if y < x {
                                    assert(before.contains(u));
                                    let p = choose|p: int| 0 <= p < before.len() && before[p] == u;
                                    assert(out@[p] == u);
                                } else {
                                    assert(out@[out@.len() - 1] == u);
                                }
                            }
                        }
                    }
                },
                None => {},
            }
            x = x + 1;
        }
        out
    }

    /// Looks for a chain cycle in the store with `c` put in it; returns the
    /// names of the chains along it.
    fn chain_cycle_with(&self, c: &RuleChain, pos: Option<usize>) -> (r: Option<String>)
        requires
            ids_unique(self.chains@),
            pos matches Some(p) ==> p < self.chains@.len() && self.chains@[p as int].id == c.id,
            pos is None <==> !is_stored(self.chains@, c.id),
        ensures
            r is Some == !chains_acyclic(stored(self.chains@, *c)),
            r matches Some(t) ==> names_chain_cycle(stored(self.chains@, *c), t@),
    {
        let ghost cs = stored(self.chains@, *c);
        proof {
            if let Some(p) = pos {
                let q = choose|a: int| 0 <= a < self.chains@.len() && #[trigger] self.chains@[a].id == c.id;
                assert(q == p as int);
                assert(cs == self.chains@.update(p as int, *c));
            }
        }
        let n = self.chains.len();
        let mut ids: Vec<u128> = Vec::new();
        let mut names: Vec<String> = Vec::new();
        let mut targets: Vec<Vec<u128>> = Vec::new();
        let mut a: usize = 0;
        while a < n
            invariant
                n == self.chains@.len(),
                a <= n,
                ids@.len() == a,
                names@.len() == a,
                targets@.len() == a,
                cs == stored(self.chains@, *c),
                pos matches Some(p) ==> cs == self.chains@.update(p as int, *c),
                pos is None ==> cs == self.chains@.push(*c),
                pos matches Some(p) ==> p < n,
                forall|b: int| 0 <= b < a ==> #[trigger] ids@[b] == cs[b].id,
                forall|b: int| 0 <= b < a ==> (#[trigger] names@[b])@ == cs[b].name@,
                forall|b: int, t: u128| 0 <= b < a ==> (#[trigger] targets@[b]@.contains(t) <==> exists|x: int|
                    0 <= x < cs[b].nodes@.len() && subchain_target(#[trigger] cs[b].nodes@[x]) == Some(t)),
            decreases n - a,
        {
            let use_new = match pos {
                Some(p) => p == a,
                None => false,
            };
            let src: &RuleChain = if use_new {
                c
            } else {
                &self.chains[a]
            };
            assert(*src == cs[a as int]);
            ids.push(src.id);
            names.push(src.name.clone());
            targets.push(Self::chain_targets(src));
            proof {
                assert forall|b: int, t: u128| 0 <= b < a + 1 implies (#[trigger] targets@[b]@.contains(t) <==> exists|x: int|
                    0 <= x < cs[b].nodes@.len() && subchain_target(#[trigger] cs[b].nodes@[x]) == Some(t)) by {}
            }
            a = a + 1;
        }
        if pos.is_none() {
            ids.push(c.id);
            names.push(c.name.clone());
            targets.push(Self::chain_targets(c));
            proof {
                assert(cs[n as int] == *c);
                assert forall|b: int, t: u128| 0 <= b < n + 1 implies (#[trigger] targets@[b]@.contains(t) <==> exists|x: int|
                    0 <= x < cs[b].nodes@.len() && subchain_target(#[trigger] cs[b].nodes@[x]) == Some(t)) by {}
            }
        }
        assert(ids@.len() == cs.len());
        let g = link_graph(&ids, &targets);
        proof {
            let e = |a: int, b: int| chain_edge(cs, a, b);
            assert forall|a: int, b: int| 0 <= a < g@.len() && 0 <= b < g@.len() implies (has_edge(g@, a, b) <==> #[trigger] e(a, b)) by {
                assert(ids@[b] == cs[b].id);
                assert(has_edge(g@, a, b) <==> targets@[a]@.contains(ids@[b]));
            }
            lemma_same_cycles(g@, e);
        }
        match find_cycle(&g) {
            Some(cycle) => {
                let mut text = "chain cycle: ".to_string();
                text.append(path_text(&names, &cycle).as_str());
                proof {
                    assert(is_chain_cycle(cs, cycle@));
                    assert(cycle@.map_values(|v: usize| names@[v as int]@) =~= cycle@.map_values(|v: usize| cs[v as int].name@));
                    assert(text@ == chain_cycle_text(cs, cycle@));
                }
                Some(text)
            },
            None => None,
        }
    }

    /// Checks that `chain` closes no cycle: none among its own nodes through
    /// connections, and none among the loaded chains through sub-chain
    /// nodes once `chain` is put in the store. A sub-chain node that invokes
    /// a chain not loaded yet takes no part. The error names the nodes or
    /// chains along a cycle, in traversal order.
    pub fn check_circular_dependency(&self, chain: &RuleChain) -> (r: Result<(), RuleError>)
        requires
            ids_unique(self.chains@),
        ensures
            r is Ok <==> nodes_acyclic(*chain) && chains_acyclic(stored(self.chains@, *chain)),
            r matches Err(e) ==> e is CircularDependency,
            r matches Err(RuleError::CircularDependency(m)) ==> names_node_cycle(*chain, m@) || names_chain_cycle(
                stored(self.chains@, *chain),
                m@,
            ),
    {
        let g = chain.node_graph();
        proof {
            lemma_same_cycles(g@, |i: int, j: int| node_edge(*chain, i, j));
        }
        match find_cycle(&g) {
            Some(cycle) => {
                let labels = chain.node_labels();
                let mut text = "node cycle: ".to_string();
                text.append(path_text(&labels, &cycle).as_str());
                proof {
                    assert(is_node_cycle(*chain, cycle@));
                    assert(cycle@.map_values(|v: usize| labels@[v as int]@) =~= cycle@.map_values(
                        |v: usize| uuid_text(chain.nodes@[v as int].id),
                    ));
                    assert(text@ == node_cycle_text(*chain, cycle@));
                }
                return Err(RuleError::CircularDependency(text));
            },
            None => {},
        }
        let pos = self.find_chain(chain.id);
        match self.chain_cycle_with(chain, pos) {
            Some(text) => Err(RuleError::CircularDependency(text)),
            None => Ok(()),
        }
    }

    /// Validates `chain` against the registered node types, checks that it
    /// closes no cycle, and stores it under its id (replacing a chain loaded
    /// before with that id) with the next version. Returns the chain's id.
    ///
    /// Structural defects are configuration errors. A cycle among the
    /// chain's nodes, or a cycle among the loaded chains through sub-chain
    /// nodes once this one is in place, is a circular dependency; sub-chain
    /// nodes that invoke chains not loaded yet take no part. On any error
    /// the store is left as it was.
    pub fn load_chain(&mut self, chain: RuleChain) -> (r: Result<u128, RuleError>)
        requires
            old(self).wf(),
            old(self).version_manager.current_version < u64::MAX,
        ensures
            final(self).wf(),
            final(self).registry == old(self).registry,
            final(self).counters == old(self).counters,
            r is Ok <==> chain_valid(chain, old(self).registry) && nodes_acyclic(chain) && chains_acyclic(
                stored(old(self).chains@, chain),
            ),
            !chain_valid(chain, old(self).registry) ==> r matches Err(RuleError::ConfigError(_)),
            chain_valid(chain, old(self).registry) && !nodes_acyclic(chain) ==> r matches Err(
                RuleError::CircularDependency(_),
            ),
            chain_valid(chain, old(self).registry) && !chains_acyclic(stored(old(self).chains@, chain)) ==> r matches Err(
                RuleError::CircularDependency(_),
            ),
            r matches Err(RuleError::CircularDependency(m)) ==> names_node_cycle(chain, m@) || names_chain_cycle(
                stored(old(self).chains@, chain),
                m@,
            ),
            r is Err ==> final(self).chains@ == old(self).chains@ && final(self).version_manager.current_version == old(
                self,
            ).version_manager.current_version,
            r matches Ok(id) ==> {
                &&& id == chain.id
                &&& final(self).version_manager.current_version == old(self).version_manager.current_version + 1
                &&& exists|t: i64|
                    final(self).chains@ == stored(
                        old(self).chains@,
                        with_version(chain, old(self).version_manager.current_version, t),
                    )
            },
    {
        chain.validate(&self.registry)?;
        self.check_circular_dependency(&chain)?;
        let pos = self.find_chain(chain.id);
        let version = self.version_manager.create_version(&chain);
        let mut chain = chain;
        let ghost before = chain;
        chain.metadata.version = version.version;
        chain.metadata.updated_at = version.timestamp;
        let ghost placed = chain;
        assert(placed == with_version(before, version.version, version.timestamp));
        let id = chain.id;
        let ghost old_chains = self.chains@;
        match pos {
            Some(p) => {
                self.chains.set(p, chain);
            },
            None => {
                self.chains.push(chain);
            },
        }
        proof {
            let cs = stored(old_chains, before);
            let fs = stored(old_chains, placed);
            if let Some(p) = pos {
                let q = choose|a: int| 0 <= a < old_chains.len() && #[trigger] old_chains[a].id == placed.id;
                assert(q == p as int);
                assert(self.chains@ == fs);
                assert(cs == old_chains.update(p as int, before));
            } else {
                assert(self.chains@ == fs);
            }
            assert(fs.len() == cs.len());
            assert forall|a: int| 0 <= a < fs.len() implies (#[trigger] fs[a]).nodes == cs[a].nodes && fs[a].id == cs[a].id by {}
            // The new store has the same sub-chain edges as the checked one.
            let e1 = |a: int, b: int| chain_edge(fs, a, b);
            let e2 = |a: int, b: int| chain_edge(cs, a, b);
            assert forall|a: int, b: int| #[trigger] e1(a, b) == e2(a, b) by {
                if 0 <= a < fs.len() && 0 <= b < fs.len() {
                    assert(fs[a].nodes == cs[a].nodes);
                }
            }
            assert(e1 =~= e2);
            assert(ids_unique(fs)) by {
                assert forall|a: int, b: int| 0 <= a < b < fs.len() implies (#[trigger] fs[a]).id != (#[trigger] fs[b]).id by {
                    assert(fs[a].id == cs[a].id && fs[b].id == cs[b].id);
                    if pos is None {
                        if b == old_chains.len() {
                            assert(old_chains[a].id != before.id);
                        }
                    }
                }
            }
            let n1 = |i: int, j: int| node_edge(placed, i, j);
            let n2 = |i: int, j: int| node_edge(before, i, j);
            assert(placed.nodes == before.nodes && placed.connections == before.connections);
            assert forall|i: int, j: int| #[trigger] n1(i, j) == n2(i, j) by {}
            assert(n1 =~= n2);
            assert forall|a: int| 0 <= a < self.chains@.len() implies nodes_acyclic(#[trigger] self.chains@[a]) by {
                if self.chains@[a] != placed {
                    assert(exists|b: int| 0 <= b < old_chains.len() && old_chains[b] == self.chains@[a]) by {
                        if let Some(p) = pos {
                            assert(a != p);
                            assert(self.chains@[a] == old_chains[a]);
                        } else {
                            assert(a < old_chains.len());
                            assert(self.chains@[a] == old_chains[a]);
                        }
                    }
                }
            }
        }
        Ok(id)
    }

    /// Whether `id` may be removed: it must be loaded and no loaded chain
    /// may invoke it through a sub-chain node.
    pub fn check_removable(&self, id: u128) -> (r: Result<(), RuleError>)
        ensures
            !is_stored(self.chains@, id) ==> r == Err::<(), RuleError>(RuleError::ChainNotFound(id)),
            is_stored(self.chains@, id) && referenced(self.chains@, id) ==> r matches Err(RuleError::ConfigError(_)),
            r is Ok <==> is_stored(self.chains@, id) && !referenced(self.chains@, id),
    {
        if self.find_chain(id).is_none() {
            return Err(RuleError::ChainNotFound(id));
        }
        let mut a: usize = 0;
        while a < self.chains.len()
            invariant
                a <= self.chains@.len(),
                is_stored(self.chains@, id),
                forall|b: int, x: int|
                    0 <= b < a && 0 <= x < self.chains@[b].nodes@.len() ==> subchain_target(#[trigger] self.chains@[b].nodes@[x])
                        != Some(id),
            decreases self.chains@.len() - a,
        {
            let c = &self.chains[a];
            let mut x: usize = 0;
            while x < c.nodes.len()
                invariant
                    a < self.chains@.len(),
                    is_stored(self.chains@, id),
                    *c == self.chains@[a as int],
                    x <= c.nodes@.len(),
                    forall|b: int, y: int|
                        0 <= b < a && 0 <= y < self.chains@[b].nodes@.len() ==> subchain_target(#[trigger] self.chains@[b].nodes@[y])
                            != Some(id),
                    forall|y: int| 0 <= y < x ==> subchain_target(#[trigger] c.nodes@[y]) != Some(id),
                decreases c.nodes@.len() - x,
            {
                if subchain_target_of(&c.nodes[x]) == Some(id) {
                    return Err(RuleError::ConfigError("chain is invoked by a sub-chain node".to_string()));
                }
                x = x + 1;
            }
            a = a + 1;
        }
        Ok(())
    }

    /// Number of running executions of `id`.
    pub fn get_execution_count(&self, id: u128) -> (r: usize)
        ensures
            r == self.execution_count(id),
    {
        match self.find_counter(id) {
            Some(i) => self.counters[i].1,
            None => 0,
        }
    }

    fn find_counter(&self, id: u128) -> (r: Option<usize>)
        ensures
            r matches Some(i) ==> i < self.counters@.len() && self.counters@[i as int].0 == id && count_of(self.counters@, id)
                == self.counters@[i as int].1 && forall|j: int| 0 <= j < i ==> (#[trigger] self.counters@[j]).0 != id,
            r is None ==> count_of(self.counters@, id) == 0 && forall|j: int|
                0 <= j < self.counters@.len() ==> (#[trigger] self.counters@[j]).0 != id,
    {
        let n = self.counters.len();
        let mut i: usize = 0;
        assert(self.counters@.subrange(0, n as int) =~= self.counters@);
        while i < n
            invariant
                n == self.counters@.len(),
                i <= n,
                count_of(self.counters@, id) == count_of(self.counters@.subrange(i as int, n as int), id),
                forall|j: int| 0 <= j < i ==> (#[trigger] self.counters@[j]).0 != id,
            decreases n - i,
        {
            let ghost sub = self.counters@.subrange(i as int, n as int);
            assert(sub.drop_first() =~= self.counters@.subrange(i + 1, n as int));
            assert(sub[0] == self.counters@[i as int]);
            if self.counters[i].0 == id {
                return Some(i);
            }
            i = i + 1;
        }
        None
    }

    fn set_count(&mut self, id: u128, count: usize)
        ensures
            final(self).execution_count(id) == count,
            forall|q: u128| q != id ==> #[trigger] final(self).execution_count(q) == old(self).execution_count(q),
            final(self).chains == old(self).chains,
            final(self).registry == old(self).registry,
            final(self).version_manager == old(self).version_manager,
    {
        match self.find_counter(id) {
            Some(i) => {
                proof {
                    assert forall|q: u128| true implies #[trigger] count_of(self.counters@.update(i as int, (id, count)), q) == if q
                        == id {
                        count
                    } else {
                        count_of(self.counters@, q)
                    } by {
                        lemma_count_update(self.counters@, i as int, (id, count), q);
                    }
                }
                self.counters.set(i, (id, count));
            },
            None => {
                proof {
                    assert forall|q: u128| true implies #[trigger] count_of(self.counters@.push((id, count)), q) == if q == id {
                        count
                    } else {
                        count_of(self.counters@, q)
                    } by {
                        lemma_count_push(self.counters@, (id, count), q);
                    }
                }
                self.counters.push((id, count));
            },
        }
    }

    /// Records that an execution of `id` starts.
    pub fn increment_counter(&mut self, id: u128)
        requires
            old(self).execution_count(id) < usize::MAX,
        ensures
            final(self).execution_count(id) == old(self).execution_count(id) + 1,
            forall|q: u128| q != id ==> #[trigger] final(self).execution_count(q) == old(self).execution_count(q),
            final(self).chains == old(self).chains,
            final(self).registry == old(self).registry,
            final(self).version_manager == old(self).version_manager,
    {
        let c = self.get_execution_count(id);
        self.set_count(id, c + 1);
    }

    /// Records that an execution of `id` ended; the count never drops below zero.
    pub fn decrement_counter(&mut self, id: u128)
        ensures
            final(self).execution_count(id) == if old(self).execution_count(id) > 0 {
                (old(self).execution_count(id) - 1) as usize
            } else {
                0
            },
            forall|q: u128| q != id ==> #[trigger] final(self).execution_count(q) == old(self).execution_count(q),
            final(self).chains == old(self).chains,
            final(self).registry == old(self).registry,
            final(self).version_manager == old(self).version_manager,
    {
        let c = self.get_execution_count(id);
        let next = if c > 0 {
            c - 1
        } else {
            0
        };
        self.set_count(id, next);
    }

    /// What removal of `id` does after waiting `waited_ms` milliseconds: it
    /// removes once no execution runs, waits while some run and the timeout
    /// has not passed, and gives up after it.
    pub fn removal_step(&self, id: u128, waited_ms: u64) -> (r: RemovalStep)
        ensures
            r == removal_decision(self.execution_count(id), waited_ms),
    {
        if self.get_execution_count(id) == 0 {
            RemovalStep::Remove
        } else if waited_ms < REMOVE_TIMEOUT_MS {
            RemovalStep::Wait
        } else {
            RemovalStep::TimedOut
        }
    }

    /// Removes chain `id` when it is loaded, invoked by no sub-chain node and
    /// not running; its execution counter is cleared. Otherwise nothing
    /// changes and the error says why.
    pub fn remove_chain(&mut self, id: u128) -> (r: Result<(), RuleError>)
        requires
            old(self).wf(),
        ensures
            final(self).wf(),
            !is_stored(old(self).chains@, id) ==> r == Err::<(), RuleError>(RuleError::ChainNotFound(id)),
            is_stored(old(self).chains@, id) && referenced(old(self).chains@, id) ==> r matches Err(RuleError::ConfigError(_)),
            is_stored(old(self).chains@, id) && old(self).execution_count(id) > 0 ==> r matches Err(RuleError::ConfigError(_)),
            r is Ok <==> is_stored(old(self).chains@, id) && !referenced(old(self).chains@, id) && old(self).execution_count(id)
                == 0,
            r is Err ==> final(self).chains@ == old(self).chains@ && forall|q: u128| #[trigger] final(self).execution_count(q)
                == old(self).execution_count(q),
            r is Ok ==> !is_stored(final(self).chains@, id) && final(self).execution_count(id) == 0
                && final(self).chains@ == old(self).chains@.filter(|c: RuleChain| c.id != id),
    {
        self.check_removable(id)?;
        if self.get_execution_count(id) > 0 {
            return Err(RuleError::ConfigError("chain is still running".to_string()));
        }
        let p = match self.find_chain(id) {
            Some(p) => p,
            None => {
                return Err(RuleError::ChainNotFound(id));
            },
        };
        let ghost old_chains = self.chains@;
        let len0 = self.chains.len();
        assert(old_chains.len() == len0);
        self.chains.remove(p);
        proof {
            assert(self.chains@ =~= old_chains.remove(p as int));
            assert forall|a: int| 0 <= a < old_chains.len() && a != p implies (#[trigger] old_chains[a]).id != id by {
                if a < p {
                    assert(old_chains[a].id != old_chains[p as int].id);
                } else {
                    assert(old_chains[p as int].id != old_chains[a].id);
                }
            }
            lemma_filter_remove_unique(old_chains, p as int, id);
            lemma_remove_keeps_acyclic(old_chains, p as int, id);
            assert forall|a: int| 0 <= a < self.chains@.len() implies nodes_acyclic(#[trigger] self.chains@[a]) by {
                if a < p {
                    assert(self.chains@[a] == old_chains[a]);
                } else {
                    assert(self.chains@[a] == old_chains[a + 1]);
                }
            }
        }
        self.set_count(id, 0);
        Ok(())
    }
}

/// Chains with distinct ids and no cycle among them load one after the
/// other: when the first `k` are in the store, putting the next one in
/// closes no cycle.
pub proof fn lemma_acyclic_set_loads_in_order(s: Seq<RuleChain>, k: int)
    requires
        ids_unique(s),
        chains_acyclic(s),
        0 <= k < s.len(),
    ensures
        stored(s.subrange(0, k), s[k]) == s.subrange(0, k + 1),
        chains_acyclic(stored(s.subrange(0, k), s[k])),
{
    let pre = s.subrange(0, k);
    let t = s.subrange(0, k + 1);
    assert(!is_stored(pre, s[k].id)) by {
        if is_stored(pre, s[k].id) {
            let a = choose|a: int| 0 <= a < pre.len() && #[trigger] pre[a].id == s[k].id;
            assert(s[a].id != s[k].id);
        }
    }
    assert(pre.push(s[k]) =~= t);
    let et = |a: int, b: int| chain_edge(t, a, b);
    let es = |a: int, b: int| chain_edge(s, a, b);
    assert forall|c: Seq<usize>| !(#[trigger] cycle_via(et, t.len() as int, c)) by {
        if cycle_via(et, t.len() as int, c) {
            assert forall|i: int| 0 <= i < c.len() - 1 implies es(#[trigger] c[i] as int, c[i + 1] as int) by {
                let a = c[i] as int;
                let b = c[i + 1] as int;
                assert(et(a, b));
                let x = choose|x: int| 0 <= x < t[a].nodes@.len() && subchain_target(#[trigger] t[a].nodes@[x]) == Some(t[b].id);
                assert(t[a] == s[a] && t[b] == s[b]);
                assert(subchain_target(s[a].nodes@[x]) == Some(s[b].id));
            }
            assert(cycle_via(es, s.len() as int, c));
        }
    }
}

/// The sub-chain targets of `c` are all chains that are not loaded yet.
pub open spec fn only_forward_references(s: Seq<RuleChain>, c: RuleChain) -> bool {
    forall|x: int|
        0 <= x < c.nodes@.len() ==> match subchain_target(#[trigger] c.nodes@[x]) {
            Some(t) => !is_stored(s, t) && t != c.id,
            None => true,
        }
}

/// A new chain whose sub-chain nodes invoke only chains that are not loaded
/// yet closes no cycle: such forward references are skipped, and a cycle
/// they close is found when the missing chain is loaded.
pub proof fn lemma_forward_references_close_no_cycle(s: Seq<RuleChain>, c: RuleChain)
    requires
        chains_acyclic(s),
        !is_stored(s, c.id),
        only_forward_references(s, c),
    ensures
        chains_acyclic(stored(s, c)),
{
    let t = s.push(c);
    let n = s.len() as int;
    assert(stored(s, c) == t);
    assert forall|b: int| !chain_edge(t, n, b) by {
        if chain_edge(t, n, b) {
            let x = choose|x: int| 0 <= x < t[n].nodes@.len() && subchain_target(#[trigger] t[n].nodes@[x]) == Some(t[b].id);
            assert(t[n] == c);
            assert(c.nodes@[x] == t[n].nodes@[x]);
            if b < n {
                assert(t[b] == s[b]);
                assert(is_stored(s, s[b].id));
            }
        }
    }
    let et = |a: int, b: int| chain_edge(t, a, b);
    let es = |a: int, b: int| chain_edge(s, a, b);
    assert forall|cy: Seq<usize>| !(#[trigger] cycle_via(et, t.len() as int, cy)) by {
        if cycle_via(et, t.len() as int, cy) {
            assert forall|i: int| 0 <= i < cy.len() implies #[trigger] cy[i] < s.len() by {
                if i < cy.len() - 1 {
                    assert(et(cy[i] as int, cy[i + 1] as int));
                } else {
                    assert(et(cy[0] as int, cy[1] as int));
                }
            }
            assert forall|i: int| 0 <= i < cy.len() - 1 implies es(#[trigger] cy[i] as int, cy[i + 1] as int) by {
                let a = cy[i] as int;
                let b = cy[i + 1] as int;
                assert(et(a, b));
                let x = choose|x: int| 0 <= x < t[a].nodes@.len() && subchain_target(#[trigger] t[a].nodes@[x]) == Some(t[b].id);
                assert(t[a] == s[a] && t[b] == s[b]);
                assert(subchain_target(s[a].nodes@[x]) == Some(s[b].id));
            }
            assert(cycle_via(es, s.len() as int, cy));
        }
    }
}

proof fn lemma_filter_remove_unique(s: Seq<RuleChain>, p: int, id: u128)
    requires
        0 <= p < s.len(),
        s[p].id == id,
        forall|a: int| 0 <= a < s.len() && a != p ==> (#[trigger] s[a]).id != id,
    ensures
        s.filter(|c: RuleChain| c.id != id) == s.remove(p),
    decreases s.len(),
{
    reveal(Seq::filter);
    let f = |c: RuleChain| c.id != id;
    if p == s.len() - 1 {
        assert(s.drop_last().filter(f) == s.drop_last()) by {
            lemma_filter_all(s.drop_last(), id);
        }
        assert(s.remove(p) =~= s.drop_last());
    } else {
        assert forall|a: int| 0 <= a < s.drop_last().len() && a != p implies (#[trigger] s.drop_last()[a]).id != id by {}
        lemma_filter_remove_unique(s.drop_last(), p, id);
        assert(s.remove(p) =~= s.drop_last().remove(p).push(s.last()));
    }
}

proof fn lemma_filter_all(s: Seq<RuleChain>, id: u128)
    requires
        forall|a: int| 0 <= a < s.len() ==> (#[trigger] s[a]).id != id,
    ensures
        s.filter(|c: RuleChain| c.id != id) == s,
    decreases s.len(),
{
    reveal(Seq::filter);
    if s.len() > 0 {
        lemma_filter_all(s.drop_last(), id);
        assert(s.drop_last().push(s.last()) =~= s);
    } else {
        assert(s =~= Seq::<RuleChain>::empty());
    }
}

/// Taking a chain that nothing invokes out of an acyclic store leaves it
/// acyclic, and its ids distinct.
#[verifier::rlimit(50)]
proof fn lemma_remove_keeps_acyclic(s: Seq<RuleChain>, p: int, id: u128)
    requires
        0 <= p < s.len(),
        s.len() <= usize::MAX,
        s[p].id == id,
        ids_unique(s),
        chains_acyclic(s),
    ensures
        chains_acyclic(s.remove(p)),
        ids_unique(s.remove(p)),
{
    let t = s.remove(p);
    let m = |a: int| if a < p { a } else { a + 1 };
    assert forall|a: int| 0 <= a < t.len() implies #[trigger] t[a] == s[m(a)] by {}
    let et = |a: int, b: int| chain_edge(t, a, b);
    let es = |a: int, b: int| chain_edge(s, a, b);
    assert forall|c: Seq<usize>| !(#[trigger] cycle_via(et, t.len() as int, c)) by {
        if cycle_via(et, t.len() as int, c) {
            let d = c.map_values(|v: usize| m(v as int) as usize);
            assert forall|i: int| 0 <= i < c.len() implies #[trigger] d[i] as int == m(c[i] as int) by {
                assert(c[i] < t.len());
            }
            assert forall|i: int| 0 <= i < d.len() - 1 implies chain_edge(s, #[trigger] d[i] as int, d[i + 1] as int) by {
                let a = c[i] as int;
                let b = c[i + 1] as int;
                assert(et(a, b));
                assert(chain_edge(t, a, b));
                let x = choose|x: int| 0 <= x < t[a].nodes@.len() && subchain_target(#[trigger] t[a].nodes@[x]) == Some(t[b].id);
                assert(t[a] == s[m(a)]);
                assert(t[b] == s[m(b)]);
                assert(d[i] as int == m(a));
                assert(d[i + 1] as int == m(b));
                assert(subchain_target(s[m(a)].nodes@[x]) == Some(s[m(b)].id));
                assert(chain_edge(s, m(a), m(b)));
            }
            assert forall|i: int| 0 <= i < d.len() implies #[trigger] d[i] < s.len() by {}
            assert(cycle_via(es, s.len() as int, d));
        }
    }
    assert forall|a: int, b: int| 0 <= a < b < t.len() implies (#[trigger] t[a]).id != (#[trigger] t[b]).id by {
        assert(t[a] == s[m(a)] && t[b] == s[m(b)]);
    }
}

} // verus!
