//! Navigation and validation of a single chain.
use vstd::prelude::*;
use crate::graph::{has_edge, graph_wf, link_graph};
use crate::json::{JsonValue, str_eq};
use crate::registry::NodeRegistry;
use crate::template::{uuid_text, uuid_to_string};
use crate::types::{Connection, ExecutionContext, Node, NodeType, RuleChain, RuleError};

verus! {

/// The value of a UUID written as text, in any of the forms the uuid crate
/// accepts; `None` when the text is not a UUID.
pub uninterp spec fn parse_uuid(text: Seq<char>) -> Option<u128>;

/// Relies on uuid::Uuid::parse_str: whether the text is a UUID, and which.
#[verifier::external_body]
fn uuid_from_str(text: &str) -> (r: Option<u128>)
    ensures
        r == parse_uuid(text@),
{
    uuid::Uuid::parse_str(text).ok().map(|u| u.as_u128())
}

/// The metadata key through which a node chooses its outgoing branch.
pub open spec fn branch_key() -> Seq<char> {
    "branch_name"@
}

/// The chain a sub-chain node invokes: the UUID in the `chain_id` member of
/// its configuration. Other nodes invoke none.
pub open spec fn subchain_target(n: Node) -> Option<u128> {
    if n.kind@ == "subchain"@ {
        match n.config.get_spec("chain_id"@) {
            Some(JsonValue::Str(s)) => parse_uuid(s@),
            _ => None,
        }
    } else {
        None
    }
}

/// The chain that `node` invokes, if it is a sub-chain node.
pub fn subchain_target_of(node: &Node) -> (r: Option<u128>)
    ensures
        r == subchain_target(*node),
{
    if !str_eq(node.kind.as_str(), "subchain") {
        return None;
    }
    match node.config.get("chain_id") {
        Some(JsonValue::Str(s)) => uuid_from_str(s.as_str()),
        _ => None,
    }
}

/// First connection leaving `from`.
pub open spec fn first_outgoing(conns: Seq<Connection>, from: u128) -> Option<Connection>
    decreases conns.len(),
{
    if conns.len() == 0 {
        None
    } else if conns[0].from_id == from {
        Some(conns[0])
    } else {
        first_outgoing(conns.drop_first(), from)
    }
}

/// First connection leaving `from` with branch label `label`.
pub open spec fn first_labeled(conns: Seq<Connection>, from: u128, label: Seq<char>) -> Option<Connection>
    decreases conns.len(),
{
    if conns.len() == 0 {
        None
    } else if conns[0].from_id == from && conns[0].label@ == label {
        Some(conns[0])
    } else {
        first_labeled(conns.drop_first(), from, label)
    }
}

/// The edge a message leaves `from` by: the first one labelled with its
/// branch name when there is such, else the first one.
pub open spec fn selected_edge(conns: Seq<Connection>, from: u128, branch: Option<Seq<char>>) -> Option<Connection> {
    match branch {
        Some(b) => match first_labeled(conns, from, b) {
            Some(c) => Some(c),
            None => first_outgoing(conns, from),
        },
        None => first_outgoing(conns, from),
    }
}

proof fn lemma_first_labeled_at(conns: Seq<Connection>, from: u128, label: Seq<char>, k: int)
    requires
        0 <= k < conns.len(),
        conns[k].from_id == from,
        conns[k].label@ == label,
        forall|j: int| 0 <= j < k ==> !((#[trigger] conns[j]).from_id == from && conns[j].label@ == label),
    ensures
        first_labeled(conns, from, label) == Some(conns[k]),
    decreases k,
{
    if k > 0 {
        assert forall|j: int| 0 <= j < k - 1 implies !((#[trigger] conns.drop_first()[j]).from_id == from
            && conns.drop_first()[j].label@ == label) by {
            assert(conns.drop_first()[j] == conns[j + 1]);
        }
        lemma_first_labeled_at(conns.drop_first(), from, label, k - 1);
    }
}

/// A message whose branch name is `label` leaves node `from` by the first
/// connection from it with that label, whatever other labels there are.
pub proof fn lemma_branch_name_picks_its_edge(conns: Seq<Connection>, from: u128, label: Seq<char>, k: int)
    requires
        0 <= k < conns.len(),
        conns[k].from_id == from,
        conns[k].label@ == label,
        forall|j: int| 0 <= j < k ==> !((#[trigger] conns[j]).from_id == from && conns[j].label@ == label),
    ensures
        selected_edge(conns, from, Some(label)) == Some(conns[k]),
{
    lemma_first_labeled_at(conns, from, label, k);
}

/// First node with id `id`.
pub open spec fn node_by_id(nodes: Seq<Node>, id: u128) -> Option<Node>
    decreases nodes.len(),
{
    if nodes.len() == 0 {
        None
    } else if nodes[0].id == id {
        Some(nodes[0])
    } else {
        node_by_id(nodes.drop_first(), id)
    }
}

pub open spec fn has_incoming(c: RuleChain, id: u128) -> bool {
    exists|k: int| 0 <= k < c.connections@.len() && #[trigger] c.connections@[k].to_id == id
}

pub open spec fn has_outgoing(c: RuleChain, id: u128) -> bool {
    exists|k: int| 0 <= k < c.connections@.len() && #[trigger] c.connections@[k].from_id == id
}

pub open spec fn has_node(c: RuleChain, id: u128) -> bool {
    exists|i: int| 0 <= i < c.nodes@.len() && #[trigger] c.nodes@[i].id == id
}

/// The chain is well formed against the roles of `reg`: it has a start
/// node of role Head; every node type has a known
/// role; every connection joins nodes of the chain; Head nodes have no
/// incoming and Tail nodes no outgoing connections.
pub open spec fn chain_valid(c: RuleChain, reg: NodeRegistry) -> bool {
    &&& c.nodes@.len() > 0
    &&& reg.role_spec(c.nodes@[0].kind@) == Some(NodeType::Head)
    &&& forall|i: int| 0 <= i < c.nodes@.len() ==> (#[trigger] reg.role_spec(c.nodes@[i].kind@)) is Some
    &&& forall|k: int| 0 <= k < c.connections@.len() ==> has_node(c, (#[trigger] c.connections@[k]).from_id) && has_node(c, c.connections@[k].to_id)
    &&& forall|i: int|
        0 <= i < c.nodes@.len() && #[trigger] reg.role_spec(c.nodes@[i].kind@) == Some(NodeType::Head) ==> !has_incoming(c, c.nodes@[i].id)
    &&& forall|i: int|
        0 <= i < c.nodes@.len() && #[trigger] reg.role_spec(c.nodes@[i].kind@) == Some(NodeType::Tail) ==> !has_outgoing(c, c.nodes@[i].id)
}

/// A connection of `c` leads from its node `i` to its node `j`.
pub open spec fn node_edge(c: RuleChain, i: int, j: int) -> bool {
    &&& 0 <= i < c.nodes@.len()
    &&& 0 <= j < c.nodes@.len()
    &&& exists|k: int|
        0 <= k < c.connections@.len() && (#[trigger] c.connections@[k]).from_id == c.nodes@[i].id && c.connections@[k].to_id
            == c.nodes@[j].id
}

/// The role a node's type name implies when no registry is at hand.
pub open spec fn kind_role(kind: Seq<char>) -> NodeType {
    if kind == "log"@ {
        NodeType::Tail
    } else if kind == "delay"@ || kind == "schedule"@ || kind == "start"@ {
        NodeType::Head
    } else {
        NodeType::Middle
    }
}

impl Node {
    /// The role this node's type name implies: `log` is a Tail node,
    /// `delay`, `schedule` and `start` are Head nodes, anything else Middle.
    pub fn get_node_type(&self) -> (r: Result<NodeType, RuleError>)
        ensures
            r == Ok::<NodeType, RuleError>(kind_role(self.kind@)),
    {
        let k = self.kind.as_str();
        if str_eq(k, "log") {
            Ok(NodeType::Tail)
        } else if str_eq(k, "delay") || str_eq(k, "schedule") || str_eq(k, "start") {
            Ok(NodeType::Head)
        } else {
            Ok(NodeType::Middle)
        }
    }
}

impl RuleChain {
    /// The node execution starts from: the first one.
    pub fn get_start_node(&self) -> (r: Result<Option<&Node>, RuleError>)
        ensures
            self.nodes@.len() > 0 ==> (r matches Ok(Some(n)) && *n == self.nodes@[0]),
            self.nodes@.len() == 0 ==> r matches Err(RuleError::ConfigError(_)),
    {
        if self.nodes.len() == 0 {
            Err(RuleError::ConfigError("Empty rule chain".to_string()))
        } else {
            Ok(Some(&self.nodes[0]))
        }
    }

    /// Index of the first node with id `id`.
    pub fn find_node(&self, id: u128) -> (r: Option<usize>)
        ensures
            r matches Some(i) ==> i < self.nodes@.len() && node_by_id(self.nodes@, id) == Some(self.nodes@[i as int]),
            r is None ==> node_by_id(self.nodes@, id) is None,
            r is None <==> !has_node(*self, id),
    {
        let n = self.nodes.len();
        let mut i: usize = 0;
        assert(self.nodes@.subrange(0, n as int) =~= self.nodes@);
        while i < n
            invariant
                n == self.nodes@.len(),
                i <= n,
                node_by_id(self.nodes@, id) == node_by_id(self.nodes@.subrange(i as int, n as int), id),
                forall|k: int| 0 <= k < i ==> (#[trigger] self.nodes@[k]).id != id,
            decreases n - i,
        {
            let ghost sub = self.nodes@.subrange(i as int, n as int);
            assert(sub.drop_first() =~= self.nodes@.subrange(i + 1, n as int));
            assert(sub[0] == self.nodes@[i as int]);
            if self.nodes[i].id == id {
                return Some(i);
            }
            i = i + 1;
        }
        assert(self.nodes@.subrange(n as int, n as int).len() == 0);
        None
    }

    /// The node a message leaving `current_id` goes to. The branch name in
    /// the message's metadata picks the first connection with that label;
    /// without one, or when no label matches, the first outgoing connection
    /// is taken. `None` when no connection leaves the node; an error when
    /// the connection leads to no node of the chain.
    pub fn get_next_node(&self, current_id: u128, ctx: &ExecutionContext) -> (r: Result<Option<&Node>, RuleError>)
        ensures
            match selected_edge(self.connections@, current_id, ctx.msg.metadata.get_spec(branch_key())) {
                None => r matches Ok(None),
                Some(c) => match node_by_id(self.nodes@, c.to_id) {
                    Some(nd) => (r matches Ok(Some(n)) && *n == nd),
                    None => r matches Err(RuleError::ConfigError(_)),
                },
            },
    {
        let branch = ctx.msg.metadata.get("branch_name");
        let mut chosen: Option<usize> = None;
        match &branch {
            Some(b) => {
                chosen = self.first_labeled_index(current_id, b.as_str());
            },
            None => {},
        }
        if chosen.is_none() {
            chosen = self.first_outgoing_index(current_id);
        }
        match chosen {
            None => Ok(None),
            Some(k) => match self.find_node(self.connections[k].to_id) {
                Some(i) => Ok(Some(&self.nodes[i])),
                None => Err(RuleError::ConfigError("Invalid connection".to_string())),
            },
        }
    }

    fn first_outgoing_index(&self, from: u128) -> (r: Option<usize>)
        ensures
            r matches Some(k) ==> k < self.connections@.len() && first_outgoing(self.connections@, from) == Some(
                self.connections@[k as int],
            ),
            r is None ==> first_outgoing(self.connections@, from) is None,
    {
        let n = self.connections.len();
        let mut i: usize = 0;
        assert(self.connections@.subrange(0, n as int) =~= self.connections@);
        while i < n
            invariant
                n == self.connections@.len(),
                i <= n,
                first_outgoing(self.connections@, from) == first_outgoing(self.connections@.subrange(i as int, n as int), from),
            decreases n - i,
        {
            let ghost sub = self.connections@.subrange(i as int, n as int);
            assert(sub.drop_first() =~= self.connections@.subrange(i + 1, n as int));
            assert(sub[0] == self.connections@[i as int]);
            if self.connections[i].from_id == from {
                return Some(i);
            }
            i = i + 1;
        }
        assert(self.connections@.subrange(n as int, n as int).len() == 0);
        None
    }

    fn first_labeled_index(&self, from: u128, label: &str) -> (r: Option<usize>)
        ensures
            r matches Some(k) ==> k < self.connections@.len() && first_labeled(self.connections@, from, label@) == Some(
                self.connections@[k as int],
            ),
            r is None ==> first_labeled(self.connections@, from, label@) is None,
    {
        let n = self.connections.len();
        let mut i: usize = 0;
        assert(self.connections@.subrange(0, n as int) =~= self.connections@);
        while i < n
            invariant
                n == self.connections@.len(),
                i <= n,
                first_labeled(self.connections@, from, label@) == first_labeled(
                    self.connections@.subrange(i as int, n as int),
                    from,
                    label@,
                ),
            decreases n - i,
        {
            let ghost sub = self.connections@.subrange(i as int, n as int);
            assert(sub.drop_first() =~= self.connections@.subrange(i + 1, n as int));
            assert(sub[0] == self.connections@[i as int]);
            if self.connections[i].from_id == from && str_eq(self.connections[i].label.as_str(), label) {
                return Some(i);
            }
            i = i + 1;
        }
        assert(self.connections@.subrange(n as int, n as int).len() == 0);
        None
    }

    /// The ids of the nodes as text, in order.
    pub fn node_labels(&self) -> (r: Vec<String>)
        ensures
            r@.len() == self.nodes@.len(),
            forall|i: int| 0 <= i < r@.len() ==> (#[trigger] r@[i])@ == uuid_text(self.nodes@[i].id),
    {
        let mut out: Vec<String> = Vec::new();
        let mut i: usize = 0;
        while i < self.nodes.len()
            invariant
                i <= self.nodes@.len(),
                out@.len() == i,
                forall|k: int| 0 <= k < i ==> (#[trigger] out@[k])@ == uuid_text(self.nodes@[k].id),
            decreases self.nodes@.len() - i,
        {
            out.push(uuid_to_string(self.nodes[i].id));
            i = i + 1;
        }
        out
    }

    /// Whether a connection arrives at `id`.
    pub fn has_incoming(&self, id: u128) -> (r: bool)
        ensures
            r == has_incoming(*self, id),
    {
        let mut k: usize = 0;
        while k < self.connections.len()
            invariant
                k <= self.connections@.len(),
                forall|q: int| 0 <= q < k ==> (#[trigger] self.connections@[q]).to_id != id,
            decreases self.connections@.len() - k,
        {
            if self.connections[k].to_id == id {
                return true;
            }
            k = k + 1;
        }
        false
    }

    /// Whether a connection leaves `id`.
    pub fn has_outgoing(&self, id: u128) -> (r: bool)
        ensures
            r == has_outgoing(*self, id),
    {
        let mut k: usize = 0;
        while k < self.connections.len()
            invariant
                k <= self.connections@.len(),
                forall|q: int| 0 <= q < k ==> (#[trigger] self.connections@[q]).from_id != id,
            decreases self.connections@.len() - k,
        {
            if self.connections[k].from_id == id {
                return true;
            }
            k = k + 1;
        }
        false
    }

    /// Checks the chain's structure against the roles of `reg`; every
    /// defect is a configuration error.
    pub fn validate(&self, reg: &NodeRegistry) -> (r: Result<(), RuleError>)
        ensures
            r is Ok <==> chain_valid(*self, *reg),
            r matches Err(e) ==> e is ConfigError,
    {
        if self.nodes.len() == 0 {
            return Err(RuleError::ConfigError("Empty rule chain".to_string()));
        }
        match reg.role(self.nodes[0].kind.as_str()) {
            Some(NodeType::Head) => {},
            _ => {
                return Err(RuleError::ConfigError("a rule chain must start with a head node".to_string()));
            },
        }
        let n = self.nodes.len();
        let m = self.connections.len();
        let mut k: usize = 0;
        while k < m
            invariant
                m == self.connections@.len(),
                k <= m,
                forall|q: int| 0 <= q < k ==> has_node(*self, (#[trigger] self.connections@[q]).from_id) && has_node(*self, self.connections@[q].to_id),
            decreases m - k,
        {
            if self.find_node(self.connections[k].from_id).is_none() || self.find_node(self.connections[k].to_id).is_none() {
                return Err(RuleError::ConfigError("connection to an unknown node".to_string()));
            }
            k = k + 1;
        }
        let mut i: usize = 0;
        while i < n
            invariant
                n == self.nodes@.len(),
                i <= n,
                forall|q: int| 0 <= q < i ==> (#[trigger] reg.role_spec(self.nodes@[q].kind@)) is Some,
                forall|q: int|
                    0 <= q < i && #[trigger] reg.role_spec(self.nodes@[q].kind@) == Some(NodeType::Head) ==> !has_incoming(*self, self.nodes@[q].id),
                forall|q: int|
                    0 <= q < i && #[trigger] reg.role_spec(self.nodes@[q].kind@) == Some(NodeType::Tail) ==> !has_outgoing(*self, self.nodes@[q].id),
            decreases n - i,
        {
            let node = &self.nodes[i];
            match reg.role(node.kind.as_str()) {
                None => {
                    return Err(RuleError::ConfigError("unknown node type".to_string()));
                },
                Some(NodeType::Head) => {
                    if self.has_incoming(node.id) {
                        return Err(RuleError::ConfigError("a head node cannot be the target of a connection".to_string()));
                    }
                },
                Some(NodeType::Tail) => {
                    if self.has_outgoing(node.id) {
                        return Err(RuleError::ConfigError("a tail node cannot be the source of a connection".to_string()));
                    }
                },
                Some(NodeType::Middle) => {},
            }
            i = i + 1;
        }
        Ok(())
    }

    /// The graph of this chain's nodes, by position, with an edge for each
    /// connection.
    pub fn node_graph(&self) -> (g: Vec<Vec<usize>>)
        ensures
            g@.len() == self.nodes@.len(),
            graph_wf(g@),
            forall|i: int, j: int| 0 <= i < g@.len() && 0 <= j < g@.len() ==> (#[trigger] has_edge(g@, i, j) <==> node_edge(*self, i, j)),
    {
        let n = self.nodes.len();
        let mut ids: Vec<u128> = Vec::new();
        let mut targets: Vec<Vec<u128>> = Vec::new();
        let mut i: usize = 0;
        while i < n
            invariant
                n == self.nodes@.len(),
                i <= n,
                ids@.len() == i,
                targets@.len() == i,
                forall|a: int| 0 <= a < i ==> #[trigger] ids@[a] == self.nodes@[a].id,
                forall|a: int, t: u128| 0 <= a < i ==> (#[trigger] targets@[a]@.contains(t) <==> exists|k: int|
                    0 <= k < self.connections@.len() && (#[trigger] self.connections@[k]).from_id == self.nodes@[a].id
                        && self.connections@[k].to_id == t),
            decreases n - i,
        {
            let id = self.nodes[i].id;
            let mut row: Vec<u128> = Vec::new();
            let mut k: usize = 0;
            while k < self.connections.len()
                invariant
                    k <= self.connections@.len(),
                    forall|t: u128| #[trigger] row@.contains(t) <==> exists|q: int|
                        0 <= q < k && (#[trigger] self.connections@[q]).from_id == id && self.connections@[q].to_id == t,
                decreases self.connections@.len() - k,
            {
                let ghost before = row@;
                if self.connections[k].from_id == id {
                    row.push(self.connections[k].to_id);
                    proof {
                        assert forall|t: u128| #[trigger] row@.contains(t) <==> exists|q: int|
                            0 <= q < k + 1 && (#[trigger] self.connections@[q]).from_id == id && self.connections@[q].to_id == t by {
                            if row@.contains(t) {
                                let p = choose|p: int| 0 <= p < row@.len() && row@[p] == t;
                                if p < before.len() {
                                    assert(before.contains(t));
                                }
                            }
                            if exists|q: int| 0 <= q < k + 1 && (#[trigger] self.connections@[q]).from_id == id && self.connections@[q].to_id == t {
                                let q = choose|q: int| 0 <= q < k + 1 && (#[trigger] self.connections@[q]).from_id == id && self.connections@[q].to_id == t;
                                if q < k {
                                    assert(before.contains(t));
                                    let p = choose|p: int| 0 <= p < before.len() && before[p] == t;
                                    assert(row@[p] == t);
                                } else {
                                    assert(row@[row@.len() - 1] == t);
                                }
                            }
                        }
                    }
                }
                k = k + 1;
            }
            ids.push(id);
            targets.push(row);
            proof {
                assert forall|a: int, t: u128| 0 <= a < i + 1 implies (#[trigger] targets@[a]@.contains(t) <==> exists|k: int|
                    0 <= k < self.connections@.len() && (#[trigger] self.connections@[k]).from_id == self.nodes@[a].id
                        && self.connections@[k].to_id == t) by {
                    if a == i {
                        assert(targets@[a] == row);
                    }
                }
            }
            i = i + 1;
        }
        let g = link_graph(&ids, &targets);
        proof {
            assert forall|i: int, j: int| 0 <= i < g@.len() && 0 <= j < g@.len() implies (#[trigger] has_edge(g@, i, j) <==> node_edge(*self, i, j)) by {
                assert(ids@[j] == self.nodes@[j].id);
                if node_edge(*self, i, j) {
                    let k = choose|k: int|
                        0 <= k < self.connections@.len() && (#[trigger] self.connections@[k]).from_id == self.nodes@[i].id && self.connections@[k].to_id
                            == self.nodes@[j].id;
                    assert(targets@[i]@.contains(ids@[j]));
                }
            }
        }
        g
    }
}

} // verus!
