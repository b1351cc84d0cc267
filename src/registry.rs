//! Registered node types and the descriptors cached for them.
//!
//! Each registered type has the descriptor its factory gave for an empty
//! configuration, or none when the factory failed on it; the type then has
//! no known role and chains that use it fail validation.
use vstd::prelude::*;
use crate::json::str_eq;
use crate::types::{NodeDescriptor, NodeType};

verus! {

/// A registered node type.
#[derive(Debug, Clone)]
pub struct RegistryEntry {
    pub kind: String,
    pub descriptor: Option<NodeDescriptor>,
}

/// The entry registered last under `kind`.
pub open spec fn registered(entries: Seq<RegistryEntry>, kind: Seq<char>) -> Option<RegistryEntry>
    decreases entries.len(),
{
    if entries.len() == 0 {
        None
    } else if entries.last().kind@ == kind {
        Some(entries.last())
    } else {
        registered(entries.drop_last(), kind)
    }
}

proof fn lemma_registered_update(entries: Seq<RegistryEntry>, i: int, e: RegistryEntry, kind: Seq<char>)
    requires
        0 <= i < entries.len(),
        entries[i].kind@ == e.kind@,
        forall|j: int| i < j < entries.len() ==> (#[trigger] entries[j]).kind@ != e.kind@,
    ensures
        registered(entries.update(i, e), kind) == if kind == e.kind@ {
            Some(e)
        } else {
            registered(entries, kind)
        },
    decreases entries.len(),
{
    let u = entries.update(i, e);
    if i == entries.len() - 1 {
        assert(u.drop_last() =~= entries.drop_last());
    } else {
        assert(u.drop_last() =~= entries.drop_last().update(i, e));
        lemma_registered_update(entries.drop_last(), i, e, kind);
    }
}

/// The descriptors of `entries` that are present, in order.
pub open spec fn cached(entries: Seq<RegistryEntry>) -> Seq<NodeDescriptor>
    decreases entries.len(),
{
    if entries.len() == 0 {
        Seq::empty()
    } else {
        match entries.last().descriptor {
            Some(d) => cached(entries.drop_last()).push(d),
            None => cached(entries.drop_last()),
        }
    }
}

/// `d` has the name and description cached in `entry`.
pub open spec fn describes(entry: Option<RegistryEntry>, d: NodeDescriptor) -> bool {
    &&& entry matches Some(e)
    &&& e.descriptor matches Some(c)
    &&& d.name == c.name
    &&& d.description == c.description
}

/// The node types known to an engine.
#[derive(Debug, Clone)]
pub struct NodeRegistry {
    pub entries: Vec<RegistryEntry>,
}

impl NodeRegistry {
    /// The role of `kind`: known when it is registered with a descriptor.
    pub open spec fn role_spec(&self, kind: Seq<char>) -> Option<NodeType> {
        match registered(self.entries@, kind) {
            Some(e) => match e.descriptor {
                Some(d) => Some(d.node_type),
                None => None,
            },
            None => None,
        }
    }

    pub open spec fn is_registered(&self, kind: Seq<char>) -> bool {
        registered(self.entries@, kind) is Some
    }

    /// An empty registry.
    pub fn new() -> (r: NodeRegistry)
        ensures
            r.entries@.len() == 0,
    {
        NodeRegistry { entries: Vec::new() }
    }

    /// Registers `kind`, replacing any earlier registration of it.
    pub fn register(&mut self, kind: String, descriptor: Option<NodeDescriptor>)
        ensures
            registered(final(self).entries@, kind@) == Some(RegistryEntry { kind, descriptor }),
            forall|k: Seq<char>| k != kind@ ==> #[trigger] registered(final(self).entries@, k) == registered(old(self).entries@, k),
    {
        let entry = RegistryEntry { kind, descriptor };
        let mut i: usize = self.entries.len();
        while i > 0
            invariant
                i <= self.entries@.len(),
                self.entries@ == old(self).entries@,
                entry == (RegistryEntry { kind, descriptor }),
                forall|j: int| i <= j < self.entries@.len() ==> (#[trigger] self.entries@[j]).kind@ != entry.kind@,
            decreases i,
        {
            if str_eq(self.entries[i - 1].kind.as_str(), entry.kind.as_str()) {
                let ghost pre = self.entries@;
                let idx = i - 1;
                proof {
                    assert forall|k: Seq<char>| true implies registered(pre.update(idx as int, entry), k) == if k == entry.kind@ {
                        Some(entry)
                    } else {
                        registered(pre, k)
                    } by {
                        lemma_registered_update(pre, idx as int, entry, k);
                    }
                }
                self.entries.set(idx, entry);
                return;
            }
            i = i - 1;
        }
        let ghost pre = self.entries@;
        self.entries.push(entry);
        proof {
            assert(self.entries@.drop_last() =~= pre);
            assert(self.entries@.last() == entry);
        }
    }

    /// Index of the entry registered last under `kind`.
    fn find(&self, kind: &str) -> (r: Option<usize>)
        ensures
            r matches Some(i) ==> i < self.entries@.len() && registered(self.entries@, kind@) == Some(self.entries@[i as int]),
            r is None ==> registered(self.entries@, kind@) is None,
    {
        let mut i: usize = self.entries.len();
        assert(self.entries@.subrange(0, i as int) =~= self.entries@);
        while i > 0
            invariant
                i <= self.entries@.len(),
                registered(self.entries@, kind@) == registered(self.entries@.subrange(0, i as int), kind@),
            decreases i,
        {
            let ghost pre = self.entries@.subrange(0, i as int);
            assert(pre.drop_last() =~= self.entries@.subrange(0, i - 1));
            if str_eq(self.entries[i - 1].kind.as_str(), kind) {
                assert(pre.last() == self.entries@[i - 1]);
                return Some(i - 1);
            }
            i = i - 1;
        }
        assert(self.entries@.subrange(0, 0) =~= Seq::<RegistryEntry>::empty());
        None
    }

    /// The role of `kind`, when it is registered with a descriptor.
    pub fn role(&self, kind: &str) -> (r: Option<NodeType>)
        ensures
            r == self.role_spec(kind@),
    {
        match self.find(kind) {
            Some(i) => match &self.entries[i].descriptor {
                Some(d) => Some(d.node_type),
                None => None,
            },
            None => None,
        }
    }

    /// The cached descriptor of `kind`, under the name it is registered with.
    pub fn get_descriptor(&self, kind: &str) -> (r: Option<NodeDescriptor>)
        ensures
            r is Some <==> self.role_spec(kind@) is Some,
            r matches Some(d) ==> d.kind@ == kind@ && Some(d.node_type) == self.role_spec(kind@) && describes(
                registered(self.entries@, kind@),
                d,
            ),
    {
        match self.find(kind) {
            Some(i) => match &self.entries[i].descriptor {
                Some(d) => Some(
                    NodeDescriptor {
                        kind: kind.to_string(),
                        name: d.name.clone(),
                        description: d.description.clone(),
                        node_type: d.node_type,
                    },
                ),
                None => None,
            },
            None => None,
        }
    }

    /// The registered type names, in order of first registration.
    pub fn get_registered_types(&self) -> (r: Vec<String>)
        ensures
            r@.len() == self.entries@.len(),
            forall|i: int| 0 <= i < r@.len() ==> (#[trigger] r@[i])@ == self.entries@[i].kind@,
    {
        let mut out: Vec<String> = Vec::new();
        let mut i: usize = 0;
        while i < self.entries.len()
            invariant
                i <= self.entries@.len(),
                out@.len() == i,
                forall|k: int| 0 <= k < i ==> (#[trigger] out@[k])@ == self.entries@[k].kind@,
            decreases self.entries@.len() - i,
        {
            out.push(self.entries[i].kind.clone());
            i = i + 1;
        }
        out
    }

    /// The cached descriptors, in order of registration.
    pub fn get_descriptors(&self) -> (r: Vec<NodeDescriptor>)
        ensures
            r@ == cached(self.entries@),
    {
        let mut out: Vec<NodeDescriptor> = Vec::new();
        let mut i: usize = 0;
        while i < self.entries.len()
            invariant
                i <= self.entries@.len(),
                out@ == cached(self.entries@.subrange(0, i as int)),
            decreases self.entries@.len() - i,
        {
            let ghost sub = self.entries@.subrange(0, i + 1);
            assert(sub.drop_last() =~= self.entries@.subrange(0, i as int));
            match &self.entries[i].descriptor {
                Some(d) => {
                    let c = NodeDescriptor {
                        kind: d.kind.clone(),
                        name: d.name.clone(),
                        description: d.description.clone(),
                        node_type: d.node_type,
                    };
                    out.push(c);
                },
                None => {},
            }
            i = i + 1;
        }
        assert(self.entries@.subrange(0, i as int) =~= self.entries@);
        out
    }
}

} // verus!
