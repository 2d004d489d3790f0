//! The nodes that parsing produces.
//!
//! A node names things by hash: a variable by the hash of its name, a type by
//! the hash of its name, and a tuple, which has no name, by the hash of the
//! types of its members in order.

use vstd::prelude::*;
use crate::hash::{fnv1a, fnv_fold, le_bytes, lemma_fold_concat, Fnv1a, FNV_OFFSET_BASIS};

verus! {

/// A variable: a name, a type and, where it is initialized, the text of its
/// value.
#[derive(Clone, Debug, PartialEq, Eq)]
pub struct Variable {
    /// The hash of the variable's name.
    pub id: u64,
    /// The hash of the name of the variable's type.
    pub kind: u64,
    /// The bytes of the initial value as written; empty where there is none.
    pub value: Vec<u8>,
}

/// The mathematical content of a [`Variable`].
pub struct VariableModel {
    /// The hash of the variable's name.
    pub id: u64,
    /// The hash of the name of the variable's type.
    pub kind: u64,
    /// The bytes of the initial value as written; empty where there is none.
    pub value: Seq<u8>,
}

impl View for Variable {
    type V = VariableModel;

    open spec fn view(&self) -> VariableModel {
        VariableModel { id: self.id, kind: self.kind, value: self.value@ }
    }
}

/// The contents of a list of variables, in the order of the list.
pub open spec fn models(members: Seq<Variable>) -> Seq<VariableModel> {
    Seq::new(members.len(), |i: int| members[i]@)
}

/// The mathematical content of a [`Record`] or a [`Tuple`]: a type hash and
/// the members in source order.
pub struct Aggregate {
    /// The type hash.
    pub kind: u64,
    /// The members in source order.
    pub members: Seq<VariableModel>,
}

/// A named aggregate of variables.
#[derive(Clone, Debug, PartialEq, Eq)]
pub struct Record {
    /// The hash of the record's name.
    pub kind: u64,
    /// The members in source order.
    pub members: Vec<Variable>,
}

impl View for Record {
    type V = Aggregate;

    open spec fn view(&self) -> Aggregate {
        Aggregate { kind: self.kind, members: models(self.members@) }
    }
}

/// An unnamed aggregate of variables.
#[derive(Clone, Debug, PartialEq, Eq)]
pub struct Tuple {
    /// The hash of the types of the members, see [`tuple_kind`].
    pub kind: u64,
    /// The members in source order.
    pub members: Vec<Variable>,
}

impl View for Tuple {
    type V = Aggregate;

    open spec fn view(&self) -> Aggregate {
        Aggregate { kind: self.kind, members: models(self.members@) }
    }
}

/// A declaration.
#[derive(Clone, Debug, PartialEq, Eq)]
pub enum Node {
    /// `record Name { ... }`
    Record(Record),
    /// `tuple { ... }`
    Tuple(Tuple),
    /// `var name, type;` or `var name, type, value;`
    Variable(Variable),
}

/// The mathematical content of a [`Node`].
pub enum NodeModel {
    /// The content of a record.
    Record(Aggregate),
    /// The content of a tuple.
    Tuple(Aggregate),
    /// The content of a variable.
    Variable(VariableModel),
}

impl View for Node {
    type V = NodeModel;

    open spec fn view(&self) -> NodeModel {
        match self {
            Node::Record(record) => NodeModel::Record(record@),
            Node::Tuple(tuple) => NodeModel::Tuple(tuple@),
            Node::Variable(variable) => NodeModel::Variable(variable@),
        }
    }
}

/// The contents of a list of nodes, in the order of the list.
pub open spec fn node_models(nodes: Seq<Node>) -> Seq<NodeModel> {
    Seq::new(nodes.len(), |i: int| nodes[i]@)
}

/// The variable written with the given name, type name and value text.
pub open spec fn variable_of(name: Seq<u8>, kind: Seq<u8>, value: Seq<u8>) -> VariableModel {
    VariableModel { id: fnv1a(name), kind: fnv1a(kind), value }
}

/// The record written with the given name and members.
pub open spec fn record_of(name: Seq<u8>, members: Seq<VariableModel>) -> Aggregate {
    Aggregate { kind: fnv1a(name), members }
}

/// The type signature of a list of members: the eight bytes of each member's
/// type hash, least significant first, one member after the other.
pub open spec fn signature(members: Seq<VariableModel>) -> Seq<u8>
    decreases members.len(),
{
    if members.len() == 0 {
        Seq::empty()
    } else {
        signature(members.drop_last()) + le_bytes(members.last().kind)
    }
}

/// The type hash of a tuple: the hash of the signature of its members.
pub open spec fn tuple_kind(members: Seq<VariableModel>) -> u64 {
    fnv1a(signature(members))
}

/// The tuple with the given members.
pub open spec fn tuple_of(members: Seq<VariableModel>) -> Aggregate {
    Aggregate { kind: tuple_kind(members), members }
}

/// What a variable feeds into a running hash: the bytes of its name hash,
/// then those of its type hash.
pub open spec fn variable_bytes(variable: VariableModel) -> Seq<u8> {
    le_bytes(variable.id) + le_bytes(variable.kind)
}

/// What a list of members feeds into a running hash: each member in turn.
pub open spec fn members_bytes(members: Seq<VariableModel>) -> Seq<u8>
    decreases members.len(),
{
    if members.len() == 0 {
        Seq::empty()
    } else {
        members_bytes(members.drop_last()) + variable_bytes(members.last())
    }
}

/// What a record feeds into a running hash: the bytes of its type hash, then
/// its members.
pub open spec fn record_bytes(record: Aggregate) -> Seq<u8> {
    le_bytes(record.kind) + members_bytes(record.members)
}

impl Variable {
    /// Assembles the variable written with the given name, type name and
    /// value text.
    pub fn new(name: &[u8], kind: &[u8], value: &[u8]) -> (variable: Variable)
        ensures
            variable@ == variable_of(name@, kind@, value@),
    {
        let mut hasher = Fnv1a::new();
        hasher.write(name);
        let id: u64 = hasher.finish();
        let mut hasher = Fnv1a::new();
        hasher.write(kind);
        let kind: u64 = hasher.finish();
        Variable { id, kind, value: vstd::slice::slice_to_vec(value) }
    }

    /// Feeds the variable's identity into a running hash.
    pub fn hash(&self, state: &mut Fnv1a)
        ensures
            final(state)@ == fnv_fold(old(state)@, variable_bytes(self@)),
    {
        state.write_u64(self.id);
        state.write_u64(self.kind);
        proof {
            lemma_fold_concat(old(state)@, le_bytes(self.id), le_bytes(self.kind));
        }
    }
}

impl Record {
    /// Assembles the record written with the given name and members.
    pub fn new(name: &[u8], members: Vec<Variable>) -> (record: Record)
        ensures
            record@ == record_of(name@, models(members@)),
            record.members == members,
    {
        let mut hasher = Fnv1a::new();
        hasher.write(name);
        Record { kind: hasher.finish(), members }
    }

    /// Feeds the record's identity into a running hash.
    pub fn hash(&self, state: &mut Fnv1a)
        ensures
            final(state)@ == fnv_fold(old(state)@, record_bytes(self@)),
    {
        state.write_u64(self.kind);
        let ghost all = models(self.members@);
        let mut i: usize = 0;
        while i < self.members.len()
            invariant
                i <= self.members.len(),
                all == models(self.members@),
                state@ == fnv_fold(
                    old(state)@,
                    le_bytes(self.kind) + members_bytes(all.take(i as int)),
                ),
            decreases self.members.len() - i,
        {
            let ghost before = state@;
            let ghost fed = le_bytes(self.kind) + members_bytes(all.take(i as int));
            self.members[i].hash(state);
            proof {
                let next = variable_bytes(all[i as int]);
                assert(all.take(i + 1).drop_last() =~= all.take(i as int));
                assert(all.take(i + 1).last() == all[i as int]);
                lemma_fold_concat(old(state)@, fed, next);
                assert(fed + next =~= le_bytes(self.kind) + members_bytes(all.take(i + 1)));
            }
            i = i + 1;
        }
        proof {
            assert(all.take(i as int) =~= all);
        }
    }
}

impl Tuple {
    /// Whether the tuple's type hash is the one that its members give it.
    pub open spec fn well_formed(&self) -> bool {
        self.kind == tuple_kind(models(self.members@))
    }

    /// Assembles the tuple with the given members.
    pub fn new(members: Vec<Variable>) -> (tuple: Tuple)
        ensures
            tuple@ == tuple_of(models(members@)),
            tuple.members == members,
            tuple.well_formed(),
    {
        let ghost all = models(members@);
        let mut hasher = Fnv1a::new();
        let mut i: usize = 0;
        while i < members.len()
            invariant
                i <= members.len(),
                all == models(members@),
                hasher@ == fnv_fold(FNV_OFFSET_BASIS, signature(all.take(i as int))),
            decreases members.len() - i,
        {
            let ghost fed = signature(all.take(i as int));
            hasher.write_u64(members[i].kind);
            proof {
                assert(all.take(i + 1).drop_last() =~= all.take(i as int));
                assert(all.take(i + 1).last() == all[i as int]);
                lemma_fold_concat(FNV_OFFSET_BASIS, fed, le_bytes(members[i as int].kind));
            }
            i = i + 1;
        }
        proof {
            assert(all.take(i as int) =~= all);
        }
        Tuple { kind: hasher.finish(), members }
    }
}

} // verus!
