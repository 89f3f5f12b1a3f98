//! Operations: what one transaction does at one step of a schedule.

use vstd::prelude::*;
use crate::ident::{Data, TxId};

verus! {

/// What an operation does, as a mathematical value.
pub enum SpecOpKind {
    Read(Seq<char>),
    Write(Seq<char>),
    Commit,
    Abort,
}

/// An operation as a mathematical value: what it does, and the name of the
/// transaction that issued it.
pub struct SpecOp {
    pub kind: SpecOpKind,
    pub tx: Seq<char>,
}

impl SpecOp {
    /// The data item that the operation touches; commits and aborts touch none.
    pub open spec fn item(self) -> Option<Seq<char>> {
        match self.kind {
            SpecOpKind::Read(d) => Some(d),
            SpecOpKind::Write(d) => Some(d),
            SpecOpKind::Commit => None,
            SpecOpKind::Abort => None,
        }
    }
}

/// What an operation does.
#[derive(Debug, Clone, Copy)]
pub enum OpKind {
    Read(Data),
    Write(Data),
    Commit,
    Abort,
}

impl View for OpKind {
    type V = SpecOpKind;

    open spec fn view(&self) -> SpecOpKind {
        match *self {
            OpKind::Read(d) => SpecOpKind::Read(d@),
            OpKind::Write(d) => SpecOpKind::Write(d@),
            OpKind::Commit => SpecOpKind::Commit,
            OpKind::Abort => SpecOpKind::Abort,
        }
    }
}

impl PartialEq for OpKind {
    fn eq(&self, other: &OpKind) -> (same: bool) {
        match (*self, *other) {
            (OpKind::Read(a), OpKind::Read(b)) => a == b,
            (OpKind::Write(a), OpKind::Write(b)) => a == b,
            (OpKind::Commit, OpKind::Commit) => true,
            (OpKind::Abort, OpKind::Abort) => true,
            _ => false,
        }
    }
}

impl vstd::std_specs::cmp::PartialEqSpecImpl for OpKind {
    open spec fn obeys_eq_spec() -> bool {
        true
    }

    open spec fn eq_spec(&self, other: &OpKind) -> bool {
        self@ == other@
    }
}

/// One operation of a schedule.
#[derive(Debug, Clone, Copy)]
pub struct Op {
    pub kind: OpKind,
    pub tx: TxId,
}

impl PartialEq for Op {
    fn eq(&self, other: &Op) -> (same: bool) {
        self.kind == other.kind && self.tx == other.tx
    }
}

impl vstd::std_specs::cmp::PartialEqSpecImpl for Op {
    open spec fn obeys_eq_spec() -> bool {
        true
    }

    open spec fn eq_spec(&self, other: &Op) -> bool {
        self@ == other@
    }
}

impl Op {
    /// Transaction `tx` reads `item`.
    pub fn read(item: &'static str, tx: &'static str) -> (op: Op)
        ensures
            op@ == (SpecOp { kind: SpecOpKind::Read(item@), tx: tx@ }),
    {
        Op { kind: OpKind::Read(Data(item)), tx: TxId(tx) }
    }

    /// Transaction `tx` writes `item`.
    pub fn write(item: &'static str, tx: &'static str) -> (op: Op)
        ensures
            op@ == (SpecOp { kind: SpecOpKind::Write(item@), tx: tx@ }),
    {
        Op { kind: OpKind::Write(Data(item)), tx: TxId(tx) }
    }

    /// Transaction `tx` commits.
    pub fn commit(tx: &'static str) -> (op: Op)
        ensures
            op@ == (SpecOp { kind: SpecOpKind::Commit, tx: tx@ }),
    {
        Op { kind: OpKind::Commit, tx: TxId(tx) }
    }

    /// Transaction `tx` aborts.
    pub fn abort(tx: &'static str) -> (op: Op)
        ensures
            op@ == (SpecOp { kind: SpecOpKind::Abort, tx: tx@ }),
    {
        Op { kind: OpKind::Abort, tx: TxId(tx) }
    }
}

impl View for Op {
    type V = SpecOp;

    open spec fn view(&self) -> SpecOp {
        SpecOp { kind: self.kind@, tx: self.tx@ }
    }
}

/// The values of a sequence of operations.
pub open spec fn ops_view(ops: Seq<Op>) -> Seq<SpecOp> {
    ops.map_values(|o: Op| o@)
}

} // verus!
