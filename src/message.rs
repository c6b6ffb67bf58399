use vstd::prelude::*;

use crate::operation::{OpResult, Operation, OperationView};
use crate::types::{ClientID, CommitID, OpNumber, ReplicaID, RequestID, ViewNumber};

verus! {

/// A request from a client, numbered by the client.
#[derive(Clone, Debug, PartialEq, Eq)]
pub struct ClientRequest {
    pub client_id: ClientID,
    pub request_number: RequestID,
    pub op: Operation,
}

/// Mathematical value of a [`ClientRequest`].
pub struct RequestView {
    pub client_id: ClientID,
    pub request_number: RequestID,
    pub op: OperationView,
}

impl View for ClientRequest {
    type V = RequestView;

    open spec fn view(&self) -> RequestView {
        RequestView { client_id: self.client_id, request_number: self.request_number, op: self.op@ }
    }
}

impl ClientRequest {
    /// A copy of the request.
    pub fn duplicate(&self) -> (r: ClientRequest)
        ensures
            r@ == self@,
    {
        ClientRequest {
            client_id: self.client_id,
            request_number: self.request_number,
            op: self.op.duplicate(),
        }
    }
}

/// The answer a primary sends to a client.
#[derive(Clone, Copy, Debug, PartialEq, Eq)]
pub struct Reply {
    pub view_number: ViewNumber,
    pub request_number: RequestID,
    pub result: OpResult,
}

/// Sent by the primary to every backup for each operation it orders.
#[derive(Clone, Debug, PartialEq, Eq)]
pub struct Prepare {
    pub view_number: ViewNumber,
    pub request: ClientRequest,
    pub op_number: OpNumber,
    pub commit_number: CommitID,
}

/// Mathematical value of a [`Prepare`].
pub struct PrepareView {
    pub view_number: ViewNumber,
    pub request: RequestView,
    pub op_number: OpNumber,
    pub commit_number: CommitID,
}

impl View for Prepare {
    type V = PrepareView;

    open spec fn view(&self) -> PrepareView {
        PrepareView {
            view_number: self.view_number,
            request: self.request@,
            op_number: self.op_number,
            commit_number: self.commit_number,
        }
    }
}

/// Sent by a backup to the primary once it has logged an operation.
#[derive(Clone, Copy, Debug, PartialEq, Eq)]
pub struct PrepareOk {
    pub view_number: ViewNumber,
    pub op_number: OpNumber,
    pub replica_number: ReplicaID,
}

/// A message between replicas.
#[derive(Clone, Debug, PartialEq, Eq)]
pub enum ReplicaMessage {
    Prepare(Prepare),
    PrepareOk(PrepareOk),
}

/// Mathematical value of a [`ReplicaMessage`].
pub enum ReplicaMessageView {
    Prepare(PrepareView),
    PrepareOk(PrepareOk),
}

impl View for ReplicaMessage {
    type V = ReplicaMessageView;

    open spec fn view(&self) -> ReplicaMessageView {
        match self {
            ReplicaMessage::Prepare(p) => ReplicaMessageView::Prepare(p@),
            ReplicaMessage::PrepareOk(ok) => ReplicaMessageView::PrepareOk(*ok),
        }
    }
}

/// Everything that travels over a connection.
#[derive(Clone, Debug, PartialEq, Eq)]
pub enum IOMessage {
    Reply(Reply),
    Client(ClientRequest),
    Replica(ReplicaMessage),
}

} // verus!
