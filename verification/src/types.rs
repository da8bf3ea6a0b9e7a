use vstd::prelude::*;

verus! {

/// A client account identifier.
pub type ClientID = u16;

/// A transaction identifier; unique only per client.
pub type TxID = u64;

/// The global primary key of a recorded transaction.
pub type TxUID = (ClientID, TxID);

/// A failure of the storage backend; the in-memory store never raises one,
/// but a concurrent backend behind a lock may.
#[derive(Debug, Clone, Copy, PartialEq, Eq, Structural)]
pub enum DatabaseError {
    PoisonLock,
}

#[derive(Debug, Clone, Copy, PartialEq, Eq, Structural)]
pub enum ClientError {
    DatabaseError(DatabaseError),
}

#[derive(Debug, Clone, Copy, PartialEq, Eq, Structural)]
pub enum EngineError {
    ClientError(ClientError),
    DatabaseError(DatabaseError),
}

impl From<DatabaseError> for ClientError {
    fn from(e: DatabaseError) -> (r: Self) {
        ClientError::DatabaseError(e)
    }
}

impl vstd::std_specs::convert::FromSpecImpl<DatabaseError> for ClientError {
    open spec fn obeys_from_spec() -> bool {
        true
    }

    open spec fn from_spec(e: DatabaseError) -> Self {
        ClientError::DatabaseError(e)
    }
}

impl From<ClientError> for EngineError {
    fn from(e: ClientError) -> (r: Self) {
        EngineError::ClientError(e)
    }
}

impl vstd::std_specs::convert::FromSpecImpl<ClientError> for EngineError {
    open spec fn obeys_from_spec() -> bool {
        true
    }

    open spec fn from_spec(e: ClientError) -> Self {
        EngineError::ClientError(e)
    }
}

impl From<DatabaseError> for EngineError {
    fn from(e: DatabaseError) -> (r: Self) {
        EngineError::DatabaseError(e)
    }
}

impl vstd::std_specs::convert::FromSpecImpl<DatabaseError> for EngineError {
    open spec fn obeys_from_spec() -> bool {
        true
    }

    open spec fn from_spec(e: DatabaseError) -> Self {
        EngineError::DatabaseError(e)
    }
}

} // verus!
