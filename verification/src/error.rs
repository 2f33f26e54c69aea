//! Error types of the document store and the storage layer.

use vstd::prelude::*;

verus! {

/// Errors of the storage layer.
#[derive(Debug, Clone)]
pub enum StorageError {
    NotFound,
    Serialization(String),
    Backend(String),
    Transaction(String),
    Io(String),
    Encryption(String),
    Decryption(String),
    InvalidDatabaseName(String),
}

/// Errors of the document store.
#[derive(Debug, Clone)]
pub enum NoSqlError {
    DocumentNotFound(i64),
    CollectionNotFound(String),
    Storage(StorageError),
    Serialization(String),
    InvalidQuery(String),
    InvalidSchema(String),
    SchemaNotEmpty(String),
    RemoteDatabase(String),
    TriggerAbort(String),
    SingletonDeleteNotPermitted(String),
    SingletonClearNotPermitted(String),
    ReservedSchemaWriteNotPermitted(String),
    PreferenceNotFound(String),
    PreferenceError(String),
    AccessHistoryError(String),
    TrimNeverTrim(String),
    TrimPolicyInvalid(String),
    TrimAborted(String),
    CacheConfigInvalid(String),
}

/// Errors of the provenance layer.
#[derive(Debug)]
pub enum ProvenanceError {
    Storage(StorageError),
    InvalidConfidence(String),
    Verification(String),
    Canonical(String),
    NotFound(i64),
}

} // verus!
