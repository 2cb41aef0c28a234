//! The errors that the library reports.
use vstd::prelude::*;

verus! {

/// Every failure that an operation of the library or of a backend reports.
#[derive(Clone, Debug, PartialEq)]
pub enum OrmoxError {
    CollectionRetrieval { name: String, reason: String },
    Serialization { error: String },
    Deserialization { error: String },
    Insert { error: String },
    Compatibility { error: String },
    NotFound { query: String },
    Id { provided: String },
    Uninitialized,
    Unimplemented,
    Driver { driver_name: String, error: String },
}

/// The result of an operation that may fail with an `OrmoxError`.
pub type OResult<T> = Result<T, OrmoxError>;

impl OrmoxError {
    /// A typed value could not be turned into the wire format.
    pub fn serialization(error: &str) -> (r: Self)
        ensures
            r is Serialization,
            r->Serialization_error@ == error@,
    {
        OrmoxError::Serialization { error: String::from_str(error) }
    }

    /// A wire value could not be turned into a typed value or a query.
    pub fn deserialization(error: &str) -> (r: Self)
        ensures
            r is Deserialization,
            r->Deserialization_error@ == error@,
    {
        OrmoxError::Deserialization { error: String::from_str(error) }
    }

    /// A batch insert did not yield the identifiers it should have.
    pub fn insert(error: &str) -> (r: Self)
        ensures
            r is Insert,
            r->Insert_error@ == error@,
    {
        OrmoxError::Insert { error: String::from_str(error) }
    }

    /// A query-like value could not be turned into a `Query`.
    pub fn compaibility(error: &str) -> (r: Self)
        ensures
            r is Compatibility,
            r->Compatibility_error@ == error@,
    {
        OrmoxError::Compatibility { error: String::from_str(error) }
    }

    /// A lookup of a single document matched nothing; `query` renders the filter.
    pub fn not_found(query: &str) -> (r: Self)
        ensures
            r is NotFound,
            r->NotFound_query@ == query@,
    {
        OrmoxError::NotFound { query: String::from_str(query) }
    }

    /// An identifier could not be read from the text provided.
    pub fn id(id: &str) -> (r: Self)
        ensures
            r is Id,
            r->Id_provided@ == id@,
    {
        OrmoxError::Id { provided: String::from_str(id) }
    }

    /// A failure of a backend, tagged with the backend's name and its own message.
    pub fn driver(driver: &str, error: &str) -> (r: Self)
        ensures
            r is Driver,
            r->Driver_driver_name@ == driver@,
            r->Driver_error@ == error@,
    {
        OrmoxError::Driver { driver_name: String::from_str(driver), error: String::from_str(error) }
    }
}

} // verus!
