//! Boundary decisions of the wiki platform's file service.
//!
//! The platform's storage, database and transport are outside
//! collaborators; what is verified here are the pure decisions the
//! service makes from their answers: which error a failed lookup
//! yields, when a creation conflicts, and how a service error maps to
//! an HTTP status.  The caller performs the lookups and hands the
//! plain outcomes in.

use vstd::prelude::*;

verus! {

/// The failure modes of a service call.
#[derive(Debug, PartialEq, Eq)]
pub enum ServiceError {
    /// A database failure, with its message.
    Database(Vec<u8>),
    /// A web failure that already carries an HTTP status.
    Web(u16),
    /// The request conflicts with data already present.
    Conflict,
    /// The requested data was not found.
    NotFound,
}

impl ServiceError {
    /// The HTTP status a service error surfaces as: a database failure
    /// is an internal error, a web failure keeps its status, a
    /// conflict is 409 and a missing record 404.
    pub fn status_code(&self) -> (code: u16)
        ensures
            code == (match *self {
                ServiceError::Database(_) => 500u16,
                ServiceError::Web(inner) => inner,
                ServiceError::Conflict => 409u16,
                ServiceError::NotFound => 404u16,
            }),
    {
        match self {
            ServiceError::Database(_) => 500,
            ServiceError::Web(inner) => *inner,
            ServiceError::Conflict => 409,
            ServiceError::NotFound => 404,
        }
    }

    /// The service error a database failure becomes: a missing record
    /// is `NotFound`, anything else keeps its message as a database
    /// error.
    pub fn of_database_error(record_not_found: bool, message: Vec<u8>) -> (r: ServiceError)
        ensures
            record_not_found ==> r == ServiceError::NotFound,
            !record_not_found ==> r == ServiceError::Database(message),
    {
        if record_not_found {
            ServiceError::NotFound
        } else {
            ServiceError::Database(message)
        }
    }
}

/// The file service: uploads are stored by the platform; the decisions
/// over lookup outcomes are made here.
#[derive(Debug)]
pub struct FileService;

impl FileService {
    /// The decision behind fetching a file that must exist: a found
    /// record passes through, a missing one is the not-found error.
    pub fn get<T>(found: Option<T>) -> (r: Result<T, ServiceError>)
        ensures
            match found {
                Option::Some(f) => r == Result::<T, ServiceError>::Ok(f),
                Option::None => r == Result::<T, ServiceError>::Err(ServiceError::NotFound),
            },
    {
        match found {
            Some(f) => Ok(f),
            None => Err(ServiceError::NotFound),
        }
    }

    /// The decision behind an existence check: whether the lookup
    /// found a record.  (The quantifier keyword rules out the
    /// platform's own name for this decision.)
    pub fn record_exists<T>(found: &Option<T>) -> (r: bool)
        ensures
            r == (found is Some),
    {
        match found {
            Some(_) => true,
            None => false,
        }
    }

    /// The decision behind creation's conflict check: a live record
    /// already carrying the name on the page (its file identifier is
    /// handed in) forbids the creation; otherwise it may proceed.
    pub fn check_conflicts(existing: Option<Vec<u8>>) -> (r: Result<(), ServiceError>)
        ensures
            existing is Some <==> r == Result::<(), ServiceError>::Err(ServiceError::Conflict),
            existing is None <==> r == Result::<(), ServiceError>::Ok(()),
    {
        match existing {
            Some(_) => Err(ServiceError::Conflict),
            None => Ok(()),
        }
    }

    /// The decision behind a soft deletion: it proceeds only when the
    /// file exists, else it is the not-found error.
    pub fn delete_allowed(file_exists: bool) -> (r: Result<(), ServiceError>)
        ensures
            file_exists <==> r == Result::<(), ServiceError>::Ok(()),
            !file_exists <==> r == Result::<(), ServiceError>::Err(ServiceError::NotFound),
    {
        if file_exists {
            Ok(())
        } else {
            Err(ServiceError::NotFound)
        }
    }
}

} // verus!
