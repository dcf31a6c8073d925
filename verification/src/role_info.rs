//! The role-identity data model: a named entity carrying a collection of
//! permission grants. It is persisted as JSON byte blobs elsewhere in the
//! system; this module holds the plain data shape and its constructors.

use vstd::prelude::*;

verus! {

/// The permission grants attached to a role, one entry per grant.
pub struct UserGrantSet {
    pub entries: Vec<String>,
}

impl UserGrantSet {
    /// A grant set with no entries.
    pub fn empty() -> (r: Self)
        ensures
            r.entries@.len() == 0,
    {
        UserGrantSet { entries: Vec::new() }
    }
}

/// A named role together with its permission grants.
pub struct RoleInfo {
    pub name: String,
    pub grants: UserGrantSet,
}

impl RoleInfo {
    /// A fresh role of the given name, with no grants.
    pub fn new(name: &str) -> (r: Self)
        ensures
            r.name@ == name@,
            r.grants.entries@.len() == 0,
    {
        RoleInfo { name: name.to_owned(), grants: UserGrantSet::empty() }
    }

    /// The role's identity: its name.
    pub fn identity(&self) -> (r: &str)
        ensures
            r@ == self.name@,
    {
        self.name.as_str()
    }
}

/// Error raised when a role fails to decode from its persisted byte form:
/// a description of what was being decoded and the underlying cause.
pub struct RoleInfoSerdeError {
    pub message: String,
    pub source: String,
}

} // verus!
