//! Transactions, all of which need root.
use vstd::prelude::*;

use crate::error::{Error, ErrorModel};
use crate::operation::OperationOptions;
use crate::package::Package;
use crate::text::own;

verus! {

/// Refuses every transaction: it would need root.
#[derive(Debug, Clone, Copy)]
pub struct TransactionHandler;

/// Whether a transaction was refused for want of root, with that explanation.
pub open spec fn is_refused(r: Result<Vec<Package>, Error>, reason: Seq<char>) -> bool {
    r matches Err(e) && e@ == ErrorModel::PermissionDenied(reason)
}

impl TransactionHandler {
    /// A handler.
    pub fn new() -> (h: TransactionHandler)
        ensures
            h == TransactionHandler,
    {
        TransactionHandler
    }

    /// Refuses to install packages.
    pub fn install(&self, _packages: &[String], _options: &OperationOptions) -> (r: Result<
        Vec<Package>,
        Error,
    >)
        ensures
            is_refused(r, "Package installation requires root privileges"@),
    {
        Err(Error::PermissionDenied(own("Package installation requires root privileges")))
    }

    /// Refuses to remove packages.
    pub fn remove(&self, _packages: &[String], _options: &OperationOptions) -> (r: Result<
        Vec<Package>,
        Error,
    >)
        ensures
            is_refused(r, "Package removal requires root privileges"@),
    {
        Err(Error::PermissionDenied(own("Package removal requires root privileges")))
    }

    /// Refuses to upgrade packages.
    pub fn upgrade(&self, _packages: &[String], _options: &OperationOptions) -> (r: Result<
        Vec<Package>,
        Error,
    >)
        ensures
            is_refused(r, "Package upgrade requires root privileges"@),
    {
        Err(Error::PermissionDenied(own("Package upgrade requires root privileges")))
    }

    /// Refuses to upgrade the system.
    pub fn sysupgrade(&self, _options: &OperationOptions) -> (r: Result<Vec<Package>, Error>)
        ensures
            is_refused(r, "System upgrade requires root privileges"@),
    {
        Err(Error::PermissionDenied(own("System upgrade requires root privileges")))
    }

    /// Refuses to bring the databases up to date.
    pub fn sync_dbs(&self) -> (r: Result<Vec<Package>, Error>)
        ensures
            is_refused(r, "Database sync requires root privileges"@),
    {
        Err(Error::PermissionDenied(own("Database sync requires root privileges")))
    }
}

impl Default for TransactionHandler {
    fn default() -> (h: TransactionHandler)
        ensures
            h == TransactionHandler,
    {
        TransactionHandler::new()
    }
}

} // verus!
