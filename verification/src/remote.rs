//! The remotes of Flatpak.
use vstd::prelude::*;

use crate::error::{Error, ErrorModel};
use crate::text::{own, same_text};

verus! {

/// A remote.
#[derive(Debug, Clone)]
pub struct RemoteInfo {
    pub name: String,
    pub title: String,
    pub url: String,
    pub enabled: bool,
    pub is_user: bool,
}

/// A remote as libflatpak gives it.
#[derive(Debug, Clone)]
pub struct RemoteRecord {
    pub name: Option<String>,
    pub title: Option<String>,
    pub url: Option<String>,
    pub disabled: bool,
}

/// A remote that is to be added.
#[derive(Debug, Clone)]
pub struct NewRemote {
    pub name: String,
    pub url: String,
    pub gpg_verify: bool,
    /// Whether an existing remote of the name is no error.
    pub if_needed: bool,
}

/// A change of a remote: its place in the list, and whether it is to be disabled.
#[derive(Debug, Clone, Copy)]
pub struct RemoteChange {
    pub index: usize,
    pub disabled: bool,
}

/// An optional text, empty where it is missing.
pub open spec fn text_or_empty(s: Option<String>) -> Seq<char> {
    match s {
        Some(t) => t@,
        None => seq![],
    }
}

fn or_empty(s: &Option<String>) -> (out: String)
    ensures
        out@ == text_or_empty(*s),
{
    match s {
        Some(t) => own(t.as_str()),
        None => String::new(),
    }
}

/// Whether `info` is what is shown of a remote. A remote counts as the user's where its
/// installation is not.
pub open spec fn is_shown_as(r: RemoteRecord, installation_is_user: bool, info: RemoteInfo) -> bool {
    &&& info.name@ == text_or_empty(r.name)
    &&& info.title@ == text_or_empty(r.title)
    &&& info.url@ == text_or_empty(r.url)
    &&& info.enabled == !r.disabled
    &&& info.is_user == !installation_is_user
}

/// Whether a remote has a name.
pub open spec fn has_name(r: RemoteRecord, name: Seq<char>) -> bool {
    match r.name {
        Some(n) => n@ == name,
        None => false,
    }
}

/// Lists and changes remotes, given what libflatpak answers. An error of libflatpak is its text.
#[derive(Debug, Clone, Copy)]
pub struct RemoteManager;

impl RemoteManager {
    /// A manager.
    pub fn new() -> (m: RemoteManager)
        ensures
            m == RemoteManager,
    {
        RemoteManager
    }

    /// The remotes of an installation.
    pub fn list_remotes(
        &self,
        remotes: Result<Vec<RemoteRecord>, String>,
        installation_is_user: bool,
    ) -> (r: Result<Vec<RemoteInfo>, Error>)
        ensures
            match remotes {
                Ok(list) => r matches Ok(infos) && infos@.len() == list@.len() && forall|i: int|
                    0 <= i < list@.len() ==> is_shown_as(
                        list@[i],
                        installation_is_user,
                        #[trigger] infos@[i],
                    ),
                Err(e) => r matches Err(x) && x@ == ErrorModel::DatabaseError(e@),
            },
    {
        match remotes {
            Ok(list) => {
                let mut infos: Vec<RemoteInfo> = Vec::new();
                for i in 0..list.len()
                    invariant
                        infos@.len() == i,
                        forall|j: int|
                            0 <= j < i ==> is_shown_as(
                                list@[j],
                                installation_is_user,
                                #[trigger] infos@[j],
                            ),
                {
                    infos.push(
                        RemoteInfo {
                            name: or_empty(&list[i].name),
                            title: or_empty(&list[i].title),
                            url: or_empty(&list[i].url),
                            enabled: !list[i].disabled,
                            is_user: !installation_is_user,
                        },
                    );
                }
                Ok(infos)
            },
            Err(e) => Err(Error::DatabaseError(e)),
        }
    }

    /// The remote to be added for a name and an address: its signatures are checked.
    pub fn remote_to_add(&self, name: &str, url: &str) -> (r: NewRemote)
        ensures
            r.name@ == name@,
            r.url@ == url@,
            r.gpg_verify,
            r.if_needed,
    {
        NewRemote { name: own(name), url: own(url), gpg_verify: true, if_needed: true }
    }

    /// The result of adding a remote.
    pub fn add_remote(&self, outcome: Result<(), String>) -> (r: Result<(), Error>)
        ensures
            match outcome {
                Ok(_) => r is Ok,
                Err(e) => r matches Err(x) && x@ == ErrorModel::TransactionError(e@),
            },
    {
        match outcome {
            Ok(_) => Ok(()),
            Err(e) => Err(Error::TransactionError(e)),
        }
    }

    /// The result of removing a remote.
    pub fn remove_remote(&self, outcome: Result<(), String>) -> (r: Result<(), Error>)
        ensures
            match outcome {
                Ok(_) => r is Ok,
                Err(e) => r matches Err(x) && x@ == ErrorModel::TransactionError(e@),
            },
    {
        match outcome {
            Ok(_) => Ok(()),
            Err(e) => Err(Error::TransactionError(e)),
        }
    }

    /// The change that enables or disables the first remote of a name.
    pub fn change_for(
        &self,
        remotes: &Result<Vec<RemoteRecord>, String>,
        name: &str,
        enabled: bool,
    ) -> (r: Result<RemoteChange, Error>)
        ensures
            match *remotes {
                Ok(list) => match r {
                    Ok(c) => {
                        &&& c.index < list@.len()
                        &&& has_name(list@[c.index as int], name@)
                        &&& forall|j: int| 0 <= j < c.index ==> !has_name(#[trigger] list@[j], name@)
                        &&& c.disabled == !enabled
                    },
                    Err(x) => {
                        &&& forall|j: int|
                            0 <= j < list@.len() ==> !has_name(#[trigger] list@[j], name@)
                        &&& x@ == ErrorModel::Other("Remote not found: "@ + name@)
                    },
                },
                Err(e) => r matches Err(x) && x@ == ErrorModel::DatabaseError(e@),
            },
    {
        match remotes {
            Ok(list) => {
                for i in 0..list.len()
                    invariant
                        forall|j: int| 0 <= j < i ==> !has_name(#[trigger] list@[j], name@),
                        *remotes == Ok::<Vec<RemoteRecord>, String>(*list),
                {
                    if let Some(n) = &list[i].name {
                        if same_text(n.as_str(), name) {
                            return Ok(RemoteChange { index: i, disabled: !enabled });
                        }
                    }
                }
                let mut message = own("Remote not found: ");
                message.append(name);
                Err(Error::Other(message))
            },
            Err(e) => Err(Error::DatabaseError(own(e.as_str()))),
        }
    }

    /// The result of enabling or disabling a remote, given that of finding it and, where it was
    /// found, that of changing it.
    pub fn set_remote_enabled(
        &self,
        change: Result<RemoteChange, Error>,
        outcome: Result<(), String>,
    ) -> (r: Result<(), Error>)
        ensures
            match (change, outcome) {
                (Err(e), _) => r == Err::<(), Error>(e),
                (Ok(_), Ok(_)) => r is Ok,
                (Ok(_), Err(e)) => r matches Err(x) && x@ == ErrorModel::TransactionError(e@),
            },
    {
        match change {
            Ok(_) => match outcome {
                Ok(_) => Ok(()),
                Err(e) => Err(Error::TransactionError(e)),
            },
            Err(e) => Err(e),
        }
    }

    /// The result of updating the metadata of a remote.
    pub fn update_remote(&self, outcome: Result<(), String>) -> (r: Result<(), Error>)
        ensures
            match outcome {
                Ok(_) => r is Ok,
                Err(e) => r matches Err(x) && x@ == ErrorModel::NetworkError(e@),
            },
    {
        match outcome {
            Ok(_) => Ok(()),
            Err(e) => Err(Error::NetworkError(e)),
        }
    }
}

impl Default for RemoteManager {
    fn default() -> (m: RemoteManager)
        ensures
            m == RemoteManager,
    {
        RemoteManager::new()
    }
}

} // verus!
