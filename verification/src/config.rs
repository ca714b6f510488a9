//! Mount configuration: the plain values that name a mount and say where
//! it lives. Credential storage serializes a copy of this record; the
//! password itself is never part of it.

use vstd::prelude::*;

verus! {

/// One configured mount: its name, the server url, the account user
/// name, and the local mount point path.
#[derive(Debug)]
pub struct MountConfig {
    pub name: String,
    pub url: String,
    pub username: String,
    pub mount_point: String,
}

impl Clone for MountConfig {
    fn clone(&self) -> (r: Self)
        ensures
            r == *self,
    {
        MountConfig {
            name: self.name.clone(),
            url: self.url.clone(),
            username: self.username.clone(),
            mount_point: self.mount_point.clone(),
        }
    }
}

} // verus!
