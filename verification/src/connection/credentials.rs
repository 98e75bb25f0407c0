//! Credentials of the peers of connections.

use vstd::prelude::*;

use rustix::fd::OwnedFd;
use rustix::process::{Gid, Pid, Uid};

verus! {

/// A numeric Unix user ID.
#[verifier::external_type_specification]
#[verifier::external_body]
pub struct ExUid(rustix::process::Uid);

/// A numeric Unix group ID.
#[verifier::external_type_specification]
#[verifier::external_body]
pub struct ExGid(rustix::process::Gid);

/// A numeric process ID.
#[verifier::external_type_specification]
#[verifier::external_body]
pub struct ExPid(rustix::process::Pid);

/// A file descriptor.
#[verifier::external_type_specification]
#[verifier::external_body]
pub struct ExOwnedFd(rustix::fd::OwnedFd);

/// Credentials that are passed over a socket.
#[derive(Debug)]
pub struct PassedCredentials {
    unix_user_id: Uid,
    unix_primary_group_id: Gid,
    process_id: Pid,
}

impl PassedCredentials {
    /// The user ID.
    pub closed spec fn uid(self) -> Uid {
        self.unix_user_id
    }

    /// The primary group ID.
    pub closed spec fn gid(self) -> Gid {
        self.unix_primary_group_id
    }

    /// The process ID.
    pub closed spec fn pid(self) -> Pid {
        self.process_id
    }

    /// Credentials of a user, a group and a process.
    pub fn new(unix_user_id: Uid, unix_primary_group_id: Gid, process_id: Pid) -> (r: Self)
        ensures
            r.uid() == unix_user_id,
            r.gid() == unix_primary_group_id,
            r.pid() == process_id,
    {
        PassedCredentials { unix_user_id, unix_primary_group_id, process_id }
    }

    /// The numeric Unix user ID.
    pub fn unix_user_id(&self) -> (r: Uid)
        ensures
            r == self.uid(),
    {
        self.unix_user_id
    }

    /// The numeric process ID.
    pub fn process_id(&self) -> (r: Pid)
        ensures
            r == self.pid(),
    {
        self.process_id
    }

    /// The numeric Unix group ID.
    pub fn unix_primary_group_id(&self) -> (r: Gid)
        ensures
            r == self.gid(),
    {
        self.unix_primary_group_id
    }
}

/// Supplementary groups, where they are known.
pub open spec fn groups_view(groups: Option<Vec<Gid>>) -> Option<Seq<Gid>> {
    match groups {
        Some(groups) => Some(groups@),
        None => None,
    }
}

/// Credentials of the peer of a connection.
#[derive(Debug)]
pub struct Credentials {
    basic: PassedCredentials,
    unix_supplementary_group_ids: Option<Vec<Gid>>,
    process_fd: Option<OwnedFd>,
}

impl Credentials {
    /// The user, the primary group and the process.
    pub closed spec fn passed(self) -> PassedCredentials {
        self.basic
    }

    /// The supplementary groups, where they are known.
    pub closed spec fn groups(self) -> Option<Seq<Gid>> {
        groups_view(self.unix_supplementary_group_ids)
    }

    /// The descriptor that pins the process, where there is one.
    pub closed spec fn fd(self) -> Option<OwnedFd> {
        self.process_fd
    }

    /// Credentials of a peer. Only on Linux are the supplementary groups known, and is there a
    /// descriptor that pins the process.
    pub fn new(
        basic: PassedCredentials,
        unix_supplementary_group_ids: Option<Vec<Gid>>,
        process_fd: Option<OwnedFd>,
    ) -> (r: Self)
        ensures
            r.passed() == basic,
            r.groups() == groups_view(unix_supplementary_group_ids),
            r.fd() == process_fd,
    {
        Credentials { basic, unix_supplementary_group_ids, process_fd }
    }

    /// The numeric Unix user ID.
    pub fn unix_user_id(&self) -> (r: Uid)
        ensures
            r == self.passed().uid(),
    {
        self.basic.unix_user_id()
    }

    /// The numeric process ID.
    pub fn process_id(&self) -> (r: Pid)
        ensures
            r == self.passed().pid(),
    {
        self.basic.process_id()
    }

    /// The numeric Unix group ID.
    pub fn unix_primary_group_id(&self) -> (r: Gid)
        ensures
            r == self.passed().gid(),
    {
        self.basic.unix_primary_group_id()
    }

    /// The numeric supplementary Unix group IDs, where they are known.
    pub fn unix_supplementary_group_ids(&self) -> (r: Option<&[Gid]>)
        ensures
            match r {
                Some(groups) => self.groups() == Some(groups@),
                None => self.groups() is None,
            },
    {
        match &self.unix_supplementary_group_ids {
            Some(groups) => Some(groups.as_slice()),
            None => None,
        }
    }

    /// A descriptor that pins the process, where there is one: unlike a process ID it cannot be
    /// recycled.
    pub fn process_fd(&self) -> (r: Option<&OwnedFd>)
        ensures
            match r {
                Some(fd) => self.fd() == Some(*fd),
                None => self.fd() is None,
            },
    {
        match &self.process_fd {
            Some(fd) => Some(fd),
            None => None,
        }
    }
}

} // verus!
