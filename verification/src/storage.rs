//! The catalog and everything that reconciles it with the file system.

use vstd::prelude::*;
use crate::config::Location;
use crate::storage::error::StorageError;
use crate::storage::usb::{find_mount_by_label, first_mount, lines_of};
use crate::text::chars_of;

pub mod catalog;
pub mod db;
pub mod error;
pub mod fs;
pub mod operations;
pub mod reconcile;
pub mod usb;

verus! {

/// `rel` taken from `base` on: `rel` itself where it is absolute, else
/// `base` and `rel` with one `/` between them.
pub open spec fn joined(base: Seq<char>, rel: Seq<char>) -> Seq<char> {
    if rel.len() > 0 && rel[0] == '/' {
        rel
    } else if base.len() == 0 || base.last() == '/' {
        base + rel
    } else {
        base + seq!['/'] + rel
    }
}

/// `joined`, computed.
pub fn join_paths(base: &str, rel: &str) -> (path: String)
    ensures
        path@ == joined(base@, rel@),
{
    let b = chars_of(base);
    let r = chars_of(rel);
    if r.len() > 0 && r[0] == '/' {
        String::from_str(rel)
    } else if b.len() == 0 || b[b.len() - 1] == '/' {
        String::from_str(base).concat(rel)
    } else {
        proof {
            reveal_strlit("/");
            assert("/"@ =~= seq!['/']);
        }
        String::from_str(base).concat("/").concat(rel)
    }
}

/// The message for a volume that is not mounted.
pub open spec fn usb_not_found(label: Seq<char>) -> Seq<char> {
    "USB with label '"@ + label + "' not found"@
}

/// The path that a location stands for, given the table of mounts: the path
/// of a plain location; for a location on a labelled volume, its path taken
/// from the mount point of the volume on.
pub open spec fn resolved(location: Location, mounts: Seq<char>) -> Option<Seq<char>> {
    match location {
        Location::File { path } => Some(path@),
        Location::Usb { label, path } => match first_mount(lines_of(mounts), label@) {
            Some(mount) => Some(joined(mount, path@)),
            None => None,
        },
    }
}

/// Finds the path that a location stands for. `mounts` is the table of
/// mounts, as `find_mount_by_label` reads it.
pub fn resolve_location(location: &Location, mounts: &str) -> (r: Result<String, StorageError>)
    ensures
        match resolved(*location, mounts@) {
            Some(path) => r matches Ok(found) && found@ == path,
            None => r matches Err(StorageError::Internal(msg)) && location matches Location::Usb {
                label,
                ..
            } && msg@ == usb_not_found(label@),
        },
{
    match location {
        Location::File { path } => Ok(path.clone()),
        Location::Usb { label, path } => match find_mount_by_label(mounts, label.as_str()) {
            Ok(mount) => Ok(join_paths(mount.as_str(), path.as_str())),
            Err(_) => Err(
                StorageError::Internal(
                    String::from_str("USB with label '").concat(label.as_str()).concat(
                        "' not found",
                    ),
                ),
            ),
        },
    }
}

/// A location as text: its path, with `USB(label)/` in front for a
/// location on a labelled volume.
pub open spec fn location_text(location: Location) -> Seq<char> {
    match location {
        Location::File { path } => path@,
        Location::Usb { label, path } => "USB("@ + label@ + ")/"@ + path@,
    }
}

impl Location {
    /// The plain location at `p`.
    pub fn from_path(p: &str) -> (r: Location)
        ensures
            r matches Location::File { path } && path@ == p@,
    {
        Location::File { path: String::from_str(p) }
    }

    /// The location as text.
    pub fn to_text(&self) -> (text: String)
        ensures
            text@ == location_text(*self),
    {
        match self {
            Location::File { path } => path.clone(),
            Location::Usb { label, path } => String::from_str("USB(").concat(label.as_str()).concat(
                ")/",
            ).concat(path.as_str()),
        }
    }
}

} // verus!
