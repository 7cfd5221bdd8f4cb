//! Finding a removable volume by its label among the drives of a Windows
//! machine, which the caller has listed.

use vstd::prelude::*;
use crate::storage::error::StorageError;
use crate::storage::usb::not_mounted;

verus! {

/// A drive and the label of its volume.
#[derive(Debug)]
pub struct DriveInfo {
    pub path: String,
    pub label: String,
}

/// The path of the first of `drives` whose volume is labelled `label`.
pub open spec fn first_drive(drives: Seq<DriveInfo>, label: Seq<char>) -> Option<Seq<char>>
    decreases drives.len(),
{
    if drives.len() == 0 {
        None
    } else if drives[0].label@ == label {
        Some(drives[0].path@)
    } else {
        first_drive(drives.skip(1), label)
    }
}

/// Finds the drive whose volume is labelled `label`.
pub fn find_mount_by_label(drives: &Vec<DriveInfo>, label: &str) -> (r: Result<String, StorageError>)
    ensures
        match first_drive(drives@, label@) {
            Some(path) => r matches Ok(found) && found@ == path,
            None => r matches Err(StorageError::Internal(msg)) && msg@ == not_mounted(label@),
        },
{
    let wanted = String::from_str(label);
    let mut i: usize = 0;
    assert(drives@.skip(0) =~= drives@);
    while i < drives.len()
        invariant
            i <= drives.len(),
            wanted@ == label@,
            first_drive(drives@.skip(i as int), label@) == first_drive(drives@, label@),
        decreases drives.len() - i,
    {
        proof {
            assert(drives@.skip(i as int)[0] == drives@[i as int]);
            assert(drives@.skip(i as int).skip(1) =~= drives@.skip(i + 1));
        }
        if drives[i].label == wanted {
            return Ok(drives[i].path.clone());
        }
        i += 1;
    }
    Err(
        StorageError::Internal(
            String::from_str("device '").concat(label).concat("' not mounted"),
        ),
    )
}

} // verus!
