//! The Permissions and Persistent-ACL elements, which the parser keeps as
//! it finds them and which are decoded here on demand.

use crate::bytes::{read_u16, read_u32, read_u64, u16_at, u32_at, u64_at};
use crate::tbf::types::{TbfHeader, TbfTlvSpan, TbfTlvSpanView, TLV_PERMISSIONS, TLV_PERSISTENT_ACL};
use vstd::prelude::*;

verus! {

/// The commands of one driver that an application may use: the driver, and
/// a mask of 64 commands that starts at command `64 * offset`.
#[derive(Clone, Copy, Debug, PartialEq, Eq, Structural)]
pub struct TbfHeaderDriverPermission {
    pub driver_number: u32,
    pub offset: u32,
    pub allowed_commands: u64,
}

/// The persistent storage that an application may use: the identifier it
/// writes under, if it is not zero, and the identifiers whose data it may
/// read and modify.
#[derive(Clone, Debug)]
pub struct TbfHeaderV2StoragePermissions {
    pub write_id: u32,
    pub read_ids: Vec<u32>,
    pub modify_ids: Vec<u32>,
}

/// What a `TbfHeaderV2StoragePermissions` holds, as mathematical values.
#[verifier::ext_equal]
pub struct TbfHeaderV2StoragePermissionsView {
    pub write_id: u32,
    pub read_ids: Seq<u32>,
    pub modify_ids: Seq<u32>,
}

impl View for TbfHeaderV2StoragePermissions {
    type V = TbfHeaderV2StoragePermissionsView;

    open spec fn view(&self) -> TbfHeaderV2StoragePermissionsView {
        TbfHeaderV2StoragePermissionsView {
            write_id: self.write_id,
            read_ids: self.read_ids@,
            modify_ids: self.modify_ids@,
        }
    }
}

/// The value of the last element of type `tipe` among `other`, if there is
/// one.
pub open spec fn spec_last_of_type(other: Seq<TbfTlvSpanView>, tipe: u16) -> Option<Seq<u8>>
    decreases other.len(),
{
    if other.len() == 0 {
        None
    } else if other.last().tipe == tipe {
        Some(other.last().value)
    } else {
        spec_last_of_type(other.drop_last(), tipe)
    }
}

/// The permission of index `i` in the value of a Permissions element.
pub open spec fn spec_permission(value: Seq<u8>, i: int) -> TbfHeaderDriverPermission {
    TbfHeaderDriverPermission {
        driver_number: u32_at(value, 2 + 16 * i),
        offset: u32_at(value, 2 + 16 * i + 4),
        allowed_commands: u64_at(value, 2 + 16 * i + 8),
    }
}

/// What the value of a Permissions element says: a count in two bytes, then
/// that many permissions of sixteen bytes each. Nothing if the value is too
/// short for what it announces.
pub open spec fn spec_permissions(value: Seq<u8>) -> Option<Seq<TbfHeaderDriverPermission>> {
    if value.len() < 2 || 2 + 16 * u16_at(value, 0) > value.len() {
        None
    } else {
        Some(Seq::new(u16_at(value, 0) as nat, |i: int| spec_permission(value, i)))
    }
}

/// The `count` identifiers of four bytes each that start at `at`.
pub open spec fn spec_ids(value: Seq<u8>, at: int, count: nat) -> Seq<u32> {
    Seq::new(count, |i: int| u32_at(value, at + 4 * i))
}

/// What the value of a Persistent-ACL element says: the identifier to write
/// under in four bytes, the number of identifiers to read in two, those
/// identifiers, the number of identifiers to modify in two, and those.
/// Nothing if the value is too short for what it announces.
pub open spec fn spec_storage_permissions(value: Seq<u8>) -> Option<
    TbfHeaderV2StoragePermissionsView,
> {
    if value.len() < 6 {
        None
    } else {
        let reads = u16_at(value, 4) as int;
        if 6 + 4 * reads + 2 > value.len() {
            None
        } else {
            let modifies = u16_at(value, 6 + 4 * reads) as int;
            if 8 + 4 * reads + 4 * modifies > value.len() {
                None
            } else {
                Some(
                    TbfHeaderV2StoragePermissionsView {
                        write_id: u32_at(value, 0),
                        read_ids: spec_ids(value, 6, reads as nat),
                        modify_ids: spec_ids(value, 8 + 4 * reads, modifies as nat),
                    },
                )
            }
        }
    }
}

/// Reads `count` identifiers of four bytes each from `at` on.
fn read_ids(value: &[u8], at: usize, count: usize) -> (ids: Vec<u32>)
    requires
        at + 4 * count <= value.len(),
    ensures
        ids@ == spec_ids(value@, at as int, count as nat),
{
    let mut ids: Vec<u32> = Vec::new();
    let mut i: usize = 0;
    while i < count
        invariant
            i <= count,
            at + 4 * count <= value.len(),
            ids@ == spec_ids(value@, at as int, i as nat),
        decreases count - i,
    {
        ids.push(read_u32(value, at + 4 * i));
        i = i + 1;
        assert(ids@ =~= spec_ids(value@, at as int, i as nat));
    }
    ids
}

/// Decodes the value of a Permissions element.
pub fn decode_permissions(value: &[u8]) -> (r: Option<Vec<TbfHeaderDriverPermission>>)
    ensures
        match r {
            Some(permissions) => spec_permissions(value@) == Some(permissions@),
            None => spec_permissions(value@) is None,
        },
{
    if value.len() < 2 {
        return None;
    }
    let count: usize = read_u16(value, 0) as usize;
    if (value.len() - 2) / 16 < count {
        return None;
    }
    let mut permissions: Vec<TbfHeaderDriverPermission> = Vec::new();
    let mut i: usize = 0;
    while i < count
        invariant
            i <= count,
            2 + 16 * count <= value.len(),
            permissions@ == Seq::new(i as nat, |k: int| spec_permission(value@, k)),
        decreases count - i,
    {
        let permission = TbfHeaderDriverPermission {
            driver_number: read_u32(value, 2 + 16 * i),
            offset: read_u32(value, 2 + 16 * i + 4),
            allowed_commands: read_u64(value, 2 + 16 * i + 8),
        };
        permissions.push(permission);
        i = i + 1;
        assert(permissions@ =~= Seq::new(i as nat, |k: int| spec_permission(value@, k)));
    }
    Some(permissions)
}

/// Decodes the value of a Persistent-ACL element.
pub fn decode_storage_permissions(value: &[u8]) -> (r: Option<TbfHeaderV2StoragePermissions>)
    ensures
        match r {
            Some(permissions) => spec_storage_permissions(value@) == Some(permissions@),
            None => spec_storage_permissions(value@) is None,
        },
{
    if value.len() < 6 {
        return None;
    }
    let reads: usize = read_u16(value, 4) as usize;
    if value.len() - 6 < 4 * reads + 2 {
        return None;
    }
    let modifies: usize = read_u16(value, 6 + 4 * reads) as usize;
    if value.len() - (8 + 4 * reads) < 4 * modifies {
        return None;
    }
    let permissions = TbfHeaderV2StoragePermissions {
        write_id: read_u32(value, 0),
        read_ids: read_ids(value, 6, reads),
        modify_ids: read_ids(value, 8 + 4 * reads, modifies),
    };
    assert(permissions@ =~= spec_storage_permissions(value@)->Some_0);
    Some(permissions)
}

/// Finds the last element of type `tipe` among `other`.
fn last_of_type(other: &Vec<TbfTlvSpan>, tipe: u16) -> (found: Option<usize>)
    ensures
        match found {
            Some(i) => i < other@.len() && spec_last_of_type(
                Seq::new(other@.len(), |k: int| other@[k]@),
                tipe,
            ) == Some(other@[i as int].value@),
            None => spec_last_of_type(Seq::new(other@.len(), |k: int| other@[k]@), tipe) is None,
        },
{
    let ghost all = Seq::new(other@.len(), |k: int| other@[k]@);
    let mut end: usize = other.len();
    assert(all.take(end as int) =~= all);
    while end > 0
        invariant
            end <= other@.len(),
            all == Seq::new(other@.len(), |k: int| other@[k]@),
            spec_last_of_type(all.take(end as int), tipe) == spec_last_of_type(all, tipe),
        decreases end,
    {
        if other[end - 1].tipe == tipe {
            return Some(end - 1);
        }
        proof {
            assert(all.take(end as int).drop_last() =~= all.take(end - 1));
        }
        end = end - 1;
    }
    None
}

impl TbfHeader {
    /// The commands of drivers that the application may use, if the header
    /// says so in a well-formed Permissions element. Of several such
    /// elements the last counts.
    pub fn get_permissions(&self) -> (r: Option<Vec<TbfHeaderDriverPermission>>)
        ensures
            match r {
                Some(permissions) => spec_last_of_type(self@.elements.other, TLV_PERMISSIONS)
                    matches Some(value) && spec_permissions(value) == Some(permissions@),
                None => spec_last_of_type(self@.elements.other, TLV_PERMISSIONS) matches Some(
                    value,
                ) ==> spec_permissions(value) is None,
            },
    {
        match last_of_type(&self.elements.other, TLV_PERMISSIONS) {
            None => None,
            Some(i) => decode_permissions(self.elements.other[i].value.as_slice()),
        }
    }

    /// The persistent storage that the application may use, if the header
    /// says so in a well-formed Persistent-ACL element. Of several such
    /// elements the last counts.
    pub fn get_storage_permissions(&self) -> (r: Option<TbfHeaderV2StoragePermissions>)
        ensures
            match r {
                Some(permissions) => spec_last_of_type(self@.elements.other, TLV_PERSISTENT_ACL)
                    matches Some(value) && spec_storage_permissions(value) == Some(
                    permissions@,
                ),
                None => spec_last_of_type(self@.elements.other, TLV_PERSISTENT_ACL)
                    matches Some(value) ==> spec_storage_permissions(value) is None,
            },
    {
        match last_of_type(&self.elements.other, TLV_PERSISTENT_ACL) {
            None => None,
            Some(i) => decode_storage_permissions(self.elements.other[i].value.as_slice()),
        }
    }
}

} // verus!
