//! exFAT constants: directory entry types and what their bits mean.

use vstd::prelude::*;

verus! {

/// Bit 7 of the entry type byte, `InUse`.
///
/// Clearing it is the *entire* delete operation in exFAT: the other 31 bytes of
/// the record are left alone, which is why a deleted entry set still holds a
/// readable filename.
pub const IN_USE: u8 = 0x80;

pub const ALLOCATION_BITMAP: u8 = 0x81;
pub const UPCASE_TABLE: u8 = 0x82;
pub const VOLUME_LABEL: u8 = 0x83;
pub const FILE: u8 = 0x85;
pub const VOLUME_GUID: u8 = 0xA0;
pub const TEXFAT_PADDING: u8 = 0xA1;
pub const WINCE_ACL: u8 = 0xA2;
pub const STREAM_EXTENSION: u8 = 0xC0;
pub const FILE_NAME: u8 = 0xC1;
pub const VENDOR_EXTENSION: u8 = 0xC2;
pub const VENDOR_ALLOCATION: u8 = 0xC3;
/// A zero entry type ends the directory. Everything at or after it is unallocated,
/// which is exactly where deleted records survive longest.
pub const END_OF_DIRECTORY: u8 = 0x00;

/// The type byte of a record, in use or deleted, rather than of arbitrary data: its
/// code, the low five bits, is not zero, or it is one of the two named types whose
/// code is.
pub open spec fn plausible(t: u8) -> bool {
    t % 32 != 0 || restored(t) == VOLUME_GUID || restored(t) == STREAM_EXTENSION
}

/// True when the byte can be the type of a record, in use or deleted.
pub fn is_plausible(t: u8) -> (r: bool)
    ensures
        r == plausible(t),
{
    t % 32 != 0 || undeleted(t) == VOLUME_GUID || undeleted(t) == STREAM_EXTENSION
}

/// `InUse` is set.
pub open spec fn in_use(t: u8) -> bool {
    t >= 0x80
}

/// `t` with `InUse` set.
pub open spec fn restored(t: u8) -> u8 {
    if t >= 0x80 {
        t
    } else {
        (t + 0x80) as u8
    }
}

/// True when the record is live.
pub fn is_in_use(t: u8) -> (r: bool)
    ensures
        r == in_use(t),
{
    assert(t & 0x80 != 0 <==> t >= 0x80) by (bit_vector);
    t & IN_USE != 0
}

/// The type this entry had before someone cleared `InUse`. Meaningless for 0x00.
pub fn undeleted(t: u8) -> (r: u8)
    ensures
        r == restored(t),
{
    assert(t | 0x80 == if t >= 0x80 { t } else { (t + 0x80) as u8 }) by (bit_vector);
    t | IN_USE
}

/// Bit 6 tells a primary entry (clear) from a secondary one (set), live or deleted.
pub fn is_secondary(t: u8) -> (r: bool)
    ensures
        r <==> (t / 64) % 2 == 1,
{
    assert((t | 0x80) & 0x40 != 0 <==> (t / 64) % 2 == 1) by (bit_vector);
    assert(t | 0x80 == if t >= 0x80 { t } else { (t + 0x80) as u8 }) by (bit_vector);
    undeleted(t) & 0x40 != 0
}

/// Bit 5 clear means a driver may not mount a volume on which it does not
/// understand this entry; set means it may safely ignore it.
pub fn is_benign(t: u8) -> (r: bool)
    ensures
        r <==> (t / 32) % 2 == 1,
{
    assert((t | 0x80) & 0x20 != 0 <==> (t / 32) % 2 == 1) by (bit_vector);
    assert(t | 0x80 == if t >= 0x80 { t } else { (t + 0x80) as u8 }) by (bit_vector);
    undeleted(t) & 0x20 != 0
}

/// Deleting a record clears `InUse` and nothing else, so the type it had can be
/// told from the type it has, and so can its category and its importance.
pub proof fn lemma_delete_is_one_bit(t: u8)
    requires
        in_use(t),
    ensures
        !in_use((t - 0x80) as u8),
        restored((t - 0x80) as u8) == t,
        (((t - 0x80) as u8) / 64) % 2 == (t / 64) % 2,
        (((t - 0x80) as u8) / 32) % 2 == (t / 32) % 2,
{
}

/// The name of every entry type that has one, live and deleted. The deleted
/// spellings are listed on their own: a record shown as "unknown" when it is a
/// deleted file hides the one thing worth seeing.
pub open spec fn entry_type_name(t: u8) -> &'static str {
    if t == 0x00 {
        "end of directory"
    } else if t == 0x01 {
        "deleted allocation bitmap"
    } else if t == 0x02 {
        "deleted up-case table"
    } else if t == 0x03 {
        "deleted volume label"
    } else if t == 0x05 {
        "deleted file"
    } else if t == 0x20 {
        "deleted volume GUID"
    } else if t == 0x40 {
        "deleted stream extension"
    } else if t == 0x41 {
        "deleted file name"
    } else if t == 0x81 {
        "allocation bitmap"
    } else if t == 0x82 {
        "up-case table"
    } else if t == 0x83 {
        "volume label"
    } else if t == 0x85 {
        "file"
    } else if t == 0xA0 {
        "volume GUID"
    } else if t == 0xA1 {
        "TexFAT padding"
    } else if t == 0xA2 {
        "Windows CE access control"
    } else if t == 0xC0 {
        "stream extension"
    } else if t == 0xC1 {
        "file name"
    } else if t == 0xC2 {
        "vendor extension"
    } else if t == 0xC3 {
        "vendor allocation"
    } else {
        "unknown entry type"
    }
}

/// A label for any entry type byte.
pub fn entry_type_label(t: u8) -> (r: &'static str)
    ensures
        r@ == entry_type_name(t)@,
{
    match t {
        0x00 => "end of directory",
        0x01 => "deleted allocation bitmap",
        0x02 => "deleted up-case table",
        0x03 => "deleted volume label",
        0x05 => "deleted file",
        0x20 => "deleted volume GUID",
        0x40 => "deleted stream extension",
        0x41 => "deleted file name",
        0x81 => "allocation bitmap",
        0x82 => "up-case table",
        0x83 => "volume label",
        0x85 => "file",
        0xA0 => "volume GUID",
        0xA1 => "TexFAT padding",
        0xA2 => "Windows CE access control",
        0xC0 => "stream extension",
        0xC1 => "file name",
        0xC2 => "vendor extension",
        0xC3 => "vendor allocation",
        _ => "unknown entry type",
    }
}

} // verus!
