//! Well-known GPT partition type GUIDs.
//!
//! A type GUID is genuinely unique, since vendors mint their own, so this table is a
//! naming convenience and never an authority. An unrecognised GUID still shows as a
//! GUID.

use crate::common;
use crate::text;
use crate::text::Text;
use vstd::prelude::*;

verus! {

// ------------------------------------------------------------------------ GUIDs

/// The 16 on-disk bytes of a GUID, written the way a human reads it.
///
/// GPT stores a GUID mixed-endian: the first three groups are little-endian, the last
/// two are stored in the order they are printed. Of `node`, 48 bits count.
pub open spec fn guid_bytes(d1: u32, d2: u16, d3: u16, d4: u16, node: u64) -> Seq<u8> {
    seq![
        (d1 % 0x100) as u8,
        (d1 / 0x100 % 0x100) as u8,
        (d1 / 0x1_0000 % 0x100) as u8,
        (d1 / 0x100_0000 % 0x100) as u8,
        (d2 % 0x100) as u8,
        (d2 / 0x100) as u8,
        (d3 % 0x100) as u8,
        (d3 / 0x100) as u8,
        (d4 / 0x100) as u8,
        (d4 % 0x100) as u8,
        (node / 0x100_0000_0000 % 0x100) as u8,
        (node / 0x1_0000_0000 % 0x100) as u8,
        (node / 0x100_0000 % 0x100) as u8,
        (node / 0x1_0000 % 0x100) as u8,
        (node / 0x100 % 0x100) as u8,
        (node % 0x100) as u8,
    ]
}

/// The 16 on-disk bytes of a GUID.
pub fn guid(d1: u32, d2: u16, d3: u16, d4: u16, node: u64) -> (r: [u8; 16])
    ensures
        r@ == guid_bytes(d1, d2, d3, d4, node),
{
    let r: [u8; 16] = [
        (d1 % 0x100) as u8,
        (d1 / 0x100 % 0x100) as u8,
        (d1 / 0x1_0000 % 0x100) as u8,
        (d1 / 0x100_0000 % 0x100) as u8,
        (d2 % 0x100) as u8,
        (d2 / 0x100) as u8,
        (d3 % 0x100) as u8,
        (d3 / 0x100) as u8,
        (d4 / 0x100) as u8,
        (d4 % 0x100) as u8,
        (node / 0x100_0000_0000 % 0x100) as u8,
        (node / 0x1_0000_0000 % 0x100) as u8,
        (node / 0x100_0000 % 0x100) as u8,
        (node / 0x1_0000 % 0x100) as u8,
        (node / 0x100 % 0x100) as u8,
        (node % 0x100) as u8,
    ];
    assert(r@ =~= guid_bytes(d1, d2, d3, d4, node));
    r
}

/// The first three groups of a GUID read back little-endian, the fourth big-endian.
pub proof fn lemma_guid_is_mixed_endian(d1: u32, d2: u16, d3: u16, d4: u16, node: u64)
    ensures
        guid_bytes(d1, d2, d3, d4, node).len() == 16,
        common::le32(guid_bytes(d1, d2, d3, d4, node), 0) == d1,
        common::le16(guid_bytes(d1, d2, d3, d4, node), 4) == d2,
        common::le16(guid_bytes(d1, d2, d3, d4, node), 6) == d3,
        0x100 * guid_bytes(d1, d2, d3, d4, node)[8] + guid_bytes(d1, d2, d3, d4, node)[9] == d4,
{
}

/// A GUID in its usual written form.
pub open spec fn guid_text(g: Seq<u8>) -> Seq<char> {
    text::hex_small_bare(common::le32(g, 0) as int, 8) + "-"@ + text::hex_small_bare(
        common::le16(g, 4) as int,
        4,
    ) + "-"@ + text::hex_small_bare(common::le16(g, 6) as int, 4) + "-"@ + text::hex_small_bare(
        0x100 * g[8] + g[9],
        4,
    ) + "-"@ + text::hex_small_bare(
        0x100_0000_0000 * g[10] + 0x1_0000_0000 * g[11] + 0x100_0000 * g[12] + 0x1_0000 * g[13]
            + 0x100 * g[14] + g[15],
        12,
    )
}

/// Write a GUID in its usual form.
pub fn format_guid(g: &[u8]) -> (r: String)
    requires
        g@.len() == 16,
    ensures
        r@ == guid_text(g@),
{
    let d1: u64 = common::u32_or_zero(g, 0) as u64;
    let d2: u64 = common::u16_or_zero(g, 4) as u64;
    let d3: u64 = common::u16_or_zero(g, 6) as u64;
    let d4: u64 = 0x100 * (g[8] as u64) + g[9] as u64;
    let node: u64 = 0x100_0000_0000 * (g[10] as u64) + 0x1_0000_0000 * (g[11] as u64) + 0x100_0000
        * (g[12] as u64) + 0x1_0000 * (g[13] as u64) + 0x100 * (g[14] as u64) + g[15] as u64;
    proof {
        reveal_strlit("");
    }
    let t = Text::of("").hex_small_bare(d1, 8).lit("-").hex_small_bare(d2, 4).lit(
        "-",
    ).hex_small_bare(d3, 4).lit("-").hex_small_bare(d4, 4).lit("-").hex_small_bare(node, 12);
    assert(t@ =~= guid_text(g@));
    t.done()
}

/// An entry that has never been used, or has been released.
pub const UNUSED: [u8; 16] = [0, 0, 0, 0, 0, 0, 0, 0, 0, 0, 0, 0, 0, 0, 0, 0];

/// The EFI System Partition.
pub const EFI_SYSTEM: [u8; 16] = [0x28, 0x73, 0x2A, 0xC1, 0x1F, 0xF8, 0xD2, 0x11, 0xBA, 0x4B, 0x00, 0xA0, 0xC9, 0x3E, 0xC9, 0x3B];

/// The type every Windows volume and most removable media carry.
pub const MS_BASIC_DATA: [u8; 16] = [0xA2, 0xA0, 0xD0, 0xEB, 0xE5, 0xB9, 0x33, 0x44, 0x87, 0xC0, 0x68, 0xB6, 0xB7, 0x26, 0x99, 0xC7];

/// Generic Linux data.
pub const LINUX_FILESYSTEM: [u8; 16] = [0xAF, 0x3D, 0xC6, 0x0F, 0x83, 0x84, 0x72, 0x47, 0x8E, 0x79, 0x3D, 0x69, 0xD8, 0x47, 0x7D, 0xE4];

/// A LUKS container.
pub const LINUX_LUKS: [u8; 16] = [0xCB, 0x7C, 0x7D, 0xCA, 0xED, 0x63, 0x53, 0x4C, 0x86, 0x1C, 0x17, 0x42, 0x53, 0x60, 0x59, 0xCC];

/// Every byte of a GUID is zero.
pub open spec fn unused(g: Seq<u8>) -> bool {
    forall|i: int| 0 <= i < g.len() ==> #[trigger] g[i] == 0
}

/// True when the slot is declared unused. The name, the unique GUID and the sector
/// range may still hold a deleted partition.
pub fn is_unused(g: &[u8; 16]) -> (r: bool)
    ensures
        r == unused(g@),
{
    let mut i: usize = 0;
    while i < 16
        invariant
            i <= 16,
            forall|j: int| 0 <= j < i ==> #[trigger] g@[j] == 0,
        decreases 16 - i,
    {
        if g[i] != 0 {
            assert(g@[i as int] != 0);
            return false;
        }
        i += 1;
    }
    true
}

// ------------------------------------------------------------------------ types

/// A type GUID that has a name.
#[derive(Clone, Copy, Debug)]
pub struct TypeGuid {
    pub d1: u32,
    pub d2: u16,
    pub d3: u16,
    pub d4: u16,
    pub node: u64,
    pub label: &'static str,
    pub doc: &'static str,
}

impl TypeGuid {
    /// The GUID as it stands on disk.
    pub open spec fn bytes(self) -> Seq<u8> {
        guid_bytes(self.d1, self.d2, self.d3, self.d4, self.node)
    }

    /// The GUID as it stands on disk.
    pub fn guid(&self) -> (r: [u8; 16])
        ensures
            r@ == self.bytes(),
    {
        guid(self.d1, self.d2, self.d3, self.d4, self.node)
    }
}

/// The type GUIDs that have a name.
pub open spec fn type_table() -> Seq<TypeGuid> {
    seq![
        TypeGuid {
            d1: 0,
            d2: 0,
            d3: 0,
            d4: 0,
            node: 0,
            label: "unused",
            doc: "Slot is not in use. UEFI defines only the type GUID as zero — the rest of the 128 bytes is whatever was there before.",
        },
        TypeGuid {
            d1: 0xC12A_7328,
            d2: 0xF81F,
            d3: 0x11D2,
            d4: 0xBA4B,
            node: 0x00A0_C93E_C93B,
            label: "EFI System",
            doc: "The EFI System Partition: a FAT32 (or FAT16) volume holding boot loaders, read by firmware before any OS runs. UEFI 13.3.1.",
        },
        TypeGuid {
            d1: 0x024D_EE41,
            d2: 0x33E7,
            d3: 0x11D3,
            d4: 0x9D69,
            node: 0x0008_C781_F39F,
            label: "MBR partition scheme",
            doc: "Marks a region that is itself described by an MBR. Rare, and a sign of a nested or hybrid layout.",
        },
        TypeGuid {
            d1: 0x2168_6148,
            d2: 0x6449,
            d3: 0x6E6F,
            d4: 0x744E,
            node: 0x6565_6445_4649,
            label: "BIOS boot",
            doc: "Somewhere for GRUB's stage-1.5 to live on a GPT disk booted by a legacy BIOS. The ASCII of the GUID reads \"Hah!IdontNeedEFI\".",
        },
        TypeGuid {
            d1: 0xBC13_C2FF,
            d2: 0x59E6,
            d3: 0x4262,
            d4: 0xA352,
            node: 0xB275_FD6F_7172,
            label: "Linux extended boot (XBOOTLDR)",
            doc: "The boot-loader spec's /boot partition, held separately from the ESP.",
        },
        TypeGuid {
            d1: 0xD3BF_E2DE,
            d2: 0x3DAF,
            d3: 0x11DF,
            d4: 0xBA40,
            node: 0xE3A5_56D8_9593,
            label: "Intel Rapid Start",
            doc: "Intel Fast Flash / Rapid Start hibernation cache.",
        },
        TypeGuid {
            d1: 0x9E1A_2D38,
            d2: 0xC612,
            d3: 0x4316,
            d4: 0xAA26,
            node: 0x8B49_521E_5A8B,
            label: "PowerPC PReP boot",
            doc: "PReP boot partition on IBM PowerPC hardware.",
        },
        TypeGuid {
            d1: 0x7412_F7D5,
            d2: 0xA156,
            d3: 0x4B13,
            d4: 0x81DC,
            node: 0x8671_7492_9325,
            label: "ONIE boot",
            doc: "Open Network Install Environment boot partition on network switches.",
        },
        TypeGuid {
            d1: 0xEBD0_A0A2,
            d2: 0xB9E5,
            d3: 0x4433,
            d4: 0x87C0,
            node: 0x68B6_B726_99C7,
            label: "Microsoft basic data",
            doc: "NTFS, exFAT or FAT as Windows sees it. The default type for anything Windows formats, and for most USB sticks.",
        },
        TypeGuid {
            d1: 0xE3C9_E316,
            d2: 0x0B5C,
            d3: 0x4DB8,
            d4: 0x817D,
            node: 0xF92D_F002_15AE,
            label: "Microsoft reserved (MSR)",
            doc: "Scratch space Windows reserves on every disk it initialises. Contains no filesystem, which is why it looks empty.",
        },
        TypeGuid {
            d1: 0xDE94_BBA4,
            d2: 0x06D1,
            d3: 0x4D40,
            d4: 0xA16A,
            node: 0xBFD5_0179_D6AC,
            label: "Windows Recovery",
            doc: "Windows Recovery Environment (WinRE) image.",
        },
        TypeGuid {
            d1: 0x5808_C8AA,
            d2: 0x7E8F,
            d3: 0x42E0,
            d4: 0x85D2,
            node: 0xE1E9_0434_CFB3,
            label: "Windows LDM metadata",
            doc: "Logical Disk Manager metadata for a Windows dynamic disk.",
        },
        TypeGuid {
            d1: 0xAF9B_60A0,
            d2: 0x1431,
            d3: 0x4F62,
            d4: 0xBC68,
            node: 0x3311_714A_69AD,
            label: "Windows LDM data",
            doc: "Logical Disk Manager data volume; the real layout lives in the LDM database, not in this table.",
        },
        TypeGuid {
            d1: 0xE75C_AF8F,
            d2: 0xF680,
            d3: 0x4CEE,
            d4: 0xAFA3,
            node: 0xB001_E56E_FC2D,
            label: "Windows Storage Spaces",
            doc: "A member of a Storage Spaces pool.",
        },
        TypeGuid {
            d1: 0x558D_43C5,
            d2: 0xA1AC,
            d3: 0x43C0,
            d4: 0xAAC8,
            node: 0xD147_2B29_23D1,
            label: "Microsoft Storage Replica",
            doc: "Storage Replica log volume.",
        },
        TypeGuid {
            d1: 0x0FC6_3DAF,
            d2: 0x8483,
            d3: 0x4772,
            d4: 0x8E79,
            node: 0x3D69_D847_7DE4,
            label: "Linux filesystem",
            doc: "Generic Linux data: ext2/3/4, XFS, btrfs, F2FS. The default `sgdisk` type, so it carries no information about the filesystem inside.",
        },
        TypeGuid {
            d1: 0x0657_FD6D,
            d2: 0xA4AB,
            d3: 0x43C4,
            d4: 0x84E5,
            node: 0x0933_C84B_4F4F,
            label: "Linux swap",
            doc: "Swap area. Forensically interesting out of proportion to its size.",
        },
        TypeGuid {
            d1: 0xE6D6_D379,
            d2: 0xF507,
            d3: 0x44C2,
            d4: 0xA23C,
            node: 0x238F_2A3D_F928,
            label: "Linux LVM",
            doc: "LVM physical volume; the volume group's layout is in the PV metadata, not here.",
        },
        TypeGuid {
            d1: 0xCA7D_7CCB,
            d2: 0x63ED,
            d3: 0x4C53,
            d4: 0x861C,
            node: 0x1742_5360_59CC,
            label: "Linux LUKS",
            doc: "A LUKS container. The header at the start of the partition says LUKS1 or LUKS2 and holds the key slots.",
        },
        TypeGuid {
            d1: 0x7FFE_C5C9,
            d2: 0x2D00,
            d3: 0x49B7,
            d4: 0x8941,
            node: 0x3EA1_0A55_86B7,
            label: "Linux dm-crypt",
            doc: "Plain dm-crypt, with no on-disk header at all.",
        },
        TypeGuid {
            d1: 0xA19D_880F,
            d2: 0x05FC,
            d3: 0x4D3B,
            d4: 0xA006,
            node: 0x743F_0F84_911E,
            label: "Linux RAID",
            doc: "Linux software RAID member; the md superblock is inside the partition.",
        },
        TypeGuid {
            d1: 0x933A_C7E1,
            d2: 0x2EB4,
            d3: 0x4F13,
            d4: 0xB844,
            node: 0x0E14_E2AE_F915,
            label: "Linux /home",
            doc: "Discoverable Partitions Spec: mounted at /home.",
        },
        TypeGuid {
            d1: 0x3B8F_8425,
            d2: 0x20E0,
            d3: 0x4F3B,
            d4: 0x907F,
            node: 0x1A25_A76F_98E8,
            label: "Linux /srv",
            doc: "Discoverable Partitions Spec: mounted at /srv.",
        },
        TypeGuid {
            d1: 0x4D21_B016,
            d2: 0xB534,
            d3: 0x45C2,
            d4: 0xA9FB,
            node: 0x5C16_E091_FD2D,
            label: "Linux /var",
            doc: "Discoverable Partitions Spec: mounted at /var.",
        },
        TypeGuid {
            d1: 0x7EC6_F557,
            d2: 0x3BC5,
            d3: 0x4ACA,
            d4: 0xB293,
            node: 0x16EF_5DF6_39D1,
            label: "Linux /var/tmp",
            doc: "Discoverable Partitions Spec: mounted at /var/tmp.",
        },
        TypeGuid {
            d1: 0x773F_91EF,
            d2: 0x66D4,
            d3: 0x49B5,
            d4: 0xBD83,
            node: 0xD683_BF40_AD16,
            label: "Linux per-user home",
            doc: "systemd-homed portable home directory.",
        },
        TypeGuid {
            d1: 0x4F68_BCE3,
            d2: 0xE8CD,
            d3: 0x4DB1,
            d4: 0x96E7,
            node: 0xFBCA_F984_B709,
            label: "Linux root (x86-64)",
            doc: "Discoverable Partitions Spec: the root filesystem, architecture x86-64.",
        },
        TypeGuid {
            d1: 0x4447_9540,
            d2: 0xF297,
            d3: 0x41B2,
            d4: 0x9AF7,
            node: 0xD131_D5F0_458A,
            label: "Linux root (x86)",
            doc: "Discoverable Partitions Spec: root filesystem, architecture i386.",
        },
        TypeGuid {
            d1: 0xB921_B045,
            d2: 0x1DF0,
            d3: 0x41C3,
            d4: 0xAF44,
            node: 0x4C6F_280D_3FAE,
            label: "Linux root (ARM64)",
            doc: "Discoverable Partitions Spec: root filesystem, architecture aarch64.",
        },
        TypeGuid {
            d1: 0x69DA_D710,
            d2: 0x2CE4,
            d3: 0x4E3C,
            d4: 0xB16C,
            node: 0x21A1_D49A_BED3,
            label: "Linux root (ARM32)",
            doc: "Discoverable Partitions Spec: root filesystem, architecture arm.",
        },
        TypeGuid {
            d1: 0x8484_680C,
            d2: 0x9521,
            d3: 0x48C6,
            d4: 0x9C11,
            node: 0xB072_0656_F69E,
            label: "Linux /usr (x86-64)",
            doc: "Discoverable Partitions Spec: /usr, architecture x86-64.",
        },
        TypeGuid {
            d1: 0x8DA6_3339,
            d2: 0x0007,
            d3: 0x60C0,
            d4: 0xC436,
            node: 0x083A_C823_0908,
            label: "Linux reserved",
            doc: "Reserved by the Linux GPT type registry; should not appear in use.",
        },
        TypeGuid {
            d1: 0x4846_5300,
            d2: 0x0000,
            d3: 0x11AA,
            d4: 0xAA11,
            node: 0x0030_6543_ECAC,
            label: "Apple HFS+",
            doc: "HFS+ volume. The GUID's first group is the ASCII \"HFS\\0\".",
        },
        TypeGuid {
            d1: 0x7C34_57EF,
            d2: 0x0000,
            d3: 0x11AA,
            d4: 0xAA11,
            node: 0x0030_6543_ECAC,
            label: "Apple APFS",
            doc: "APFS container. One container holds many volumes, so the partition table says nothing about how many filesystems are inside.",
        },
        TypeGuid {
            d1: 0x5546_5300,
            d2: 0x0000,
            d3: 0x11AA,
            d4: 0xAA11,
            node: 0x0030_6543_ECAC,
            label: "Apple UFS",
            doc: "Legacy Apple UFS volume.",
        },
        TypeGuid {
            d1: 0x5241_4944,
            d2: 0x0000,
            d3: 0x11AA,
            d4: 0xAA11,
            node: 0x0030_6543_ECAC,
            label: "Apple RAID",
            doc: "Apple software RAID member.",
        },
        TypeGuid {
            d1: 0x5241_4944,
            d2: 0x5F4F,
            d3: 0x11AA,
            d4: 0xAA11,
            node: 0x0030_6543_ECAC,
            label: "Apple RAID offline",
            doc: "Apple software RAID member, marked offline.",
        },
        TypeGuid {
            d1: 0x426F_6F74,
            d2: 0x0000,
            d3: 0x11AA,
            d4: 0xAA11,
            node: 0x0030_6543_ECAC,
            label: "Apple Recovery HD",
            doc: "The macOS recovery partition. GUID reads \"Boot\".",
        },
        TypeGuid {
            d1: 0x4C61_6265,
            d2: 0x6C00,
            d3: 0x11AA,
            d4: 0xAA11,
            node: 0x0030_6543_ECAC,
            label: "Apple label",
            doc: "Apple partition label. GUID reads \"Label\".",
        },
        TypeGuid {
            d1: 0x5374_6F72,
            d2: 0x6167,
            d3: 0x11AA,
            d4: 0xAA11,
            node: 0x0030_6543_ECAC,
            label: "Apple Core Storage",
            doc: "Core Storage / FileVault logical volume family.",
        },
        TypeGuid {
            d1: 0x516E_7CB4,
            d2: 0x6ECF,
            d3: 0x11D6,
            d4: 0x8FF8,
            node: 0x0002_2D09_712B,
            label: "FreeBSD disklabel",
            doc: "A FreeBSD slice containing its own disklabel, which subdivides it again.",
        },
        TypeGuid {
            d1: 0x83BD_6B9D,
            d2: 0x7F41,
            d3: 0x11DC,
            d4: 0xBE0B,
            node: 0x0015_60B8_4F0F,
            label: "FreeBSD boot",
            doc: "FreeBSD boot partition.",
        },
        TypeGuid {
            d1: 0x516E_7CB5,
            d2: 0x6ECF,
            d3: 0x11D6,
            d4: 0x8FF8,
            node: 0x0002_2D09_712B,
            label: "FreeBSD swap",
            doc: "FreeBSD swap area.",
        },
        TypeGuid {
            d1: 0x516E_7CB6,
            d2: 0x6ECF,
            d3: 0x11D6,
            d4: 0x8FF8,
            node: 0x0002_2D09_712B,
            label: "FreeBSD UFS",
            doc: "FreeBSD UFS/UFS2 filesystem.",
        },
        TypeGuid {
            d1: 0x516E_7CBA,
            d2: 0x6ECF,
            d3: 0x11D6,
            d4: 0x8FF8,
            node: 0x0002_2D09_712B,
            label: "FreeBSD ZFS",
            doc: "FreeBSD ZFS vdev.",
        },
        TypeGuid {
            d1: 0x49F4_8D5A,
            d2: 0xB10E,
            d3: 0x11DC,
            d4: 0xB99B,
            node: 0x0019_D187_9648,
            label: "NetBSD FFS",
            doc: "NetBSD fast filesystem.",
        },
        TypeGuid {
            d1: 0x49F4_8D32,
            d2: 0xB10E,
            d3: 0x11DC,
            d4: 0xB99B,
            node: 0x0019_D187_9648,
            label: "NetBSD swap",
            doc: "NetBSD swap area.",
        },
        TypeGuid {
            d1: 0x824C_C7A0,
            d2: 0x36A8,
            d3: 0x11E3,
            d4: 0x890A,
            node: 0x9525_19AD_3F61,
            label: "OpenBSD data",
            doc: "An OpenBSD slice; its disklabel subdivides it further.",
        },
        TypeGuid {
            d1: 0x6A82_CB45,
            d2: 0x1DD2,
            d3: 0x11B2,
            d4: 0x99A6,
            node: 0x0800_2073_6631,
            label: "Solaris boot",
            doc: "Solaris boot partition.",
        },
        TypeGuid {
            d1: 0x6A85_CF4D,
            d2: 0x1DD2,
            d3: 0x11B2,
            d4: 0x99A6,
            node: 0x0800_2073_6631,
            label: "Solaris root",
            doc: "Solaris root filesystem.",
        },
        TypeGuid {
            d1: 0x6A89_8CC3,
            d2: 0x1DD2,
            d3: 0x11B2,
            d4: 0x99A6,
            node: 0x0800_2073_6631,
            label: "Solaris /usr or Apple ZFS",
            doc: "One GUID, two meanings: Solaris /usr, and ZFS as Apple writes it. Ambiguity is in the registry itself, not in this reader.",
        },
        TypeGuid {
            d1: 0xFE3A_2A5D,
            d2: 0x4F32,
            d3: 0x41A7,
            d4: 0xB725,
            node: 0xACCC_3285_A309,
            label: "ChromeOS kernel",
            doc: "ChromeOS kernel partition. Its priority/tries/successful counters live in attribute bits 48..=55, which is why those bits are type-specific.",
        },
        TypeGuid {
            d1: 0x3CB8_E202,
            d2: 0x3B7E,
            d3: 0x47DD,
            d4: 0x8A3C,
            node: 0x7FF2_A13C_FCEC,
            label: "ChromeOS rootfs",
            doc: "ChromeOS root filesystem, verified by dm-verity.",
        },
        TypeGuid {
            d1: 0x2E0A_753D,
            d2: 0x9E48,
            d3: 0x43B0,
            d4: 0x8337,
            node: 0xB151_92CB_1B5E,
            label: "ChromeOS reserved",
            doc: "Reserved by ChromeOS.",
        },
        TypeGuid {
            d1: 0xAA31_E02A,
            d2: 0x400F,
            d3: 0x11DB,
            d4: 0x9590,
            node: 0x000C_2911_D1B8,
            label: "VMware VMFS",
            doc: "VMware ESXi VMFS datastore.",
        },
        TypeGuid {
            d1: 0x9198_EFFC,
            d2: 0x31C0,
            d3: 0x11DB,
            d4: 0x8F78,
            node: 0x000C_2911_D1B8,
            label: "VMware reserved",
            doc: "VMware ESXi reserved area.",
        },
        TypeGuid {
            d1: 0x4FBD_7E29,
            d2: 0x9D25,
            d3: 0x41B8,
            d4: 0xAFD0,
            node: 0x062C_0CEF_F05D,
            label: "Ceph OSD",
            doc: "Ceph object storage daemon data.",
        },
        TypeGuid {
            d1: 0x45B0_969E,
            d2: 0x9B03,
            d3: 0x4F30,
            d4: 0xB4C6,
            node: 0xB4B8_0CEF_F106,
            label: "Ceph journal",
            doc: "Ceph OSD journal.",
        },
        TypeGuid {
            d1: 0xC918_18F9,
            d2: 0x8025,
            d3: 0x47AF,
            d4: 0x89D2,
            node: 0xF030_D700_0C2C,
            label: "Plan 9",
            doc: "Plan 9 from Bell Labs partition.",
        },
        TypeGuid {
            d1: 0x37AF_FC90,
            d2: 0xEF7D,
            d3: 0x4E96,
            d4: 0x91C3,
            node: 0x2D7A_E055_B174,
            label: "IBM GPFS",
            doc: "IBM General Parallel File System member.",
        },
        TypeGuid {
            d1: 0x2568_845D,
            d2: 0x2332,
            d3: 0x4675,
            d4: 0xBC39,
            node: 0x8FA5_A474_8D15,
            label: "Android bootloader",
            doc: "Android bootloader partition; Android devices define a dozen more types in the same family.",
        },
    ]
}

/// Where a type GUID stands in the table, by its first two groups.
spec fn place_of(d1: u32, d2: u16) -> int {
    match d1 {
        0 => 0,
        0xC12A_7328 => 1,
        0x024D_EE41 => 2,
        0x2168_6148 => 3,
        0xBC13_C2FF => 4,
        0xD3BF_E2DE => 5,
        0x9E1A_2D38 => 6,
        0x7412_F7D5 => 7,
        0xEBD0_A0A2 => 8,
        0xE3C9_E316 => 9,
        0xDE94_BBA4 => 10,
        0x5808_C8AA => 11,
        0xAF9B_60A0 => 12,
        0xE75C_AF8F => 13,
        0x558D_43C5 => 14,
        0x0FC6_3DAF => 15,
        0x0657_FD6D => 16,
        0xE6D6_D379 => 17,
        0xCA7D_7CCB => 18,
        0x7FFE_C5C9 => 19,
        0xA19D_880F => 20,
        0x933A_C7E1 => 21,
        0x3B8F_8425 => 22,
        0x4D21_B016 => 23,
        0x7EC6_F557 => 24,
        0x773F_91EF => 25,
        0x4F68_BCE3 => 26,
        0x4447_9540 => 27,
        0xB921_B045 => 28,
        0x69DA_D710 => 29,
        0x8484_680C => 30,
        0x8DA6_3339 => 31,
        0x4846_5300 => 32,
        0x7C34_57EF => 33,
        0x5546_5300 => 34,
        0x5241_4944 => if d2 == 0x0000 {
            35
        } else {
            36
        },
        0x426F_6F74 => 37,
        0x4C61_6265 => 38,
        0x5374_6F72 => 39,
        0x516E_7CB4 => 40,
        0x83BD_6B9D => 41,
        0x516E_7CB5 => 42,
        0x516E_7CB6 => 43,
        0x516E_7CBA => 44,
        0x49F4_8D5A => 45,
        0x49F4_8D32 => 46,
        0x824C_C7A0 => 47,
        0x6A82_CB45 => 48,
        0x6A85_CF4D => 49,
        0x6A89_8CC3 => 50,
        0xFE3A_2A5D => 51,
        0x3CB8_E202 => 52,
        0x2E0A_753D => 53,
        0xAA31_E02A => 54,
        0x9198_EFFC => 55,
        0x4FBD_7E29 => 56,
        0x45B0_969E => 57,
        0xC918_18F9 => 58,
        0x37AF_FC90 => 59,
        0x2568_845D => 60,
        _ => -1,
    }
}

/// No GUID stands in the table twice.
pub proof fn lemma_types_are_distinct(i: int, j: int)
    requires
        0 <= i < j < type_table().len(),
    ensures
        type_table()[i].bytes() != type_table()[j].bytes(),
{
    let a = type_table()[i];
    let b = type_table()[j];
    assert(place_of(a.d1, a.d2) == i);
    assert(place_of(b.d1, b.d2) == j);
    lemma_guid_is_mixed_endian(a.d1, a.d2, a.d3, a.d4, a.node);
    lemma_guid_is_mixed_endian(b.d1, b.d2, b.d3, b.d4, b.node);
}

/// The type GUIDs that have a name.
pub fn partition_types() -> (r: Vec<TypeGuid>)
    ensures
        r@ == type_table(),
        r@.len() == 61,
{
    let r: Vec<TypeGuid> = vec![
        TypeGuid {
            d1: 0,
            d2: 0,
            d3: 0,
            d4: 0,
            node: 0,
            label: "unused",
            doc: "Slot is not in use. UEFI defines only the type GUID as zero — the rest of the 128 bytes is whatever was there before.",
        },
        TypeGuid {
            d1: 0xC12A_7328,
            d2: 0xF81F,
            d3: 0x11D2,
            d4: 0xBA4B,
            node: 0x00A0_C93E_C93B,
            label: "EFI System",
            doc: "The EFI System Partition: a FAT32 (or FAT16) volume holding boot loaders, read by firmware before any OS runs. UEFI 13.3.1.",
        },
        TypeGuid {
            d1: 0x024D_EE41,
            d2: 0x33E7,
            d3: 0x11D3,
            d4: 0x9D69,
            node: 0x0008_C781_F39F,
            label: "MBR partition scheme",
            doc: "Marks a region that is itself described by an MBR. Rare, and a sign of a nested or hybrid layout.",
        },
        TypeGuid {
            d1: 0x2168_6148,
            d2: 0x6449,
            d3: 0x6E6F,
            d4: 0x744E,
            node: 0x6565_6445_4649,
            label: "BIOS boot",
            doc: "Somewhere for GRUB's stage-1.5 to live on a GPT disk booted by a legacy BIOS. The ASCII of the GUID reads \"Hah!IdontNeedEFI\".",
        },
        TypeGuid {
            d1: 0xBC13_C2FF,
            d2: 0x59E6,
            d3: 0x4262,
            d4: 0xA352,
            node: 0xB275_FD6F_7172,
            label: "Linux extended boot (XBOOTLDR)",
            doc: "The boot-loader spec's /boot partition, held separately from the ESP.",
        },
        TypeGuid {
            d1: 0xD3BF_E2DE,
            d2: 0x3DAF,
            d3: 0x11DF,
            d4: 0xBA40,
            node: 0xE3A5_56D8_9593,
            label: "Intel Rapid Start",
            doc: "Intel Fast Flash / Rapid Start hibernation cache.",
        },
        TypeGuid {
            d1: 0x9E1A_2D38,
            d2: 0xC612,
            d3: 0x4316,
            d4: 0xAA26,
            node: 0x8B49_521E_5A8B,
            label: "PowerPC PReP boot",
            doc: "PReP boot partition on IBM PowerPC hardware.",
        },
        TypeGuid {
            d1: 0x7412_F7D5,
            d2: 0xA156,
            d3: 0x4B13,
            d4: 0x81DC,
            node: 0x8671_7492_9325,
            label: "ONIE boot",
            doc: "Open Network Install Environment boot partition on network switches.",
        },
        TypeGuid {
            d1: 0xEBD0_A0A2,
            d2: 0xB9E5,
            d3: 0x4433,
            d4: 0x87C0,
            node: 0x68B6_B726_99C7,
            label: "Microsoft basic data",
            doc: "NTFS, exFAT or FAT as Windows sees it. The default type for anything Windows formats, and for most USB sticks.",
        },
        TypeGuid {
            d1: 0xE3C9_E316,
            d2: 0x0B5C,
            d3: 0x4DB8,
            d4: 0x817D,
            node: 0xF92D_F002_15AE,
            label: "Microsoft reserved (MSR)",
            doc: "Scratch space Windows reserves on every disk it initialises. Contains no filesystem, which is why it looks empty.",
        },
        TypeGuid {
            d1: 0xDE94_BBA4,
            d2: 0x06D1,
            d3: 0x4D40,
            d4: 0xA16A,
            node: 0xBFD5_0179_D6AC,
            label: "Windows Recovery",
            doc: "Windows Recovery Environment (WinRE) image.",
        },
        TypeGuid {
            d1: 0x5808_C8AA,
            d2: 0x7E8F,
            d3: 0x42E0,
            d4: 0x85D2,
            node: 0xE1E9_0434_CFB3,
            label: "Windows LDM metadata",
            doc: "Logical Disk Manager metadata for a Windows dynamic disk.",
        },
        TypeGuid {
            d1: 0xAF9B_60A0,
            d2: 0x1431,
            d3: 0x4F62,
            d4: 0xBC68,
            node: 0x3311_714A_69AD,
            label: "Windows LDM data",
            doc: "Logical Disk Manager data volume; the real layout lives in the LDM database, not in this table.",
        },
        TypeGuid {
            d1: 0xE75C_AF8F,
            d2: 0xF680,
            d3: 0x4CEE,
            d4: 0xAFA3,
            node: 0xB001_E56E_FC2D,
            label: "Windows Storage Spaces",
            doc: "A member of a Storage Spaces pool.",
        },
        TypeGuid {
            d1: 0x558D_43C5,
            d2: 0xA1AC,
            d3: 0x43C0,
            d4: 0xAAC8,
            node: 0xD147_2B29_23D1,
            label: "Microsoft Storage Replica",
            doc: "Storage Replica log volume.",
        },
        TypeGuid {
            d1: 0x0FC6_3DAF,
            d2: 0x8483,
            d3: 0x4772,
            d4: 0x8E79,
            node: 0x3D69_D847_7DE4,
            label: "Linux filesystem",
            doc: "Generic Linux data: ext2/3/4, XFS, btrfs, F2FS. The default `sgdisk` type, so it carries no information about the filesystem inside.",
        },
        TypeGuid {
            d1: 0x0657_FD6D,
            d2: 0xA4AB,
            d3: 0x43C4,
            d4: 0x84E5,
            node: 0x0933_C84B_4F4F,
            label: "Linux swap",
            doc: "Swap area. Forensically interesting out of proportion to its size.",
        },
        TypeGuid {
            d1: 0xE6D6_D379,
            d2: 0xF507,
            d3: 0x44C2,
            d4: 0xA23C,
            node: 0x238F_2A3D_F928,
            label: "Linux LVM",
            doc: "LVM physical volume; the volume group's layout is in the PV metadata, not here.",
        },
        TypeGuid {
            d1: 0xCA7D_7CCB,
            d2: 0x63ED,
            d3: 0x4C53,
            d4: 0x861C,
            node: 0x1742_5360_59CC,
            label: "Linux LUKS",
            doc: "A LUKS container. The header at the start of the partition says LUKS1 or LUKS2 and holds the key slots.",
        },
        TypeGuid {
            d1: 0x7FFE_C5C9,
            d2: 0x2D00,
            d3: 0x49B7,
            d4: 0x8941,
            node: 0x3EA1_0A55_86B7,
            label: "Linux dm-crypt",
            doc: "Plain dm-crypt, with no on-disk header at all.",
        },
        TypeGuid {
            d1: 0xA19D_880F,
            d2: 0x05FC,
            d3: 0x4D3B,
            d4: 0xA006,
            node: 0x743F_0F84_911E,
            label: "Linux RAID",
            doc: "Linux software RAID member; the md superblock is inside the partition.",
        },
        TypeGuid {
            d1: 0x933A_C7E1,
            d2: 0x2EB4,
            d3: 0x4F13,
            d4: 0xB844,
            node: 0x0E14_E2AE_F915,
            label: "Linux /home",
            doc: "Discoverable Partitions Spec: mounted at /home.",
        },
        TypeGuid {
            d1: 0x3B8F_8425,
            d2: 0x20E0,
            d3: 0x4F3B,
            d4: 0x907F,
            node: 0x1A25_A76F_98E8,
            label: "Linux /srv",
            doc: "Discoverable Partitions Spec: mounted at /srv.",
        },
        TypeGuid {
            d1: 0x4D21_B016,
            d2: 0xB534,
            d3: 0x45C2,
            d4: 0xA9FB,
            node: 0x5C16_E091_FD2D,
            label: "Linux /var",
            doc: "Discoverable Partitions Spec: mounted at /var.",
        },
        TypeGuid {
            d1: 0x7EC6_F557,
            d2: 0x3BC5,
            d3: 0x4ACA,
            d4: 0xB293,
            node: 0x16EF_5DF6_39D1,
            label: "Linux /var/tmp",
            doc: "Discoverable Partitions Spec: mounted at /var/tmp.",
        },
        TypeGuid {
            d1: 0x773F_91EF,
            d2: 0x66D4,
            d3: 0x49B5,
            d4: 0xBD83,
            node: 0xD683_BF40_AD16,
            label: "Linux per-user home",
            doc: "systemd-homed portable home directory.",
        },
        TypeGuid {
            d1: 0x4F68_BCE3,
            d2: 0xE8CD,
            d3: 0x4DB1,
            d4: 0x96E7,
            node: 0xFBCA_F984_B709,
            label: "Linux root (x86-64)",
            doc: "Discoverable Partitions Spec: the root filesystem, architecture x86-64.",
        },
        TypeGuid {
            d1: 0x4447_9540,
            d2: 0xF297,
            d3: 0x41B2,
            d4: 0x9AF7,
            node: 0xD131_D5F0_458A,
            label: "Linux root (x86)",
            doc: "Discoverable Partitions Spec: root filesystem, architecture i386.",
        },
        TypeGuid {
            d1: 0xB921_B045,
            d2: 0x1DF0,
            d3: 0x41C3,
            d4: 0xAF44,
            node: 0x4C6F_280D_3FAE,
            label: "Linux root (ARM64)",
            doc: "Discoverable Partitions Spec: root filesystem, architecture aarch64.",
        },
        TypeGuid {
            d1: 0x69DA_D710,
            d2: 0x2CE4,
            d3: 0x4E3C,
            d4: 0xB16C,
            node: 0x21A1_D49A_BED3,
            label: "Linux root (ARM32)",
            doc: "Discoverable Partitions Spec: root filesystem, architecture arm.",
        },
        TypeGuid {
            d1: 0x8484_680C,
            d2: 0x9521,
            d3: 0x48C6,
            d4: 0x9C11,
            node: 0xB072_0656_F69E,
            label: "Linux /usr (x86-64)",
            doc: "Discoverable Partitions Spec: /usr, architecture x86-64.",
        },
        TypeGuid {
            d1: 0x8DA6_3339,
            d2: 0x0007,
            d3: 0x60C0,
            d4: 0xC436,
            node: 0x083A_C823_0908,
            label: "Linux reserved",
            doc: "Reserved by the Linux GPT type registry; should not appear in use.",
        },
        TypeGuid {
            d1: 0x4846_5300,
            d2: 0x0000,
            d3: 0x11AA,
            d4: 0xAA11,
            node: 0x0030_6543_ECAC,
            label: "Apple HFS+",
            doc: "HFS+ volume. The GUID's first group is the ASCII \"HFS\\0\".",
        },
        TypeGuid {
            d1: 0x7C34_57EF,
            d2: 0x0000,
            d3: 0x11AA,
            d4: 0xAA11,
            node: 0x0030_6543_ECAC,
            label: "Apple APFS",
            doc: "APFS container. One container holds many volumes, so the partition table says nothing about how many filesystems are inside.",
        },
        TypeGuid {
            d1: 0x5546_5300,
            d2: 0x0000,
            d3: 0x11AA,
            d4: 0xAA11,
            node: 0x0030_6543_ECAC,
            label: "Apple UFS",
            doc: "Legacy Apple UFS volume.",
        },
        TypeGuid {
            d1: 0x5241_4944,
            d2: 0x0000,
            d3: 0x11AA,
            d4: 0xAA11,
            node: 0x0030_6543_ECAC,
            label: "Apple RAID",
            doc: "Apple software RAID member.",
        },
        TypeGuid {
            d1: 0x5241_4944,
            d2: 0x5F4F,
            d3: 0x11AA,
            d4: 0xAA11,
            node: 0x0030_6543_ECAC,
            label: "Apple RAID offline",
            doc: "Apple software RAID member, marked offline.",
        },
        TypeGuid {
            d1: 0x426F_6F74,
            d2: 0x0000,
            d3: 0x11AA,
            d4: 0xAA11,
            node: 0x0030_6543_ECAC,
            label: "Apple Recovery HD",
            doc: "The macOS recovery partition. GUID reads \"Boot\".",
        },
        TypeGuid {
            d1: 0x4C61_6265,
            d2: 0x6C00,
            d3: 0x11AA,
            d4: 0xAA11,
            node: 0x0030_6543_ECAC,
            label: "Apple label",
            doc: "Apple partition label. GUID reads \"Label\".",
        },
        TypeGuid {
            d1: 0x5374_6F72,
            d2: 0x6167,
            d3: 0x11AA,
            d4: 0xAA11,
            node: 0x0030_6543_ECAC,
            label: "Apple Core Storage",
            doc: "Core Storage / FileVault logical volume family.",
        },
        TypeGuid {
            d1: 0x516E_7CB4,
            d2: 0x6ECF,
            d3: 0x11D6,
            d4: 0x8FF8,
            node: 0x0002_2D09_712B,
            label: "FreeBSD disklabel",
            doc: "A FreeBSD slice containing its own disklabel, which subdivides it again.",
        },
        TypeGuid {
            d1: 0x83BD_6B9D,
            d2: 0x7F41,
            d3: 0x11DC,
            d4: 0xBE0B,
            node: 0x0015_60B8_4F0F,
            label: "FreeBSD boot",
            doc: "FreeBSD boot partition.",
        },
        TypeGuid {
            d1: 0x516E_7CB5,
            d2: 0x6ECF,
            d3: 0x11D6,
            d4: 0x8FF8,
            node: 0x0002_2D09_712B,
            label: "FreeBSD swap",
            doc: "FreeBSD swap area.",
        },
        TypeGuid {
            d1: 0x516E_7CB6,
            d2: 0x6ECF,
            d3: 0x11D6,
            d4: 0x8FF8,
            node: 0x0002_2D09_712B,
            label: "FreeBSD UFS",
            doc: "FreeBSD UFS/UFS2 filesystem.",
        },
        TypeGuid {
            d1: 0x516E_7CBA,
            d2: 0x6ECF,
            d3: 0x11D6,
            d4: 0x8FF8,
            node: 0x0002_2D09_712B,
            label: "FreeBSD ZFS",
            doc: "FreeBSD ZFS vdev.",
        },
        TypeGuid {
            d1: 0x49F4_8D5A,
            d2: 0xB10E,
            d3: 0x11DC,
            d4: 0xB99B,
            node: 0x0019_D187_9648,
            label: "NetBSD FFS",
            doc: "NetBSD fast filesystem.",
        },
        TypeGuid {
            d1: 0x49F4_8D32,
            d2: 0xB10E,
            d3: 0x11DC,
            d4: 0xB99B,
            node: 0x0019_D187_9648,
            label: "NetBSD swap",
            doc: "NetBSD swap area.",
        },
        TypeGuid {
            d1: 0x824C_C7A0,
            d2: 0x36A8,
            d3: 0x11E3,
            d4: 0x890A,
            node: 0x9525_19AD_3F61,
            label: "OpenBSD data",
            doc: "An OpenBSD slice; its disklabel subdivides it further.",
        },
        TypeGuid {
            d1: 0x6A82_CB45,
            d2: 0x1DD2,
            d3: 0x11B2,
            d4: 0x99A6,
            node: 0x0800_2073_6631,
            label: "Solaris boot",
            doc: "Solaris boot partition.",
        },
        TypeGuid {
            d1: 0x6A85_CF4D,
            d2: 0x1DD2,
            d3: 0x11B2,
            d4: 0x99A6,
            node: 0x0800_2073_6631,
            label: "Solaris root",
            doc: "Solaris root filesystem.",
        },
        TypeGuid {
            d1: 0x6A89_8CC3,
            d2: 0x1DD2,
            d3: 0x11B2,
            d4: 0x99A6,
            node: 0x0800_2073_6631,
            label: "Solaris /usr or Apple ZFS",
            doc: "One GUID, two meanings: Solaris /usr, and ZFS as Apple writes it. Ambiguity is in the registry itself, not in this reader.",
        },
        TypeGuid {
            d1: 0xFE3A_2A5D,
            d2: 0x4F32,
            d3: 0x41A7,
            d4: 0xB725,
            node: 0xACCC_3285_A309,
            label: "ChromeOS kernel",
            doc: "ChromeOS kernel partition. Its priority/tries/successful counters live in attribute bits 48..=55, which is why those bits are type-specific.",
        },
        TypeGuid {
            d1: 0x3CB8_E202,
            d2: 0x3B7E,
            d3: 0x47DD,
            d4: 0x8A3C,
            node: 0x7FF2_A13C_FCEC,
            label: "ChromeOS rootfs",
            doc: "ChromeOS root filesystem, verified by dm-verity.",
        },
        TypeGuid {
            d1: 0x2E0A_753D,
            d2: 0x9E48,
            d3: 0x43B0,
            d4: 0x8337,
            node: 0xB151_92CB_1B5E,
            label: "ChromeOS reserved",
            doc: "Reserved by ChromeOS.",
        },
        TypeGuid {
            d1: 0xAA31_E02A,
            d2: 0x400F,
            d3: 0x11DB,
            d4: 0x9590,
            node: 0x000C_2911_D1B8,
            label: "VMware VMFS",
            doc: "VMware ESXi VMFS datastore.",
        },
        TypeGuid {
            d1: 0x9198_EFFC,
            d2: 0x31C0,
            d3: 0x11DB,
            d4: 0x8F78,
            node: 0x000C_2911_D1B8,
            label: "VMware reserved",
            doc: "VMware ESXi reserved area.",
        },
        TypeGuid {
            d1: 0x4FBD_7E29,
            d2: 0x9D25,
            d3: 0x41B8,
            d4: 0xAFD0,
            node: 0x062C_0CEF_F05D,
            label: "Ceph OSD",
            doc: "Ceph object storage daemon data.",
        },
        TypeGuid {
            d1: 0x45B0_969E,
            d2: 0x9B03,
            d3: 0x4F30,
            d4: 0xB4C6,
            node: 0xB4B8_0CEF_F106,
            label: "Ceph journal",
            doc: "Ceph OSD journal.",
        },
        TypeGuid {
            d1: 0xC918_18F9,
            d2: 0x8025,
            d3: 0x47AF,
            d4: 0x89D2,
            node: 0xF030_D700_0C2C,
            label: "Plan 9",
            doc: "Plan 9 from Bell Labs partition.",
        },
        TypeGuid {
            d1: 0x37AF_FC90,
            d2: 0xEF7D,
            d3: 0x4E96,
            d4: 0x91C3,
            node: 0x2D7A_E055_B174,
            label: "IBM GPFS",
            doc: "IBM General Parallel File System member.",
        },
        TypeGuid {
            d1: 0x2568_845D,
            d2: 0x2332,
            d3: 0x4675,
            d4: 0xBC39,
            node: 0x8FA5_A474_8D15,
            label: "Android bootloader",
            doc: "Android bootloader partition; Android devices define a dozen more types in the same family.",
        },
    ];
    assert(r@ =~= type_table());
    r
}

/// The entry for a GUID in the first `n` rows of the table.
pub open spec fn named_in(g: Seq<u8>, n: nat) -> Option<TypeGuid>
    decreases n,
{
    if n == 0 {
        None
    } else {
        match named_in(g, (n - 1) as nat) {
            Some(t) => Some(t),
            None => if type_table()[n - 1].bytes() == g {
                Some(type_table()[n - 1])
            } else {
                None
            },
        }
    }
}

/// The name of a type GUID, where the table knows it.
pub open spec fn type_text(g: Seq<u8>) -> Option<Seq<char>> {
    match named_in(g, type_table().len()) {
        Some(t) => Some(t.label@),
        None => None,
    }
}

proof fn lemma_named_stays(g: Seq<u8>, i: nat, n: nat)
    requires
        i <= n,
        named_in(g, i) is Some,
    ensures
        named_in(g, n) == named_in(g, i),
    decreases n,
{
    if i < n {
        lemma_named_stays(g, i, (n - 1) as nat);
    }
}

fn same_bytes(a: &[u8; 16], b: &[u8; 16]) -> (r: bool)
    ensures
        r == (a@ == b@),
{
    let mut i: usize = 0;
    while i < 16
        invariant
            i <= 16,
            forall|j: int| 0 <= j < i ==> a@[j] == b@[j],
        decreases 16 - i,
    {
        if a[i] != b[i] {
            assert(a@[i as int] != b@[i as int]);
            return false;
        }
        i += 1;
    }
    assert(a@ =~= b@);
    true
}

/// Name for a type GUID, or `None` when the table does not know it.
pub fn type_label(g: &[u8; 16]) -> (r: Option<&'static str>)
    ensures
        match r {
            Some(s) => type_text(g@) == Some(s@),
            None => type_text(g@) is None,
        },
{
    let table: Vec<TypeGuid> = partition_types();
    let mut i: usize = 0;
    while i < table.len()
        invariant
            i <= table@.len(),
            table@ == type_table(),
            named_in(g@, i as nat) is None,
        decreases table@.len() - i,
    {
        let t = table[i];
        if same_bytes(&t.guid(), g) {
            proof {
                lemma_named_stays(g@, (i + 1) as nat, type_table().len());
            }
            return Some(t.label);
        }
        i += 1;
    }
    None
}

} // verus!
