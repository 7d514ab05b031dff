//! Mounted-filesystem inventory.
//!
//! The mount table is a whitespace-delimited text, one mount per line:
//! device specifier, mount point and filesystem type come first.
//! Pseudo and virtual filesystems are excluded from the inventory, and a
//! device name is reduced to the block-device name under which the kernel
//! reports its media kind (rotational or not).

use vstd::prelude::*;

use crate::text::fields_of;
use crate::text::has_prefix;
use crate::text::is_digit_char;
use crate::text::text_lines_of;
use crate::text::strip_prefix_all_of;
use crate::text::trim_end_if;
use crate::text::trim_of;
use crate::text::fields;
use crate::text::split_text_lines;
use crate::text::starts_with;
use crate::text::str_eq;
use crate::text::strip_prefix_all;
use crate::text::trim;
use crate::text::trim_end_char;
use crate::text::trim_end_digits;

verus! {

/// One reported mount: where it is, what it is, how large it is, and the
/// media kind of the device backing it.
#[derive(Debug, Clone)]
pub struct Disk {
    pub name: String,
    pub file_system: String,
    pub mount_point: String,
    pub total_space: u64,
    pub available_space: u64,
    pub genre: String,
}

/// The first three fields of one mount line: device specifier, mount point
/// and filesystem type; missing fields are empty.
pub open spec fn mount_triple_of(line: Seq<char>) -> (Seq<char>, Seq<char>, Seq<char>) {
    let f = fields_of(line);
    (
        if f.len() > 0 {
            f[0]
        } else {
            Seq::<char>::empty()
        },
        if f.len() > 1 {
            f[1]
        } else {
            Seq::<char>::empty()
        },
        if f.len() > 2 {
            f[2]
        } else {
            Seq::<char>::empty()
        },
    )
}

/// The filesystem types excluded from the inventory: pseudo filesystems,
/// kernel object trees, memory-backed mounts, compressed read-only images
/// and optical media.
pub open spec fn excluded_vfstype(t: Seq<char>) -> bool {
    ||| t == "devpts"@
    ||| t == "mqueue"@
    ||| t == "hugetlbfs"@
    ||| t == "sysfs"@
    ||| t == "proc"@
    ||| t == "tmpfs"@
    ||| t == "devtmpfs"@
    ||| t == "cgroup"@
    ||| t == "cgroup2"@
    ||| t == "pstore"@
    ||| t == "squashfs"@
    ||| t == "rpc_pipefs"@
    ||| t == "iso9660"@
}

/// Whether a mount belongs in the inventory: its type is not excluded, its
/// mount point is not under a reserved system prefix, and its device is not
/// a remote-procedure-call pseudo device.
pub open spec fn mount_reported(
    fs_spec: Seq<char>,
    fs_file: Seq<char>,
    fs_vfstype: Seq<char>,
) -> bool {
    !(excluded_vfstype(fs_vfstype) || has_prefix(fs_file, "/sys"@) || has_prefix(
        fs_file,
        "/proc"@,
    ) || has_prefix(fs_file, "/run"@) || has_prefix(fs_spec, "sunrpc"@))
}

/// Runtime check of [`mount_reported`].
pub fn is_reported_mount(fs_spec: &str, fs_file: &str, fs_vfstype: &str) -> (r: bool)
    ensures
        r == mount_reported(fs_spec@, fs_file@, fs_vfstype@),
{
    let excluded = str_eq(fs_vfstype, "devpts") || str_eq(fs_vfstype, "mqueue") || str_eq(
        fs_vfstype,
        "hugetlbfs",
    ) || str_eq(fs_vfstype, "sysfs") || str_eq(fs_vfstype, "proc") || str_eq(fs_vfstype, "tmpfs")
        || str_eq(fs_vfstype, "devtmpfs") || str_eq(fs_vfstype, "cgroup") || str_eq(
        fs_vfstype,
        "cgroup2",
    ) || str_eq(fs_vfstype, "pstore") || str_eq(fs_vfstype, "squashfs") || str_eq(
        fs_vfstype,
        "rpc_pipefs",
    ) || str_eq(fs_vfstype, "iso9660");
    !(excluded || starts_with(fs_file, "/sys") || starts_with(fs_file, "/proc") || starts_with(
        fs_file,
        "/run",
    ) || starts_with(fs_spec, "sunrpc"))
}

/// One mount that belongs in the inventory, as read from the mount table.
#[derive(Debug, Clone)]
pub struct MountEntry {
    pub fs_spec: String,
    pub fs_file: String,
    pub fs_vfstype: String,
}

impl View for MountEntry {
    type V = (Seq<char>, Seq<char>, Seq<char>);

    open spec fn view(&self) -> (Seq<char>, Seq<char>, Seq<char>) {
        (self.fs_spec@, self.fs_file@, self.fs_vfstype@)
    }
}

impl DeepView for MountEntry {
    type V = (Seq<char>, Seq<char>, Seq<char>);

    open spec fn deep_view(&self) -> (Seq<char>, Seq<char>, Seq<char>) {
        self.view()
    }
}

/// The reported mounts encoded by a sequence of mount-table lines, in
/// order: each line's leading triple, kept when [`mount_reported`] holds.
pub open spec fn mounts_of_lines(ls: Seq<Seq<char>>) -> Seq<(Seq<char>, Seq<char>, Seq<char>)>
    decreases ls.len(),
{
    if ls.len() == 0 {
        Seq::<(Seq<char>, Seq<char>, Seq<char>)>::empty()
    } else {
        let acc = mounts_of_lines(ls.drop_last());
        let t = mount_triple_of(ls.last());
        if mount_reported(t.0, t.1, t.2) {
            acc.push(t)
        } else {
            acc
        }
    }
}

/// What parsing a whole mount table yields.
pub open spec fn spec_reported_mounts(content: Seq<char>) -> Seq<(Seq<char>, Seq<char>, Seq<char>)> {
    mounts_of_lines(text_lines_of(content))
}

/// Parses the mount table into the mounts that belong in the inventory, in
/// table order: pseudo and virtual filesystems and reserved mount-point
/// prefixes are excluded.
pub fn reported_mounts(content: &str) -> (r: Vec<MountEntry>)
    ensures
        r.deep_view() == spec_reported_mounts(content@),
{
    let lines = split_text_lines(content);
    let ghost ls = lines.deep_view();
    let mut out: Vec<MountEntry> = Vec::new();
    let mut i: usize = 0;
    proof {
        assert(ls.take(0) =~= Seq::<Seq<char>>::empty());
        assert(out.deep_view() =~= Seq::<(Seq<char>, Seq<char>, Seq<char>)>::empty());
    }
    while i < lines.len()
        invariant
            i <= lines@.len(),
            ls == lines.deep_view(),
            ls == text_lines_of(content@),
            ls.len() == lines@.len(),
            out.deep_view() == mounts_of_lines(ls.take(i as int)),
        decreases lines@.len() - i,
    {
        let line = lines[i];
        proof {
            assert(line@ == ls[i as int]);
            assert(ls.take(i + 1).drop_last() =~= ls.take(i as int));
            assert(ls.take(i + 1).last() == ls[i as int]);
        }
        let f = fields(line);
        let fs_spec = if f.len() > 0 {
            proof {
                assert(f[0]@ == f.deep_view()[0]);
            }
            f[0]
        } else {
            ""
        };
        let fs_file = if f.len() > 1 {
            proof {
                assert(f[1]@ == f.deep_view()[1]);
            }
            f[1]
        } else {
            ""
        };
        let fs_vfstype = if f.len() > 2 {
            proof {
                assert(f[2]@ == f.deep_view()[2]);
            }
            f[2]
        } else {
            ""
        };
        proof {
            reveal_strlit("");
            let t = mount_triple_of(ls[i as int]);
            assert(fs_spec@ == t.0 && fs_file@ == t.1 && fs_vfstype@ == t.2);
        }
        if is_reported_mount(fs_spec, fs_file, fs_vfstype) {
            let ghost pre = out.deep_view();
            out.push(
                MountEntry {
                    fs_spec: fs_spec.to_owned(),
                    fs_file: fs_file.to_owned(),
                    fs_vfstype: fs_vfstype.to_owned(),
                },
            );
            proof {
                assert(out.deep_view() =~= pre.push(out@.last().deep_view()));
            }
        }
        i = i + 1;
    }
    proof {
        assert(ls.take(lines@.len() as int) =~= ls);
    }
    out
}

/// The media kind encoded by the kernel's rotational flag for a block
/// device: rotational means a hard disk, non-rotational a solid-state
/// drive, and anything else is unknown.
pub open spec fn genre_of_rotational(content: Seq<char>) -> Seq<char> {
    if trim_of(content) == "1"@ {
        "HDD"@
    } else if trim_of(content) == "0"@ {
        "SSD"@
    } else {
        "Unknown"@
    }
}

/// Classifies a block device's media kind from the kernel's rotational
/// flag text.
pub fn classify_rotational(content: &str) -> (r: String)
    ensures
        r@ == genre_of_rotational(content@),
{
    let t = trim(content);
    if str_eq(t, "1") {
        "HDD".to_owned()
    } else if str_eq(t, "0") {
        "SSD".to_owned()
    } else {
        "Unknown".to_owned()
    }
}

/// The step a device-name lookup takes next: follow the resolved path of a
/// mapped or aliased device, or look the block name up in the kernel's
/// block-device tree.
#[derive(Debug, Clone)]
pub enum DevicePath {
    Resolve(String),
    Block(String),
}

/// The mathematical image of a [`DevicePath`].
pub ghost enum DevicePathV {
    Resolve(Seq<char>),
    Block(Seq<char>),
}

impl View for DevicePath {
    type V = DevicePathV;

    open spec fn view(&self) -> DevicePathV {
        match self {
            DevicePath::Resolve(s) => DevicePathV::Resolve(s@),
            DevicePath::Block(s) => DevicePathV::Block(s@),
        }
    }
}

/// How a device specifier is reduced to a block-device name, given the
/// path it canonicalizes to.
///
/// Mapped devices and the root alias are followed to their resolved path
/// when it differs; partition suffixes (trailing digits, and the partition
/// letter of flash-style names) are cut off; any other name is used as the
/// block name once its device-directory prefix is removed.
pub open spec fn spec_device_block_name(name: Seq<char>, resolved: Seq<char>) -> DevicePathV {
    if has_prefix(name, "/dev/mapper/"@) {
        if resolved != name {
            DevicePathV::Resolve(resolved)
        } else {
            DevicePathV::Block(resolved)
        }
    } else if has_prefix(name, "/dev/sd"@) {
        DevicePathV::Block(
            trim_end_if(strip_prefix_all_of(resolved, "/dev/"@), |c: char| is_digit_char(c)),
        )
    } else if has_prefix(name, "/dev/nvme"@) {
        DevicePathV::Block(
            trim_end_if(
                trim_end_if(strip_prefix_all_of(resolved, "/dev/"@), |c: char| is_digit_char(c)),
                |c: char| c == 'p',
            ),
        )
    } else if has_prefix(name, "/dev/root"@) {
        if resolved != name {
            DevicePathV::Resolve(resolved)
        } else {
            DevicePathV::Block(resolved)
        }
    } else if has_prefix(name, "/dev/mmcblk"@) {
        DevicePathV::Block(
            trim_end_if(
                trim_end_if(strip_prefix_all_of(resolved, "/dev/"@), |c: char| is_digit_char(c)),
                |c: char| c == 'p',
            ),
        )
    } else {
        DevicePathV::Block(strip_prefix_all_of(resolved, "/dev/"@))
    }
}

/// Decides the next step of a device-name lookup from the device specifier
/// and the path it canonicalizes to (the specifier itself when
/// canonicalizing fails).
pub fn device_block_name(name: &str, real_path: &str) -> (r: DevicePath)
    ensures
        r@ == spec_device_block_name(name@, real_path@),
{
    if starts_with(name, "/dev/mapper/") {
        if !str_eq(real_path, name) {
            DevicePath::Resolve(real_path.to_owned())
        } else {
            DevicePath::Block(real_path.to_owned())
        }
    } else if starts_with(name, "/dev/sd") {
        DevicePath::Block(trim_end_digits(strip_prefix_all(real_path, "/dev/")).to_owned())
    } else if starts_with(name, "/dev/nvme") {
        DevicePath::Block(
            trim_end_char(trim_end_digits(strip_prefix_all(real_path, "/dev/")), 'p').to_owned(),
        )
    } else if starts_with(name, "/dev/root") {
        if !str_eq(real_path, name) {
            DevicePath::Resolve(real_path.to_owned())
        } else {
            DevicePath::Block(real_path.to_owned())
        }
    } else if starts_with(name, "/dev/mmcblk") {
        DevicePath::Block(
            trim_end_char(trim_end_digits(strip_prefix_all(real_path, "/dev/")), 'p').to_owned(),
        )
    } else {
        DevicePath::Block(strip_prefix_all(real_path, "/dev/").to_owned())
    }
}

} // verus!
