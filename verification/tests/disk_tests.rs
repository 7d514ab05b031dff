use sysmetrics::disk;

#[test]
fn proc_mount_is_always_excluded() {
    // The pseudo filesystem is excluded by its type alone, wherever it is
    // mounted, and its usual mount point is excluded as well.
    assert!(!disk::is_reported_mount("proc", "/proc", "proc"));
    assert!(!disk::is_reported_mount("proc", "/mnt/somewhere", "proc"));
    assert!(!disk::is_reported_mount("/dev/sda1", "/proc", "ext4"));
    assert!(disk::is_reported_mount("/dev/sda1", "/", "ext4"));
}

#[test]
fn mount_table_is_filtered() {
    let content = "/dev/sda1 / ext4 rw,relatime 0 0\n\
                   proc /proc proc rw,nosuid 0 0\n\
                   sysfs /sys sysfs rw 0 0\n\
                   tmpfs /tmp tmpfs rw 0 0\n\
                   sunrpc /var/lib/nfs/rpc_pipefs rpc_pipefs rw 0 0\n\
                   /dev/sdb1 /data xfs rw 0 0\n";
    let mounts = disk::reported_mounts(content);
    assert_eq!(mounts.len(), 2);
    assert_eq!(mounts[0].fs_spec, "/dev/sda1");
    assert_eq!(mounts[0].fs_file, "/");
    assert_eq!(mounts[0].fs_vfstype, "ext4");
    assert_eq!(mounts[1].fs_spec, "/dev/sdb1");
    assert_eq!(mounts[1].fs_file, "/data");
    assert_eq!(mounts[1].fs_vfstype, "xfs");
}

#[test]
fn reserved_prefixes_are_excluded() {
    assert!(!disk::is_reported_mount("tmpfs", "/run/user/1000", "ext4"));
    assert!(!disk::is_reported_mount("x", "/sys/kernel/debug", "debugfs"));
    assert!(!disk::is_reported_mount("sunrpc", "/mnt", "ext4"));
}

#[test]
fn rotational_flag_classifies_media() {
    assert_eq!(disk::classify_rotational("1\n"), "HDD");
    assert_eq!(disk::classify_rotational("0\n"), "SSD");
    assert_eq!(disk::classify_rotational("7\n"), "Unknown");
    assert_eq!(disk::classify_rotational(""), "Unknown");
}

#[test]
fn partition_names_reduce_to_block_names() {
    match disk::device_block_name("/dev/sda1", "/dev/sda1") {
        disk::DevicePath::Block(b) => assert_eq!(b, "sda"),
        disk::DevicePath::Resolve(_) => panic!("expected a block name"),
    }
    match disk::device_block_name("/dev/nvme0n1p1", "/dev/nvme0n1p1") {
        disk::DevicePath::Block(b) => assert_eq!(b, "nvme0n1"),
        disk::DevicePath::Resolve(_) => panic!("expected a block name"),
    }
    match disk::device_block_name("/dev/mmcblk0p1", "/dev/mmcblk0p1") {
        disk::DevicePath::Block(b) => assert_eq!(b, "mmcblk0"),
        disk::DevicePath::Resolve(_) => panic!("expected a block name"),
    }
}

#[test]
fn mapped_devices_follow_their_resolved_path() {
    match disk::device_block_name("/dev/mapper/vg-root", "/dev/dm-0") {
        disk::DevicePath::Resolve(p) => assert_eq!(p, "/dev/dm-0"),
        disk::DevicePath::Block(_) => panic!("expected a resolve step"),
    }
    // Once resolution reaches a fixed point the name is used directly.
    match disk::device_block_name("/dev/dm-0", "/dev/dm-0") {
        disk::DevicePath::Block(b) => assert_eq!(b, "dm-0"),
        disk::DevicePath::Resolve(_) => panic!("expected a block name"),
    }
}
