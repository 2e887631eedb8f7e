use fs_catalog::{FileSystem, FileSystemsList, FileSystemsReader};

fn build_file_systems() -> Vec<FileSystem> {
    let vda1 = FileSystem {
        block_device: "vda1".to_string(),
        fstype: Some("ext4".to_string()),
        mount_point: Some("/".to_string()),
        ..Default::default()
    };
    let vdb1 = FileSystem {
        block_device: "vdb1".to_string(),
        fstype: Some("xfs".to_string()),
        mount_point: Some("/home".to_string()),
        ..Default::default()
    };
    let usb = FileSystem {
        block_device: "sr0".to_string(),
        fstype: Some("vfat".to_string()),
        mount_point: None,
        transport: Some("usb".to_string()),
        label: Some("OEMDRV".to_string()),
        ..Default::default()
    };
    vec![vda1, vdb1, usb]
}

#[test]
fn test_find_file_system_by_name() {
    let file_systems = build_file_systems();
    let list = FileSystemsList::new(file_systems);
    let vdb1 = list.by_name("vdb1").unwrap();
    assert_eq!(&vdb1.block_device, "vdb1");
}

#[test]
fn test_find_file_system_by_label() {
    let file_systems = build_file_systems();
    let mut list = FileSystemsList::new(file_systems);
    let found = list.by_label("OEMDRV").to_vec();
    let usb = found.first().unwrap();
    assert_eq!(&usb.block_device, "sr0");
}

#[test]
fn test_find_file_system_by_transport() {
    let file_systems = build_file_systems();
    let mut list = FileSystemsList::new(file_systems);
    let found = list.by_transport("usb").to_vec();
    let usb = found.first().unwrap();
    assert_eq!(&usb.block_device, "sr0");
}

#[test]
fn test_find_all() {
    let file_systems = build_file_systems();
    let finder = FileSystemsList::new(file_systems);
    let all = finder.to_vec();
    assert_eq!(all.len(), 3);
}

#[test]
fn test_parse_file_systems() {
    let lsblk = r#"KNAME="sda" FSTYPE="" MOUNTPOINT="" TRAN="usb" LABEL=""
KNAME="sda1" FSTYPE="iso9660" MOUNTPOINT="/run/media/user/agama-installer" TRAN="" LABEL="agama-installer"
KNAME="sda2" FSTYPE="vfat" MOUNTPOINT="" TRAN="" LABEL="BOOT"
KNAME="nvme0n1" FSTYPE="" MOUNTPOINT="" TRAN="nvme" LABEL=""
KNAME="nvme0n1p1" FSTYPE="vfat" MOUNTPOINT="/boot/efi" TRAN="nvme" LABEL=""
KNAME="nvme0n1p2" FSTYPE="crypto_LUKS" MOUNTPOINT="" TRAN="nvme" LABEL=""
KNAME="dm-0" FSTYPE="btrfs" MOUNTPOINT="/home" TRAN="" LABEL=""
KNAME="nvme0n1p3" FSTYPE="crypto_LUKS" MOUNTPOINT="" TRAN="nvme" LABEL=""
KNAME="dm-1" FSTYPE="swap" MOUNTPOINT="[SWAP]" TRAN="" LABEL=""
"#;
    let file_systems = FileSystemsReader::read_from_string(&lsblk);
    assert_eq!(file_systems.len(), 4)
}
