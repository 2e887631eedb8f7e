use fs_catalog::bootloader::BootloaderSettings;
use fs_catalog::{FileSystem, FileSystemsList, FileSystemsReader};

#[test]
fn test_empty_quoted_fields_are_absent() {
    let line = r#"KNAME="sda1" FSTYPE="ext4" MOUNTPOINT="" TRAN="" LABEL=""
"#;
    let records = FileSystemsReader::read_from_string(line);
    assert_eq!(records.len(), 1);
    let r = &records[0];
    assert_eq!(r.block_device, "sda1");
    assert_eq!(r.fstype, Some("ext4".to_string()));
    assert!(r.mount_point.is_none());
    assert!(r.transport.is_none());
    assert!(r.label.is_none());
}

#[test]
fn test_fields_accepted_in_any_order() {
    let line = r#"LABEL="DATA" TRAN="usb" MOUNTPOINT="/mnt/data" FSTYPE="ext4" KNAME="sdb1"
"#;
    let records = FileSystemsReader::read_from_string(line);
    assert_eq!(records.len(), 1);
    let r = &records[0];
    assert_eq!(r.block_device, "sdb1");
    assert_eq!(r.fstype, Some("ext4".to_string()));
    assert_eq!(r.mount_point, Some("/mnt/data".to_string()));
    assert_eq!(r.transport, Some("usb".to_string()));
    assert_eq!(r.label, Some("DATA".to_string()));
}

#[test]
fn test_value_may_contain_spaces() {
    let line = r#"KNAME="sdb1" FSTYPE="vfat" MOUNTPOINT="/run/media/my stick" TRAN="" LABEL="my stick"
"#;
    let records = FileSystemsReader::read_from_string(line);
    assert_eq!(records.len(), 1);
    assert_eq!(records[0].mount_point, Some("/run/media/my stick".to_string()));
    assert_eq!(records[0].label, Some("my stick".to_string()));
}

#[test]
fn test_malformed_lines_are_skipped() {
    let text = r#"this line carries no fields at all
KNAME="sda1" FSTYPE="ext4" MOUNTPOINT="" TRAN="" LABEL=""
KNAME="broken FSTYPE="ext4" MOUNTPOINT="" TRAN="" LABEL=""
KNAME="dup" KNAME="dup" FSTYPE="ext4" MOUNTPOINT="" TRAN="" LABEL=""
KNAME="nokey" FSTYPE="ext4" MOUNTPOINT="" TRAN=""
KNAME="" FSTYPE="ext4" MOUNTPOINT="" TRAN="" LABEL=""
"#;
    let records = FileSystemsReader::read_from_string(text);
    assert_eq!(records.len(), 1);
    assert_eq!(records[0].block_device, "sda1");
}

#[test]
fn test_transport_inheritance_from_parent() {
    let text = r#"KNAME="sda" FSTYPE="" MOUNTPOINT="" TRAN="usb" LABEL=""
KNAME="sda1" FSTYPE="ext4" MOUNTPOINT="" TRAN="" LABEL=""
KNAME="sda2" FSTYPE="vfat" MOUNTPOINT="" TRAN="" LABEL=""
KNAME="nvme0n1" FSTYPE="" MOUNTPOINT="" TRAN="nvme" LABEL=""
KNAME="nvme0n1p1" FSTYPE="ext4" MOUNTPOINT="" TRAN="" LABEL=""
"#;
    let records = FileSystemsReader::read_from_string(text);
    assert_eq!(records.len(), 3);
    assert_eq!(records[0].block_device, "sda1");
    assert_eq!(records[0].transport, Some("usb".to_string()));
    assert_eq!(records[1].block_device, "sda2");
    assert_eq!(records[1].transport, Some("usb".to_string()));
    assert_eq!(records[2].block_device, "nvme0n1p1");
    assert_eq!(records[2].transport, Some("nvme".to_string()));
}

#[test]
fn test_record_without_transport_does_not_poison_inheritance() {
    let text = r#"KNAME="sda" FSTYPE="" MOUNTPOINT="" TRAN="usb" LABEL=""
KNAME="vda" FSTYPE="" MOUNTPOINT="" TRAN="" LABEL=""
KNAME="vda1" FSTYPE="ext4" MOUNTPOINT="" TRAN="" LABEL=""
"#;
    let records = FileSystemsReader::read_from_string(text);
    assert_eq!(records.len(), 1);
    assert_eq!(records[0].block_device, "vda1");
    assert_eq!(records[0].transport, Some("usb".to_string()));
}

#[test]
fn test_non_mountable_types_are_filtered() {
    let text = r#"KNAME="sda" FSTYPE="" MOUNTPOINT="" TRAN="usb" LABEL="bare"
KNAME="sda1" FSTYPE="crypto_LUKS" MOUNTPOINT="" TRAN="" LABEL="secret"
KNAME="sda2" FSTYPE="swap" MOUNTPOINT="[SWAP]" TRAN="" LABEL="swap"
KNAME="sda3" FSTYPE="ext4" MOUNTPOINT="" TRAN="" LABEL="ok"
"#;
    let list = FileSystemsList::from_listing(text);
    let all = list.to_vec();
    assert_eq!(all.len(), 1);
    assert_eq!(all[0].block_device, "sda3");
    assert!(list.by_name("sda").is_none());
    assert!(list.by_name("sda1").is_none());
    assert!(list.by_name("sda2").is_none());
}

#[test]
fn test_end_to_end_discovery() {
    let text = r#"KNAME="sda" FSTYPE="" MOUNTPOINT="" TRAN="usb" LABEL=""
KNAME="sda1" FSTYPE="iso9660" MOUNTPOINT="" TRAN="" LABEL="X"
KNAME="sda2" FSTYPE="vfat" MOUNTPOINT="" TRAN="" LABEL="Y"
KNAME="nvme0n1p1" FSTYPE="crypto_LUKS" MOUNTPOINT="" TRAN="nvme" LABEL=""
"#;
    let list = FileSystemsList::from_listing(text);
    let all = list.to_vec();
    assert_eq!(all.len(), 2);
    assert_eq!(all[0].block_device, "sda1");
    assert_eq!(all[0].transport, Some("usb".to_string()));
    assert_eq!(all[0].label, Some("X".to_string()));
    assert_eq!(all[1].block_device, "sda2");
    assert_eq!(all[1].transport, Some("usb".to_string()));
    assert_eq!(all[1].label, Some("Y".to_string()));
    assert!(list.by_name("nvme0n1p1").is_none());
    assert!(list.by_name("sda").is_none());
}

#[test]
fn test_by_name_exact_match_only() {
    let list = FileSystemsList::new(vec![FileSystem {
        block_device: "sda1".to_string(),
        fstype: Some("ext4".to_string()),
        ..Default::default()
    }]);
    assert!(list.by_name("sda").is_none());
    assert!(list.by_name("sda12").is_none());
    let found = list.by_name("sda1").unwrap();
    assert_eq!(&found.block_device, "sda1");
}

#[test]
fn test_queries_on_zero_matches_yield_empty_catalog() {
    let mut list = FileSystemsList::from_listing("");
    assert_eq!(list.to_vec().len(), 0);
    assert!(list.by_name("sda").is_none());
    assert_eq!(list.by_label("OEMDRV").to_vec().len(), 0);
    assert_eq!(list.by_transport("usb").to_vec().len(), 0);
    let mut populated = FileSystemsList::new(vec![FileSystem {
        block_device: "sr0".to_string(),
        fstype: Some("iso9660".to_string()),
        label: Some("OEMDRV".to_string()),
        ..Default::default()
    }]);
    assert_eq!(populated.by_label("OEM").to_vec().len(), 0);
    assert_eq!(populated.by_label("OEMDRV").to_vec().len(), 1);
    assert_eq!(populated.by_transport("usb").to_vec().len(), 0);
}

#[test]
fn test_to_vec_is_a_defensive_copy() {
    let list = FileSystemsList::new(vec![
        FileSystem {
            block_device: "vda1".to_string(),
            fstype: Some("ext4".to_string()),
            ..Default::default()
        },
        FileSystem {
            block_device: "vdb1".to_string(),
            fstype: Some("xfs".to_string()),
            ..Default::default()
        },
    ]);
    let first = list.to_vec();
    let second = list.to_vec();
    assert_eq!(first, second);
    let mut mutated = first;
    mutated.clear();
    assert_eq!(second.len(), 2);
    assert_eq!(list.to_vec().len(), 2);
}

#[test]
fn test_device_path_and_mount_state() {
    let mounted = FileSystem {
        block_device: "vda1".to_string(),
        fstype: Some("ext4".to_string()),
        mount_point: Some("/".to_string()),
        ..Default::default()
    };
    assert_eq!(mounted.device(), "/dev/vda1");
    assert!(mounted.is_mounted());
    let unmounted = FileSystem {
        block_device: "sr0".to_string(),
        fstype: Some("iso9660".to_string()),
        ..Default::default()
    };
    assert_eq!(unmounted.device(), "/dev/sr0");
    assert!(!unmounted.is_mounted());
}

#[test]
fn test_bootloader_settings_default() {
    let settings = BootloaderSettings::default();
    assert!(!settings.stop_on_boot_menu);
    let explicit = BootloaderSettings { stop_on_boot_menu: true };
    assert_ne!(settings, explicit);
}
