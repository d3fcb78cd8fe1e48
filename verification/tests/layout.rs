use kiwami::layout::{describe_layout_change, ram_gib_from, render_disk_nix, swap_size_of, Layout};

const SYS: &str = "/dev/disk/by-id/nvme-PM981_NVMe_Samsung_512GB__S3ZHNA0M640707";
const HOME: &str = "/dev/disk/by-id/ata-Samsung_SSD_860_S3Z";

#[test]
fn swap_is_half_of_ram_within_reason() {
    assert_eq!(swap_size_of(1), 2);
    assert_eq!(swap_size_of(4), 2);
    assert_eq!(swap_size_of(6), 3);
    assert_eq!(swap_size_of(16), 8);
    assert_eq!(swap_size_of(64), 16);
}

#[test]
fn ram_is_read_from_meminfo_and_rounded_up() {
    assert_eq!(ram_gib_from("MemTotal:       16303348 kB\nMemFree: 1 kB\n"), Some(16));
    assert_eq!(ram_gib_from("MemTotal: 1048576 kB\n"), Some(1));
    assert_eq!(ram_gib_from("MemTotal: 1048577 kB\n"), Some(2));
    assert_eq!(ram_gib_from("MemTotal: 1 kB\n"), Some(1));
    assert_eq!(ram_gib_from("MemTotal: 0 kB\n"), Some(1));
    assert_eq!(ram_gib_from("MemFree: 5 kB\n"), None);
    assert_eq!(ram_gib_from("MemTotal:\n"), None);
    assert_eq!(ram_gib_from("MemTotal: lots kB\n"), None);
}

#[test]
fn the_chosen_layout_is_ephemeral_without_hibernation() {
    let l = Layout::chosen("/dev/nvme0n1".to_string(), None, true);
    assert!(l.ephemeral());
    assert!(!l.hibernate());
    assert!(l.encrypt());
    assert_eq!(l.system(), "/dev/nvme0n1");
    assert!(l.home().is_none());
}

#[test]
fn a_plain_layout_is_an_esp_and_a_btrfs_root() {
    let l = Layout::chosen("/dev/nvme0n1".to_string(), None, false);
    let t = render_disk_nix(&l, SYS, &None, 16);
    assert!(t.starts_with("# Disk layout for this machine, written by `kiwami install`.\n#\n"));
    assert!(t.contains("#\n# Swap is zram plus a 8G swapfile on @swap, not a partition:\n"));
    assert!(t.contains("{ ... }:\n\n{\n  disko.devices = {\n    disk = {\n      system = {\n        type = \"disk\";\n"));
    assert!(t.contains(&format!("        device = \"{SYS}\";\n")));
    assert!(t.contains(
        "            ESP = {\n              size = \"1G\";\n              type = \"EF00\";\n              content = {\n                type = \"filesystem\";\n                format = \"vfat\";\n                mountpoint = \"/boot\";\n                mountOptions = [ \"umask=0077\" ];\n              };\n            };\n"
    ));
    assert!(t.contains("                type = \"btrfs\";\n                extraArgs = [ \"-f\" ];\n"));
    assert!(t.contains("                  \"@root\" = {\n                    mountpoint = \"/\";\n                    mountOptions = [ \"compress=zstd\" \"noatime\" ];\n                  };\n"));
    assert!(t.contains("                  # Everything declared is bound out of here, including the home\n                  # paths - so this is what to snapshot or back up.\n                  \"@persist\" = {\n"));
    assert!(t.contains("                    swap.swapfile.size = \"8G\";\n"));
    assert!(t.contains("                postCreateHook = ''\nMNTPOINT=$(mktemp -d)\n                 mount \"$device\" \"$MNTPOINT\" -o subvol=/\n"));
    assert!(t.contains("btrfs subvolume snapshot -r \"$MNTPOINT/@root\" \"$MNTPOINT/@root-blank\"\n          '';\n"));
    assert!(!t.contains("luks"));
    assert!(!t.contains("lvm_vg"));
    assert!(t.ends_with("    };\n  };\n}\n"));
}

#[test]
fn an_encrypted_layout_with_a_home_disk_unlocks_it_from_a_key() {
    let l = Layout::chosen("/dev/nvme0n1".to_string(), Some("/dev/sda".to_string()), true);
    let t = render_disk_nix(&l, SYS, &Some(HOME.to_string()), 8);
    assert!(t.contains("#\n# /home unlocks from /var/lib/kiwami/home.key, which lives on the encrypted root, so\n"));
    assert!(t.contains("# Swap is zram plus a 4G swapfile on @swap"));
    assert!(t.contains("                type = \"luks\";\n                name = \"cryptroot\";\n                settings.allowDiscards = true;\n"));
    assert!(t.contains("             mount \"/dev/mapper/cryptroot\" \"$MNTPOINT\" -o subvol=/\n"));
    assert!(t.contains(&format!("      home = {{\n        type = \"disk\";\n        device = \"{HOME}\";\n")));
    assert!(t.contains("                name = \"crypthome\";\n"));
    assert!(t.contains("                # Not needed to boot, so it is unlocked later - which is what\n                # makes the key on the decrypted root reachable at all.\n                initrdUnlock = false;\n"));
    assert!(t.contains("                settings.keyFile = \"/var/lib/kiwami/home.key\";\n                additionalKeyFiles = [ \"/var/lib/kiwami/home.key\" ];\n"));
    assert!(t.contains("                  mountpoint = \"/home\";\n"));
}

#[test]
fn hibernating_layouts_get_a_swap_the_size_of_ram() {
    let l = Layout::new("/dev/vda".to_string(), None, true, true, true);
    let t = render_disk_nix(&l, SYS, &None, 12);
    assert!(t.contains("    lvm_vg = {\n      pool = {\n        type = \"lvm_vg\";\n"));
    assert!(t.contains("            size = \"12G\";\n"));
    assert!(t.contains("              resumeDevice = true;\n"));
    assert!(t.contains("                  type = \"lvm_pv\";\n                  vg = \"pool\";\n"));
    assert!(t.contains("# Swap is a logical volume inside the LUKS container"));
    assert!(!t.contains("zram plus"));

    let l = Layout::new("/dev/vda".to_string(), None, false, true, false);
    let t = render_disk_nix(&l, SYS, &None, 12);
    assert!(t.contains("            swap = {\n              size = \"12G\";\n"));
    assert!(t.contains("                format = \"ext4\";\n"));
    assert!(!t.contains("btrfs"));
}

#[test]
fn device_names_are_escaped_for_nix() {
    let l = Layout::new("/dev/vda".to_string(), None, false, false, false);
    let t = render_disk_nix(&l, "/dev/disk/by-id/a\"b$c\\d", &None, 4);
    assert!(t.contains("device = \"/dev/disk/by-id/a\\\"b\\$c\\\\d\";"));
}

#[test]
fn a_replaced_layout_is_described_in_the_terms_asked() {
    let plain = Layout::chosen("/dev/nvme0n1".to_string(), None, false);
    let before = render_disk_nix(&plain, SYS, &None, 16);
    let encrypted = Layout::chosen("/dev/nvme0n1".to_string(), Some("/dev/sda".to_string()), true);
    let lines = describe_layout_change(&before, &encrypted);
    assert_eq!(
        lines,
        [
            "    \x1b[33mencrypted: no -> yes\x1b[0m",
            "    \x1b[33mseparate /home disk: no -> yes\x1b[0m",
            "    system disk: /dev/nvme0n1",
            "    home disk:   /dev/sda",
        ]
    );
}

#[test]
fn a_layout_read_back_over_its_own_file_shows_no_change() {
    let l = Layout::chosen("/dev/nvme0n1".to_string(), Some("/dev/sda".to_string()), true);
    let file = render_disk_nix(&l, SYS, &Some(HOME.to_string()), 16);
    let lines = describe_layout_change(&file, &l);
    assert_eq!(lines[0], "    encrypted: yes");
    assert_eq!(lines[1], "    separate /home disk: yes");
}
