use kiwami::install::{declared_devices_from, flake_hosts_from, normal_users_from};
use kiwami::install::{
    boot_entry_id, boot_order, clone_url, checkout_candidate, dead_entries, device_path_of,
    disk_from_sysfs, disk_in_use, eq_ignore_ascii_case, find_wanted_disk, firm_answer_of,
    gpt_guid, hardware_text, is_erase_confirmed, is_listable, is_nvme_controller_alias,
    is_root_from, live_partuuids_from, match_declared, mounted_devices_from, name_new_host,
    new_boot_order, no_host_given, note_name_of, on_installer_media_from, our_entry,
    pick_from_menu, placeholder_hardware, preferred_alias, preflight, read_host_pick,
    resolve_requested_host, scaffold_text, shell_quote, sort_disks, stable_device_from,
    target_refusal, target_state_path, validate_host_name, bitwarden_script, medium_is_for_host,
    should_carry_tailnet, utf8_len_of, Disk, HostPick, Refusal, MIN_BYTES,
};

fn strings(v: &[&str]) -> Vec<String> {
    v.iter().map(|s| s.to_string()).collect()
}

/// The aliases a real Samsung PM981 in an XPS 13 9380 actually offers.
#[test]
fn prefers_the_readable_alias_on_real_nvme() {
    let names = strings(&[
        "nvme-eui.335a48304d6407070025384100000001",
        "nvme-PM981_NVMe_Samsung_512GB_______S3ZHNA0M640707",
        "nvme-PM981_NVMe_Samsung_512GB__S3ZHNA0M640707",
        "nvme-PM981_NVMe_Samsung_512GB_______S3ZHNA0M640707_1",
    ]);
    assert_eq!(preferred_alias(&names).unwrap(), "nvme-PM981_NVMe_Samsung_512GB__S3ZHNA0M640707");
}

/// The T5 the installer booted from, same machine.
#[test]
fn prefers_the_readable_alias_on_usb() {
    let names = strings(&["wwn-0x5002538e00000000", "usb-Samsung_Portable_SSD_T5_1234567FA273-0:0"]);
    assert_eq!(preferred_alias(&names).unwrap(), "usb-Samsung_Portable_SSD_T5_1234567FA273-0:0");
}

/// What the dev VM offers, so the case that did work keeps working.
#[test]
fn prefers_the_readable_alias_in_qemu() {
    let names = strings(&[
        "nvme-nvme.1b36-6b6977616d692d746573742d6e766d65-51454d55204e564d65204374726c-00000001",
        "nvme-QEMU_NVMe_Ctrl_kiwami-test-nvme",
        "nvme-QEMU_NVMe_Ctrl_kiwami-test-nvme_1",
    ]);
    assert_eq!(preferred_alias(&names).unwrap(), "nvme-QEMU_NVMe_Ctrl_kiwami-test-nvme");
}

// Real output from the XPS, captured after four reinstalls onto the same
// disk. Boot0000 and Boot0001 share a GUID.
const XPS: &str = "\
BootCurrent: 0002
BootOrder: 0006,0005,0004,0001,0000,0002,0003
Boot0000  Windows Boot Manager\tHD(1,GPT,3bb0c7c6-67ab-4df2-bfe4-8bdb182c2e71,0x800,0x154000)/\\EFI\\Microsoft\\Boot\\bootmgfw.efi
Boot0001* Linux Boot Manager\tHD(1,GPT,3bb0c7c6-67ab-4df2-bfe4-8bdb182c2e71,0x800,0x200000)/\\EFI\\systemd\\systemd-bootx64.efi
Boot0002* UEFI: Samsung Portable SSD T5 0\tPciRoot(0x0)/Pci(0x14,0x0)/USB(12,0)/CDROM(1,0x114,0x6000)0000424f
Boot0003* UEFI: Samsung Portable SSD T5 0, Partition 2\tPciRoot(0x0)/Pci(0x14,0x0)/USB(12,0)/HD(2,MBR,0x9fb6382f,0x114,0x1800)0000424f
Boot0004* Linux Boot Manager\tHD(1,GPT,05c10375-5160-4656-9d91-9054661b4fb1,0x800,0x200000)/\\EFI\\systemd\\systemd-bootx64.efi
Boot0005* Linux Boot Manager\tHD(1,GPT,9257f17d-855a-40e5-bf51-ce11b4903ab6,0x800,0x200000)/\\EFI\\systemd\\systemd-bootx64.efi
Boot0006* Linux Boot Manager\tHD(1,GPT,5bd8c011-0071-4e4a-81e7-cb0a2186e763,0x800,0x200000)/\\EFI\\systemd\\systemd-bootx64.efi";

#[test]
fn ids_come_only_from_entries() {
    let ids: Vec<_> = XPS.lines().filter_map(boot_entry_id).collect();
    // BootCurrent and BootOrder must not be mistaken for entries.
    assert_eq!(ids, ["0000", "0001", "0002", "0003", "0004", "0005", "0006"]);
}

#[test]
fn only_gpt_paths_yield_a_guid() {
    let guids: Vec<_> = XPS.lines().filter_map(gpt_guid).collect();
    assert_eq!(guids.len(), 5, "the two USB entries have no GPT partition");
    assert!(guids.contains(&"5bd8c011-0071-4e4a-81e7-cb0a2186e763".to_string()));
}

/// A stick's entry deleted because its device path has no GUID to match,
/// or a live entry deleted by accident, is what this exists to prevent.
#[test]
fn removable_and_live_entries_are_never_candidates() {
    let live = ["5bd8c011-0071-4e4a-81e7-cb0a2186e763".to_string()];
    let doomed: Vec<_> = XPS
        .lines()
        .filter_map(|l| Some((boot_entry_id(l)?, l)))
        .filter(|(id, _)| id != "0006" && id != "0002")
        .filter_map(|(id, l)| Some((id, gpt_guid(l)?)))
        .filter(|(_, g)| !live.contains(g))
        .map(|(id, _)| id)
        .collect();
    assert_eq!(doomed, ["0000", "0001", "0004", "0005"], "only the dead GPT entries");
}

#[test]
fn dead_entries_keep_the_new_entry_and_the_stick() {
    let live = strings(&["5bd8c011-0071-4e4a-81e7-cb0a2186e763"]);
    let dead = dead_entries(XPS, "0006", &live);
    let ids: Vec<&str> = dead.iter().map(|(id, _)| id.as_str()).collect();
    assert_eq!(ids, ["0000", "0001", "0004", "0005"]);
    // What follows the tab: the device path the entry boots.
    assert_eq!(dead[0].1, "HD(1,GPT,3bb0c7c6-67ab-4df2-bfe4-8bdb182c2e71,0x800,0x154000)/\\EFI\\Microsoft\\Boot\\bootmgfw.efi");
    assert!(dead[3].1.starts_with("HD(1,GPT,9257f17d-855a-40e5-bf51-ce11b4903ab6,"));
}

#[test]
fn no_device_list_removes_nothing() {
    assert!(dead_entries(XPS, "0006", &Vec::new()).is_empty());
}

#[test]
fn the_entry_for_the_new_esp_is_found_by_its_guid() {
    assert_eq!(our_entry(XPS, "9257f17d-855a-40e5-bf51-ce11b4903ab6").unwrap(), "0005");
    assert_eq!(our_entry(XPS, "00000000-0000-0000-0000-000000000000"), None);
}

#[test]
fn boot_order_is_read_and_rewritten_with_the_entry_first() {
    let order = boot_order(XPS);
    assert_eq!(order, ["0006", "0005", "0004", "0001", "0000", "0002", "0003"]);
    assert_eq!(new_boot_order(&order, "0006"), None);
    assert_eq!(
        new_boot_order(&order, "0004").unwrap(),
        ["0004", "0006", "0005", "0001", "0000", "0002", "0003"]
    );
    assert_eq!(new_boot_order(&strings(&["0001"]), "0002").unwrap(), ["0002", "0001"]);
    assert!(boot_order("Timeout: 1").is_empty());
}

#[test]
fn partuuids_are_trimmed_lowercased_and_blank_lines_dropped() {
    assert_eq!(live_partuuids_from("  ABCD-1 \n\n5bd8c011-0071\n"), ["abcd-1", "5bd8c011-0071"]);
}

#[test]
fn nvme_controller_aliases_are_recognised() {
    assert!(is_nvme_controller_alias("nvme0c0n1"));
    assert!(is_nvme_controller_alias("nvme12c3n45"));
    assert!(!is_nvme_controller_alias("nvme0n1"));
    assert!(!is_nvme_controller_alias("nvmec0n1"));
    assert!(!is_nvme_controller_alias("nvme0c0n"));
    assert!(!is_nvme_controller_alias("sda"));
}

#[test]
fn pseudo_devices_are_not_listed() {
    for name in ["loop0", "ram1", "zram0", "sr0", "fd0", "dm-1", "nvme0c0n1"] {
        assert!(!is_listable(name), "{name}");
    }
    for name in ["sda", "nvme0n1", "vda", "mmcblk0"] {
        assert!(is_listable(name), "{name}");
    }
}

#[test]
fn mounted_devices_are_read_from_proc_mounts() {
    let mounts = "/dev/vda2 / ext4 rw 0 0\nproc /proc proc rw 0 0\n/dev/sdb1 /iso vfat ro 0 0\n";
    assert_eq!(mounted_devices_from(mounts), ["vda2", "sdb1"]);
}

#[test]
fn a_disk_is_in_use_when_it_or_a_partition_is_mounted() {
    let mounted = strings(&["vda2"]);
    assert!(disk_in_use(&mounted, "vda", &strings(&["vda1", "vda2"])));
    assert!(!disk_in_use(&mounted, "vdb", &strings(&["vdb1"])));
    assert!(disk_in_use(&strings(&["sdb"]), "sdb", &Vec::new()));
}

#[test]
fn a_sysfs_entry_becomes_a_disk() {
    let d = disk_from_sysfs(
        "vda",
        &Some("83886080\n".to_string()),
        &Some("  QEMU HARDDISK \n".to_string()),
        &Some("0\n".to_string()),
        &strings(&["vda2", "vda1"]),
        &strings(&["vda2"]),
    )
    .unwrap();
    assert_eq!(d.name, "vda");
    assert_eq!(d.path, "/dev/vda");
    assert_eq!(d.bytes, 83886080 * 512);
    assert_eq!(d.model, "QEMU HARDDISK");
    assert!(!d.removable);
    assert_eq!(d.partitions, ["vda1", "vda2"]);
    assert!(d.in_use);
    assert!(!d.is_empty());
}

#[test]
fn unreadable_sysfs_files_fall_back() {
    let d = disk_from_sysfs("sdb", &Some("100".to_string()), &None, &None, &Vec::new(), &Vec::new()).unwrap();
    assert_eq!(d.model, "unknown");
    assert!(!d.removable);
    assert!(d.is_empty());
    assert!(!d.in_use);
    let r = disk_from_sysfs("sdc", &Some("8".to_string()), &None, &Some("1".to_string()), &Vec::new(), &Vec::new());
    assert!(r.unwrap().removable);
}

#[test]
fn empty_or_pseudo_devices_are_skipped() {
    assert!(disk_from_sysfs("sda", &Some("0".to_string()), &None, &None, &Vec::new(), &Vec::new()).is_none());
    assert!(disk_from_sysfs("sda", &None, &None, &None, &Vec::new(), &Vec::new()).is_none());
    assert!(disk_from_sysfs("sda", &Some("x".to_string()), &None, &None, &Vec::new(), &Vec::new()).is_none());
    assert!(disk_from_sysfs("loop0", &Some("10".to_string()), &None, &None, &Vec::new(), &Vec::new()).is_none());
}

fn disk(name: &str, bytes: u64, in_use: bool) -> Disk {
    Disk {
        name: name.to_string(),
        path: format!("/dev/{name}"),
        bytes,
        model: "m".to_string(),
        removable: false,
        partitions: Vec::new(),
        in_use,
    }
}

#[test]
fn disks_are_ordered_by_name() {
    let sorted = sort_disks(vec![disk("vdb", 1, false), disk("nvme0n1", 2, false), disk("sda", 3, false)]);
    let names: Vec<&str> = sorted.iter().map(|d| d.name.as_str()).collect();
    assert_eq!(names, ["nvme0n1", "sda", "vdb"]);
}

#[test]
fn mounted_and_small_targets_are_refused() {
    assert!(matches!(target_refusal(&disk("sda", MIN_BYTES, true), false), Some(Refusal::Mounted)));
    assert!(target_refusal(&disk("sda", MIN_BYTES, true), true).is_none());
    assert!(matches!(target_refusal(&disk("sda", MIN_BYTES - 1, false), true), Some(Refusal::TooSmall)));
    assert!(target_refusal(&disk("sda", MIN_BYTES, false), false).is_none());
}

#[test]
fn host_names_are_checked() {
    assert!(validate_host_name("xps-13_b").is_ok());
    assert_eq!(
        validate_host_name("my host").unwrap_err(),
        "bad host name: my host\nUse letters, digits, dashes and underscores."
    );
    assert!(validate_host_name("").is_err());
    assert!(validate_host_name("caf\u{e9}").is_err());
}

#[test]
fn a_requested_host_is_resolved() {
    let hosts = strings(&["vm", "xps"]);
    let p = resolve_requested_host(&hosts, "xps", false, false, "github:o/r").unwrap();
    assert_eq!(p.name, "xps");
    assert!(!p.create);
    assert_eq!(
        resolve_requested_host(&hosts, "new", false, true, "github:o/r").err().unwrap(),
        "no such host: new\nAvailable: vm, xps\ngithub:o/r is fetched read-only, so a new host cannot be added to it."
    );
    assert_eq!(
        resolve_requested_host(&hosts, "new", true, false, ".").err().unwrap(),
        "no such host: new\nAvailable: vm, xps\nPass --new to scaffold hosts/new instead."
    );
    let p = resolve_requested_host(&hosts, "new", true, true, ".").unwrap();
    assert_eq!(p.name, "new");
    assert!(p.create);
    assert!(resolve_requested_host(&hosts, "bad name", true, true, ".").is_err());
    assert_eq!(no_host_given(&hosts), "--yes needs an explicit --host.\nAvailable: vm, xps");
}

#[test]
fn host_menu_answers() {
    assert!(matches!(read_host_pick("N", 3), HostPick::NewMachine));
    assert!(matches!(read_host_pick("2", 3), HostPick::Listed(2)));
    assert!(matches!(read_host_pick("4", 3), HostPick::Again));
    assert!(matches!(read_host_pick("0", 3), HostPick::Again));
    assert!(matches!(read_host_pick("", 3), HostPick::Again));
    let hosts = strings(&["vm"]);
    assert_eq!(
        name_new_host(&hosts, "vm").err().unwrap(),
        "vm already exists; pick it from the list, or choose another name."
    );
    assert!(name_new_host(&hosts, "laptop").unwrap().create);
}

#[test]
fn menu_numbers_count_from_one() {
    assert_eq!(pick_from_menu("1", 2), Some(1));
    assert_eq!(pick_from_menu("+2", 2), Some(2));
    assert_eq!(pick_from_menu("3", 2), None);
    assert_eq!(pick_from_menu("x", 2), None);
}

#[test]
fn answers_that_insist() {
    assert_eq!(firm_answer_of(" YES "), Some(true));
    assert_eq!(firm_answer_of("n"), Some(false));
    assert_eq!(firm_answer_of(""), None);
    assert_eq!(firm_answer_of("maybe"), None);
    assert!(eq_ignore_ascii_case("Y", "y"));
    assert!(!eq_ignore_ascii_case("yes", "y"));
    assert!(is_erase_confirmed("yes"));
    assert!(!is_erase_confirmed("y"));
    assert_eq!(note_name_of("  "), "kiwami-backup");
    assert_eq!(note_name_of("kiwami-backups-xps"), "kiwami-backups-xps");
}

#[test]
fn disks_given_by_name_or_path() {
    assert_eq!(device_path_of("nvme0n1"), "/dev/nvme0n1");
    assert_eq!(device_path_of("/dev/sda"), "/dev/sda");
    let paths = strings(&["/dev/sda", "/dev/vda"]);
    assert_eq!(find_wanted_disk(&paths, "vda"), Ok(1));
    assert_eq!(find_wanted_disk(&paths, "sdz"), Err("no such disk: /dev/sdz".to_string()));
}

#[test]
fn declared_disks_are_matched() {
    let paths = strings(&["/dev/sda", "/dev/vda", "/dev/vdb"]);
    let declared = strings(&["/dev/vdb", "/dev/vda"]);
    assert_eq!(match_declared(&declared, &paths, &None, "vm"), Ok(vec![2, 1]));
    assert_eq!(
        match_declared(&declared, &paths, &Some("sda".to_string()), "vm").unwrap_err(),
        "--disk /dev/sda is not what vm declares.\nIts disk.nix names: /dev/vdb, /dev/vda\nEdit disk.nix instead - the layout is what formats, not this flag."
    );
    assert_eq!(
        match_declared(&strings(&["/dev/nvme0n1"]), &paths, &None, "xps").unwrap_err(),
        "/dev/nvme0n1 is declared by xps but not present here"
    );
}

#[test]
fn stable_names_come_from_by_id() {
    let aliases = strings(&["wwn-0x5", "ata-Disk_1", "ata-Disk_1-part1"]);
    assert_eq!(stable_device_from("/dev/sda", &aliases).unwrap(), "/dev/disk/by-id/ata-Disk_1");
    assert_eq!(
        stable_device_from("/dev/sdb", &strings(&["ata-X-part2"])).unwrap_err(),
        "/dev/sdb has no /dev/disk/by-id entry, so there is no stable name to write.\nKernel names like /dev/sdb can point at a different drive after adding one."
    );
}

#[test]
fn alias_length_is_counted_in_bytes() {
    assert_eq!(utf8_len_of(&"a\u{e9}".chars().collect()), 3);
    // Two characters, four bytes: longer than three ASCII characters.
    assert_eq!(preferred_alias(&strings(&["\u{e9}\u{e9}", "abc"])).unwrap(), "abc");
    assert_eq!(preferred_alias(&strings(&["\u{e9}", "abc"])).unwrap(), "\u{e9}");
    assert_eq!(preferred_alias(&strings(&["x\u{e9}", "abc"])).unwrap(), "abc");
    assert_eq!(preferred_alias(&Vec::new()), None);
}

#[test]
fn clone_urls_for_the_shapes_worth_guessing() {
    assert_eq!(clone_url("github:kiwamios/kiwami").unwrap(), "https://github.com/kiwamios/kiwami");
    assert_eq!(clone_url("github:kiwamios/kiwami/dev?dir=x").unwrap(), "https://github.com/kiwamios/kiwami");
    assert_eq!(clone_url("github:kiwamios"), None);
    assert_eq!(clone_url("git+https://example.org/x.git?ref=main").unwrap(), "https://example.org/x.git");
    assert_eq!(clone_url("https://example.org/x#frag").unwrap(), "https://example.org/x");
    assert_eq!(clone_url("/home/me/kiwami"), None);
}

#[test]
fn local_checkouts_are_paths_without_a_scheme() {
    assert_eq!(checkout_candidate("/home/me/kiwami").unwrap(), "/home/me/kiwami");
    assert_eq!(checkout_candidate("path:/srv/k").unwrap(), "/srv/k");
    assert_eq!(checkout_candidate("github:o/r"), None);
}

#[test]
fn state_goes_under_persist_when_there_is_one() {
    assert_eq!(target_state_path("/var/lib/kiwami/home.key", true), "/mnt/persist/var/lib/kiwami/home.key");
    assert_eq!(target_state_path("etc/x", false), "/mnt/etc/x");
}

#[test]
fn shell_quoting_survives_quotes() {
    assert_eq!(shell_quote("kiwami-backup"), "'kiwami-backup'");
    assert_eq!(shell_quote("it's"), "'it'\\''s'");
    assert_eq!(shell_quote(""), "''");
}

#[test]
fn the_bitwarden_script_quotes_its_names() {
    let s = bitwarden_script("a b", "/tmp/x");
    assert!(s.contains("bw get notes 'a b' --session \"$s\" > '/tmp/x' || exit 1\n"));
    assert!(s.starts_with("set -o pipefail\n"));
}

#[test]
fn the_installer_is_recognised() {
    assert!(on_installer_media_from("NAME=NixOS\nVARIANT_ID=installer\n", ""));
    assert!(on_installer_media_from("", "tmpfs / tmpfs rw 0 0\n"));
    assert!(on_installer_media_from("", "x\n/dev/root / overlay rw 0 0\n"));
    assert!(!on_installer_media_from("NAME=NixOS\n", "/dev/nvme0n1p2 / btrfs rw 0 0\ntmpfs / tmpfs rw 0 0\n"));
    assert!(!on_installer_media_from("", ""));
}

#[test]
fn root_is_read_from_proc_status() {
    assert!(is_root_from("Name:\tbash\nUid:\t0\t0\t0\t0\n"));
    assert!(!is_root_from("Uid:\t1000\t1000\t1000\t1000\n"));
    assert!(!is_root_from("Name:\tbash\n"));
}

#[test]
fn preflight_refuses_in_order() {
    assert!(preflight(true, false, true).is_ok());
    assert!(preflight(false, false, true).unwrap_err().starts_with("this looks like an installed NixOS system"));
    assert!(preflight(false, true, true).is_ok());
    assert_eq!(preflight(true, false, false).unwrap_err(), "must run as root (try: sudo kiwami install)");
}

#[test]
fn generated_hardware_loses_its_own_header() {
    let t = hardware_text("# Do not modify this file!\n#  it points elsewhere\n{ config, ... }:\n{\n}\n");
    assert!(t.starts_with("# Hardware facts for this machine, detected by `kiwami install`.\n"));
    assert!(t.ends_with("#   nixos-generate-config --show-hardware-config --no-filesystems\n#\n# Choices - hostname, users, monitors - belong in default.nix beside this.\n{ config, ... }:\n{\n}\n"));
    assert!(!t.contains("Do not modify"));
}

#[test]
fn placeholders_exist_for_both_architectures() {
    assert!(placeholder_hardware("x86_64").unwrap().contains("lib.mkDefault \"x86_64-linux\";"));
    assert!(placeholder_hardware("aarch64").unwrap().contains("\"aarch64-linux\""));
    assert_eq!(placeholder_hardware("riscv64").unwrap_err(), "unsupported architecture: riscv64");
}

#[test]
fn a_scaffolded_host_names_itself_and_its_flake() {
    let t = scaffold_text("xps", "github:kiwamios/kiwami");
    assert!(t.starts_with("# xps\n#\n"));
    assert!(t.contains("`nixos-rebuild switch --flake .#xps`"));
    assert!(t.contains("  networking.hostName = \"xps\";\n"));
    assert!(t.contains("  kiwami.flake = \"github:kiwamios/kiwami\";\n"));
    assert!(t.contains("  kiwami.user = \"kiwami\";\n"));
    assert!(t.ends_with("  system.stateVersion = \"26.05\";\n}\n"));
}

#[test]
fn a_medium_carries_only_its_own_host() {
    assert!(medium_is_for_host("xps\n", "xps"));
    assert!(!medium_is_for_host("vm\n", "xps"));
}

#[test]
fn the_backed_up_tailnet_identity_wins() {
    assert!(!should_carry_tailnet(true, true, true));
    assert!(should_carry_tailnet(true, false, true));
    assert!(should_carry_tailnet(false, true, true));
    assert!(!should_carry_tailnet(false, false, false));
}

#[test]
fn a_password_hash_lands_under_the_target_state() {
    assert_eq!(
        kiwami::install::password_target("/var/lib/kiwami/passwords", "k", true),
        "/mnt/persist/var/lib/kiwami/passwords/k"
    );
    assert_eq!(
        kiwami::install::password_target("//var/lib/kiwami/passwords", "k", false),
        "/mnt/var/lib/kiwami/passwords/k"
    );
}

#[test]
fn nix_lists_are_read_or_reported() {
    assert_eq!(flake_hosts_from(b"[\"box\",\"xps\"]").unwrap(), vec!["box".to_string(), "xps".to_string()]);
    assert!(flake_hosts_from(b"{}").unwrap_err().starts_with("unexpected output from nix: "));
    assert_eq!(declared_devices_from(b"[\"/dev/disk/by-id/a\"]").unwrap(), vec!["/dev/disk/by-id/a".to_string()]);
    assert!(declared_devices_from(b"nope").unwrap_err().starts_with("unexpected output: "));
    assert_eq!(normal_users_from(b"[\"k\"]"), vec!["k".to_string()]);
    assert!(normal_users_from(b"null").is_empty());
}

#[test]
fn the_stable_name_is_the_first_whole_disk_alias() {
    let names: Vec<String> = vec![
        "wwn-0x5002538e00000000".to_string(),
        "ata-Samsung_SSD_860_S3Z".to_string(),
        "ata-Samsung_SSD_860_S3Z-part1".to_string(),
        "ata-Samsung_SSD_860".to_string(),
    ];
    assert_eq!(
        kiwami::install::stable_device_from("/dev/sda", &names).unwrap(),
        "/dev/disk/by-id/ata-Samsung_SSD_860"
    );
}
