//! The disk layout a new machine is installed with, and the disk.nix that
//! declares it.
//!
//! Four questions decide a layout: which disk holds the system, whether
//! /home gets a disk of its own, whether to encrypt, and whether to
//! hibernate. Every machine this installs has an ephemeral root. From the
//! answers, disk.nix is written as a disko declaration: disko formats from
//! it, and fileSystems is derived from the same tree.

use vstd::prelude::*;
use crate::doctor::opt_view;
use crate::nixtext::{
    attrs, attrs_of, comments, entry, entry_of, esc, lemma_attrs_contains, lemma_contains_within, lemma_entry_contains,
    list, list_of, noted, noted_of, quoted, quoted_of, quoted_str,
};
use crate::text::{
    chars_of, contains, copy_of, occurs_at, decimal, decimal_of, first_starting, first_starting_of, has_sub, lines,
    lines_of, parse_unsigned, parse_unsigned_of, push_all, push_str, string_of, string_views, views, words,
    words_of,
};

verus! {

/// Where the key that opens a second encrypted disk lives, on the already
/// decrypted root. Not under /etc, which NixOS builds from the world-readable
/// store; /var/lib is plain mutable state and stays mode 0600.
pub open spec fn keyfile() -> Seq<char> {
    "/var/lib/kiwami/home.key"@
}

/// The answers to the layout questions.
pub struct Layout {
    system: String,
    home: Option<String>,
    encrypt: bool,
    hibernate: bool,
    ephemeral: bool,
}

/// A layout as plain values.
pub struct LayoutView {
    pub system: Seq<char>,
    pub home: Option<Seq<char>>,
    pub encrypt: bool,
    pub hibernate: bool,
    pub ephemeral: bool,
}

impl View for Layout {
    type V = LayoutView;

    closed spec fn view(&self) -> LayoutView {
        LayoutView {
            system: self.system@,
            home: opt_view(self.home),
            encrypt: self.encrypt,
            hibernate: self.hibernate,
            ephemeral: self.ephemeral,
        }
    }
}

impl Layout {
    /// A layout with every choice given.
    pub fn new(system: String, home: Option<String>, encrypt: bool, hibernate: bool, ephemeral: bool) -> (l: Layout)
        ensures
            l@ == (LayoutView { system: system@, home: opt_view(home), encrypt, hibernate, ephemeral }),
    {
        Layout { system, home, encrypt, hibernate, ephemeral }
    }

    /// What the installer's questions produce. Hibernation is not offered -
    /// with an ephemeral root its swap area would have to live inside the
    /// btrfs that is rolled back - and every machine is ephemeral.
    pub fn chosen(system: String, home: Option<String>, encrypt: bool) -> (l: Layout)
        ensures
            l@ == (LayoutView { system: system@, home: opt_view(home), encrypt, hibernate: false, ephemeral: true }),
    {
        Layout { system, home, encrypt, hibernate: false, ephemeral: true }
    }

    pub fn system(&self) -> (r: &String)
        ensures
            r@ == self@.system,
    {
        &self.system
    }

    pub fn home(&self) -> (r: &Option<String>)
        ensures
            opt_view(*r) == self@.home,
    {
        &self.home
    }

    pub fn encrypt(&self) -> (r: bool)
        ensures
            r == self@.encrypt,
    {
        self.encrypt
    }

    pub fn hibernate(&self) -> (r: bool)
        ensures
            r == self@.hibernate,
    {
        self.hibernate
    }

    pub fn ephemeral(&self) -> (r: bool)
        ensures
            r == self@.ephemeral,
    {
        self.ephemeral
    }

    /// Whether the /home disk unlocks from a key kept on the encrypted root,
    /// which has to be made before the format.
    pub fn needs_home_key(&self) -> (r: bool)
        ensures
            r == (self@.encrypt && self@.home is Some),
    {
        self.encrypt && self.home.is_some()
    }
}

// ---------------------------------------------------------------- specs

/// Half of RAM, within reason: between 2 and 16 GiB.
pub open spec fn swap_size(ram_gib: nat) -> nat {
    let half = ram_gib / 2;
    if half < 2 {
        2
    } else if half > 16 {
        16
    } else {
        half
    }
}

/// A size of `n` GiB, as disko writes it.
pub open spec fn gib(n: nat) -> Seq<char> {
    quoted(decimal(n) + "G"@)
}

/// The filesystem at the bottom of whatever nesting there is.
pub open spec fn fs_content(ind: nat, mountpoint: Seq<char>) -> Seq<char> {
    attrs(ind, seq![
        entry(ind + 1, "type"@, quoted("filesystem"@)),
        entry(ind + 1, "format"@, quoted("ext4"@)),
        entry(ind + 1, "mountpoint"@, quoted(mountpoint)),
    ])
}

pub open spec fn note_resume() -> Seq<char> {
    "Resuming reads the image back from here, so the kernel is told\nwhich device holds it."@
}

/// Where the hibernation image is written.
pub open spec fn swap_content(ind: nat) -> Seq<char> {
    attrs(ind, seq![
        entry(ind + 1, "type"@, quoted("swap"@)),
        noted(ind + 1, "resumeDevice"@, note_resume(), "true"@),
    ])
}

/// A LUKS container named `name` around `inner`, which was rendered at
/// level `ind + 1`, with `extra` bindings before its content.
pub open spec fn luks(ind: nat, name: Seq<char>, inner: Seq<char>, extra: Seq<Seq<char>>) -> Seq<char> {
    attrs(ind, seq![
        entry(ind + 1, "type"@, quoted("luks"@)),
        entry(ind + 1, "name"@, quoted(name)),
        entry(ind + 1, "settings.allowDiscards"@, "true"@),
    ] + extra + seq![entry(ind + 1, "content"@, inner)])
}

/// A GPT table with the given partitions, written at level `ind + 2`.
pub open spec fn gpt(ind: nat, partitions: Seq<Seq<char>>) -> Seq<char> {
    attrs(ind, seq![
        entry(ind + 1, "type"@, quoted("gpt"@)),
        entry(ind + 1, "partitions"@, attrs(ind + 1, partitions)),
    ])
}

/// The EFI system partition, as a binding at level `ind`.
pub open spec fn esp(ind: nat) -> Seq<char> {
    entry(ind, "ESP"@, attrs(ind, seq![
        entry(ind + 1, "size"@, quoted("1G"@)),
        entry(ind + 1, "type"@, quoted("EF00"@)),
        entry(ind + 1, "content"@, attrs(ind + 1, seq![
            entry(ind + 2, "type"@, quoted("filesystem"@)),
            entry(ind + 2, "format"@, quoted("vfat"@)),
            entry(ind + 2, "mountpoint"@, quoted("/boot"@)),
            entry(ind + 2, "mountOptions"@, list(seq![quoted("umask=0077"@)])),
        ])),
    ]))
}

/// A compressed btrfs subvolume mounted at `mount`.
pub open spec fn subvol(ind: nat, mount: Seq<char>) -> Seq<char> {
    attrs(ind, seq![
        entry(ind + 1, "mountpoint"@, quoted(mount)),
        entry(ind + 1, "mountOptions"@, list(seq![quoted("compress=zstd"@), quoted("noatime"@)])),
    ])
}

/// The shell run once the filesystem is made: a read-only snapshot of the
/// empty @root, to roll back to at every boot. Inside LUKS the filesystem is
/// on the mapper device `inner_of`, not on the partition.
pub open spec fn hook(inner_of: Option<Seq<char>>) -> Seq<char> {
    match inner_of {
        Some(name) => "MNTPOINT=$(mktemp -d)\n             mount \"/dev/mapper/"@ + name
            + "\" \"$MNTPOINT\" -o subvol=/\n             trap 'umount \"$MNTPOINT\"; rm -rf \"$MNTPOINT\"' EXIT\n             btrfs subvolume snapshot -r \"$MNTPOINT/@root\" \"$MNTPOINT/@root-blank\"\n"@,
        None => "MNTPOINT=$(mktemp -d)\n                 mount \"$device\" \"$MNTPOINT\" -o subvol=/\n                 trap 'umount \"$MNTPOINT\"; rm -rf \"$MNTPOINT\"' EXIT\n                 btrfs subvolume snapshot -r \"$MNTPOINT/@root\" \"$MNTPOINT/@root-blank\"\n"@,
    }
}

pub open spec fn note_persist() -> Seq<char> {
    "Everything declared is bound out of here, including the home\npaths - so this is what to snapshot or back up."@
}

pub open spec fn note_swapfile() -> Seq<char> {
    "Headroom, not hibernation - a second tier under zram for when\ncold pages stop compressing well. A file rather than a\npartition because nothing here needs a stable resume offset,\nand a file can be resized or dropped without repartitioning.\nIts own subvolume, uncompressed and never snapshotted, which\nis what a swapfile on btrfs requires."@
}

/// The swap subvolume holding a `swap_gib` GiB swapfile.
pub open spec fn swap_subvol(ind: nat, swap_gib: nat) -> Seq<char> {
    attrs(ind, seq![
        entry(ind + 1, "mountpoint"@, quoted("/swap"@)),
        entry(ind + 1, "mountOptions"@, list(seq![quoted("noatime"@)])),
        entry(ind + 1, "swap.swapfile.size"@, gib(swap_gib)),
    ])
}

/// The btrfs tree an ephemeral root needs: the wiped subvolume, the store,
/// the warehouse everything declared is bound out of, and swap.
pub open spec fn ephemeral_btrfs(ind: nat, inner_of: Option<Seq<char>>, swap_gib: nat) -> Seq<char> {
    attrs(ind, seq![
        entry(ind + 1, "type"@, quoted("btrfs"@)),
        entry(ind + 1, "extraArgs"@, list(seq![quoted("-f"@)])),
        entry(ind + 1, "subvolumes"@, attrs(ind + 1, seq![
            entry(ind + 2, "\"@root\""@, subvol(ind + 2, "/"@)),
            entry(ind + 2, "\"@nix\""@, subvol(ind + 2, "/nix"@)),
            noted(ind + 2, "\"@persist\""@, note_persist(), subvol(ind + 2, "/persist"@)),
            noted(ind + 2, "\"@swap\""@, note_swapfile(), swap_subvol(ind + 2, swap_gib)),
        ])),
        entry(ind + 1, "postCreateHook"@, "''\n"@ + hook(inner_of) + "          ''"@),
    ])
}

/// A partition of `size` holding `content`, as a binding at level `ind`.
pub open spec fn partition(ind: nat, name: Seq<char>, size: Seq<char>, content: Seq<char>) -> Seq<char> {
    entry(ind, name, attrs(ind, seq![
        entry(ind + 1, "size"@, size),
        entry(ind + 1, "content"@, content),
    ]))
}

/// The partitions after the ESP on the system disk, as bindings at level
/// `ind`. Four shapes, from encryption and hibernation.
pub open spec fn root_partitions(ind: nat, l: LayoutView, swap_gib: nat, ram_gib: nat) -> Seq<Seq<char>> {
    if l.encrypt && l.hibernate {
        let pv = attrs(ind + 2, seq![
            entry(ind + 3, "type"@, quoted("lvm_pv"@)),
            entry(ind + 3, "vg"@, quoted("pool"@)),
        ]);
        seq![partition(ind, "root"@, quoted("100%"@), luks(ind + 1, "cryptroot"@, pv, seq![]))]
    } else if l.encrypt {
        let inner = if l.ephemeral {
            ephemeral_btrfs(ind + 2, Some("cryptroot"@), swap_gib)
        } else {
            fs_content(ind + 2, "/"@)
        };
        seq![partition(ind, "root"@, quoted("100%"@), luks(ind + 1, "cryptroot"@, inner, seq![]))]
    } else if l.hibernate {
        seq![
            partition(ind, "swap"@, gib(ram_gib), swap_content(ind + 1)),
            partition(ind, "root"@, quoted("100%"@), fs_content(ind + 1, "/"@)),
        ]
    } else {
        let content = if l.ephemeral {
            ephemeral_btrfs(ind + 1, None, swap_gib)
        } else {
            fs_content(ind + 1, "/"@)
        };
        seq![partition(ind, "root"@, quoted("100%"@), content)]
    }
}

/// The LVM volume group of an encrypted, hibernating layout, as the value of
/// `lvm_vg` at level `ind`: swap the size of RAM, and the rest for root.
pub open spec fn volume_group(ind: nat, ram_gib: nat) -> Seq<char> {
    attrs(ind, seq![
        entry(ind + 1, "pool"@, attrs(ind + 1, seq![
            entry(ind + 2, "type"@, quoted("lvm_vg"@)),
            entry(ind + 2, "lvs"@, attrs(ind + 2, seq![
                partition(ind + 3, "swap"@, gib(ram_gib), swap_content(ind + 4)),
                partition(ind + 3, "root"@, quoted("100%FREE"@), fs_content(ind + 4, "/"@)),
            ])),
        ])),
    ])
}

/// A whole disk, as a binding at level `ind`.
pub open spec fn whole_disk(ind: nat, name: Seq<char>, device: Seq<char>, table: Seq<char>) -> Seq<char> {
    entry(ind, name, attrs(ind, seq![
        entry(ind + 1, "type"@, quoted("disk"@)),
        entry(ind + 1, "device"@, quoted(device)),
        entry(ind + 1, "content"@, table),
    ]))
}

pub open spec fn note_unlock() -> Seq<char> {
    "Not needed to boot, so it is unlocked later - which is what\nmakes the key on the decrypted root reachable at all."@
}

/// What the /home partition holds: a plain filesystem, or one inside LUKS
/// that unlocks from the key kept on the encrypted root.
pub open spec fn home_content(ind: nat, encrypt: bool) -> Seq<char> {
    if encrypt {
        luks(ind, "crypthome"@, fs_content(ind + 1, "/home"@), seq![
            noted(ind + 1, "initrdUnlock"@, note_unlock(), "false"@),
            entry(ind + 1, "settings.keyFile"@, quoted(keyfile())),
            entry(ind + 1, "additionalKeyFiles"@, list(seq![quoted(keyfile())])),
        ])
    } else {
        fs_content(ind, "/home"@)
    }
}

/// The bindings under `disko.devices.disk`, at level 3.
pub open spec fn disks(l: LayoutView, system: Seq<char>, home: Option<Seq<char>>, swap_gib: nat, ram_gib: nat) -> Seq<Seq<char>> {
    let sys = whole_disk(3, "system"@, system, gpt(4, seq![esp(6)] + root_partitions(6, l, swap_gib, ram_gib)));
    match home {
        Some(h) => seq![sys, whole_disk(3, "home"@, h, gpt(4, seq![
            partition(6, "home"@, quoted("100%"@), home_content(7, l.encrypt)),
        ]))],
        None => seq![sys],
    }
}

/// The bindings under `disko.devices`, at level 2.
pub open spec fn devices(l: LayoutView, system: Seq<char>, home: Option<Seq<char>>, swap_gib: nat, ram_gib: nat) -> Seq<Seq<char>> {
    let d = entry(2, "disk"@, attrs(2, disks(l, system, home, swap_gib, ram_gib)));
    if l.encrypt && l.hibernate {
        seq![d, entry(2, "lvm_vg"@, volume_group(2, ram_gib))]
    } else {
        seq![d]
    }
}

/// The comment paragraphs that explain this layout's choices.
pub open spec fn layout_notes(l: LayoutView, swap_gib: nat) -> Seq<char> {
    let a = if l.encrypt && l.home is Some {
        "#\n# /home unlocks from /var/lib/kiwami/home.key, which lives on the encrypted root, so\n# there is one passphrase prompt rather than two. Create it before\n# installing, or the format step has nothing to enrol.\n"@
    } else {
        seq![]
    };
    let b = if l.encrypt && l.hibernate {
        "#\n# Swap is a logical volume inside the LUKS container, not a partition\n# beside it: hibernation writes all of RAM there, and an unencrypted\n# swap area would undo the encryption for anything that was in memory.\n"@
    } else {
        seq![]
    };
    let c = if !l.hibernate {
        "#\n# Swap is zram plus a "@ + decimal(swap_gib)
            + "G swapfile on @swap, not a partition:\n# zram first - compressed swap in RAM, costing no disk - and the file\n# underneath it as headroom for pages that stop compressing well.\n# Neither needs a stable resume offset, so both can be resized or\n# dropped with a rebuild, unlike this file.\n"@
    } else {
        seq![]
    };
    a + b + c
}

pub open spec fn header_top() -> Seq<char> {
    "# Disk layout for this machine, written by `kiwami install`.\n#\n# One declaration, two uses: disko formats from it, and fileSystems is derived\n# from the same tree - so what gets erased and what gets mounted cannot drift\n# apart.\n#\n# Devices are named by id, not /dev/sdX: kernel names follow the order disks\n# are found in, so adding a drive can silently repoint this at another one.\n"@
}

pub open spec fn header_bottom() -> Seq<char> {
    "#\n# Editing this after installing does not repartition anything. It describes a\n# disk that already exists.\n{ ... }:\n\n"@
}

/// disk.nix for layout `l`, with the system disk (and the /home disk, when
/// there is one) named by the stable device paths given, on a machine with
/// `ram_gib` GiB of memory.
pub open spec fn disk_nix(l: LayoutView, system: Seq<char>, home: Option<Seq<char>>, ram_gib: nat) -> Seq<char> {
    let swap_gib = swap_size(ram_gib);
    let body = attrs(0, seq![entry(1, "disko.devices"@, attrs(1, devices(l, system, home, swap_gib, ram_gib)))]);
    header_top() + layout_notes(l, swap_gib) + header_bottom() + body + "\n"@
}

// ---------------------------------------------------------------- exec

fn one(a: Vec<char>) -> (r: Vec<Vec<char>>)
    ensures
        views(r@) == seq![a@],
{
    let mut r: Vec<Vec<char>> = Vec::new();
    r.push(a);
    assert(views(r@) =~= seq![a@]);
    r
}

fn two(a: Vec<char>, b: Vec<char>) -> (r: Vec<Vec<char>>)
    ensures
        views(r@) == seq![a@, b@],
{
    let mut r: Vec<Vec<char>> = Vec::new();
    r.push(a);
    r.push(b);
    assert(views(r@) =~= seq![a@, b@]);
    r
}

fn three(a: Vec<char>, b: Vec<char>, c: Vec<char>) -> (r: Vec<Vec<char>>)
    ensures
        views(r@) == seq![a@, b@, c@],
{
    let mut r: Vec<Vec<char>> = Vec::new();
    r.push(a);
    r.push(b);
    r.push(c);
    assert(views(r@) =~= seq![a@, b@, c@]);
    r
}

fn four(a: Vec<char>, b: Vec<char>, c: Vec<char>, d: Vec<char>) -> (r: Vec<Vec<char>>)
    ensures
        views(r@) == seq![a@, b@, c@, d@],
{
    let mut r: Vec<Vec<char>> = Vec::new();
    r.push(a);
    r.push(b);
    r.push(c);
    r.push(d);
    assert(views(r@) =~= seq![a@, b@, c@, d@]);
    r
}

fn five(a: Vec<char>, b: Vec<char>, c: Vec<char>, d: Vec<char>, e: Vec<char>) -> (r: Vec<Vec<char>>)
    ensures
        views(r@) == seq![a@, b@, c@, d@, e@],
{
    let mut r: Vec<Vec<char>> = Vec::new();
    r.push(a);
    r.push(b);
    r.push(c);
    r.push(d);
    r.push(e);
    assert(views(r@) =~= seq![a@, b@, c@, d@, e@]);
    r
}

/// `swap_size`: half of RAM, clamped to 2..=16 GiB.
pub fn swap_size_of(ram_gib: u64) -> (r: u64)
    ensures
        r == swap_size(ram_gib as nat),
        2 <= r <= 16,
{
    let half = ram_gib / 2;
    if half < 2 {
        2
    } else if half > 16 {
        16
    } else {
        half
    }
}

fn gib_of(n: u64) -> (r: Vec<char>)
    ensures
        r@ == gib(n as nat),
{
    let mut s = decimal_of(n);
    push_str(&mut s, "G");
    quoted_of(&s)
}

fn fs_content_of(ind: usize, mountpoint: &str) -> (r: Vec<char>)
    requires
        ind < 900,
    ensures
        r@ == fs_content(ind as nat, mountpoint@),
{
    let es = three(
        entry_of(ind + 1, "type", &quoted_str("filesystem")),
        entry_of(ind + 1, "format", &quoted_str("ext4")),
        entry_of(ind + 1, "mountpoint", &quoted_str(mountpoint)),
    );
    attrs_of(ind, &es)
}

fn swap_content_of(ind: usize) -> (r: Vec<char>)
    requires
        ind < 900,
    ensures
        r@ == swap_content(ind as nat),
{
    let es = two(
        entry_of(ind + 1, "type", &quoted_str("swap")),
        noted_of(
            ind + 1,
            "resumeDevice",
            "Resuming reads the image back from here, so the kernel is told\nwhich device holds it.",
            &chars_of("true"),
        ),
    );
    attrs_of(ind, &es)
}

fn luks_of(ind: usize, name: &str, inner: &Vec<char>, extra: Vec<Vec<char>>) -> (r: Vec<char>)
    requires
        ind < 900,
    ensures
        r@ == luks(ind as nat, name@, inner@, views(extra@)),
{
    let mut es = three(
        entry_of(ind + 1, "type", &quoted_str("luks")),
        entry_of(ind + 1, "name", &quoted_str(name)),
        entry_of(ind + 1, "settings.allowDiscards", &chars_of("true")),
    );
    let ghost head = views(es@);
    let mut i: usize = 0;
    while i < extra.len()
        invariant
            i <= extra.len(),
            views(es@) == head + views(extra@).take(i as int),
        decreases extra.len() - i,
    {
        let e = copy_of(&extra[i]);
        let ghost before = views(es@);
        es.push(e);
        proof {
            assert(views(es@) =~= before.push(e@));
            assert(views(extra@).take(i + 1) =~= views(extra@).take(i as int).push(e@));
        }
        i = i + 1;
    }
    assert(views(extra@).take(extra.len() as int) =~= views(extra@));
    let c = entry_of(ind + 1, "content", inner);
    let ghost before = views(es@);
    es.push(c);
    assert(views(es@) =~= before + seq![c@]);
    attrs_of(ind, &es)
}

fn gpt_of(ind: usize, partitions: &Vec<Vec<char>>) -> (r: Vec<char>)
    requires
        ind < 900,
    ensures
        r@ == gpt(ind as nat, views(partitions@)),
{
    let es = two(
        entry_of(ind + 1, "type", &quoted_str("gpt")),
        entry_of(ind + 1, "partitions", &attrs_of(ind + 1, partitions)),
    );
    attrs_of(ind, &es)
}

fn esp_of(ind: usize) -> (r: Vec<char>)
    requires
        ind < 900,
    ensures
        r@ == esp(ind as nat),
{
    let opts = list_of(&one(quoted_str("umask=0077")));
    let fs = four(
        entry_of(ind + 2, "type", &quoted_str("filesystem")),
        entry_of(ind + 2, "format", &quoted_str("vfat")),
        entry_of(ind + 2, "mountpoint", &quoted_str("/boot")),
        entry_of(ind + 2, "mountOptions", &opts),
    );
    let es = three(
        entry_of(ind + 1, "size", &quoted_str("1G")),
        entry_of(ind + 1, "type", &quoted_str("EF00")),
        entry_of(ind + 1, "content", &attrs_of(ind + 1, &fs)),
    );
    entry_of(ind, "ESP", &attrs_of(ind, &es))
}

fn subvol_of(ind: usize, mount: &str) -> (r: Vec<char>)
    requires
        ind < 900,
    ensures
        r@ == subvol(ind as nat, mount@),
{
    let opts = list_of(&two(quoted_str("compress=zstd"), quoted_str("noatime")));
    let es = two(
        entry_of(ind + 1, "mountpoint", &quoted_str(mount)),
        entry_of(ind + 1, "mountOptions", &opts),
    );
    attrs_of(ind, &es)
}

fn hook_of(inner_of: Option<&str>) -> (r: Vec<char>)
    ensures
        r@ == hook(match inner_of {
            Some(n) => Some(n@),
            None => None,
        }),
{
    match inner_of {
        Some(name) => {
            let mut r = chars_of("MNTPOINT=$(mktemp -d)\n             mount \"/dev/mapper/");
            push_str(&mut r, name);
            push_str(
                &mut r,
                "\" \"$MNTPOINT\" -o subvol=/\n             trap 'umount \"$MNTPOINT\"; rm -rf \"$MNTPOINT\"' EXIT\n             btrfs subvolume snapshot -r \"$MNTPOINT/@root\" \"$MNTPOINT/@root-blank\"\n",
            );
            r
        },
        None => chars_of(
            "MNTPOINT=$(mktemp -d)\n                 mount \"$device\" \"$MNTPOINT\" -o subvol=/\n                 trap 'umount \"$MNTPOINT\"; rm -rf \"$MNTPOINT\"' EXIT\n                 btrfs subvolume snapshot -r \"$MNTPOINT/@root\" \"$MNTPOINT/@root-blank\"\n",
        ),
    }
}

fn swap_subvol_of(ind: usize, swap_gib: u64) -> (r: Vec<char>)
    requires
        ind < 900,
    ensures
        r@ == swap_subvol(ind as nat, swap_gib as nat),
{
    let es = three(
        entry_of(ind + 1, "mountpoint", &quoted_str("/swap")),
        entry_of(ind + 1, "mountOptions", &list_of(&one(quoted_str("noatime")))),
        entry_of(ind + 1, "swap.swapfile.size", &gib_of(swap_gib)),
    );
    attrs_of(ind, &es)
}

fn ephemeral_btrfs_of(ind: usize, inner_of: Option<&str>, swap_gib: u64) -> (r: Vec<char>)
    requires
        ind < 800,
    ensures
        r@ == ephemeral_btrfs(ind as nat, match inner_of {
            Some(n) => Some(n@),
            None => None,
        }, swap_gib as nat),
{
    let subs = four(
        entry_of(ind + 2, "\"@root\"", &subvol_of(ind + 2, "/")),
        entry_of(ind + 2, "\"@nix\"", &subvol_of(ind + 2, "/nix")),
        noted_of(
            ind + 2,
            "\"@persist\"",
            "Everything declared is bound out of here, including the home\npaths - so this is what to snapshot or back up.",
            &subvol_of(ind + 2, "/persist"),
        ),
        noted_of(
            ind + 2,
            "\"@swap\"",
            "Headroom, not hibernation - a second tier under zram for when\ncold pages stop compressing well. A file rather than a\npartition because nothing here needs a stable resume offset,\nand a file can be resized or dropped without repartitioning.\nIts own subvolume, uncompressed and never snapshotted, which\nis what a swapfile on btrfs requires.",
            &swap_subvol_of(ind + 2, swap_gib),
        ),
    );
    let mut h = chars_of("''\n");
    push_all(&mut h, &hook_of(inner_of));
    push_str(&mut h, "          ''");
    let es = four(
        entry_of(ind + 1, "type", &quoted_str("btrfs")),
        entry_of(ind + 1, "extraArgs", &list_of(&one(quoted_str("-f")))),
        entry_of(ind + 1, "subvolumes", &attrs_of(ind + 1, &subs)),
        entry_of(ind + 1, "postCreateHook", &h),
    );
    attrs_of(ind, &es)
}

fn partition_of(ind: usize, name: &str, size: Vec<char>, content: Vec<char>) -> (r: Vec<char>)
    requires
        ind < 900,
    ensures
        r@ == partition(ind as nat, name@, size@, content@),
{
    let es = two(entry_of(ind + 1, "size", &size), entry_of(ind + 1, "content", &content));
    entry_of(ind, name, &attrs_of(ind, &es))
}

fn cons(a: Vec<char>, rest: &Vec<Vec<char>>) -> (r: Vec<Vec<char>>)
    ensures
        views(r@) == seq![a@] + views(rest@),
{
    let mut r = one(a);
    let ghost head = views(r@);
    let mut i: usize = 0;
    while i < rest.len()
        invariant
            i <= rest.len(),
            views(r@) == head + views(rest@).take(i as int),
        decreases rest.len() - i,
    {
        let e = copy_of(&rest[i]);
        let ghost before = views(r@);
        r.push(e);
        proof {
            assert(views(r@) =~= before.push(e@));
            assert(views(rest@).take(i + 1) =~= views(rest@).take(i as int).push(e@));
        }
        i = i + 1;
    }
    assert(views(rest@).take(rest.len() as int) =~= views(rest@));
    r
}

fn root_partitions_of(ind: usize, l: &Layout, swap_gib: u64, ram_gib: u64) -> (r: Vec<Vec<char>>)
    requires
        ind < 700,
    ensures
        views(r@) == root_partitions(ind as nat, l@, swap_gib as nat, ram_gib as nat),
{
    if l.encrypt && l.hibernate {
        let pv = attrs_of(ind + 2, &two(
            entry_of(ind + 3, "type", &quoted_str("lvm_pv")),
            entry_of(ind + 3, "vg", &quoted_str("pool")),
        ));
        let none: Vec<Vec<char>> = Vec::new();
        assert(views(none@) =~= seq![]);
        let c = luks_of(ind + 1, "cryptroot", &pv, none);
        one(partition_of(ind, "root", quoted_str("100%"), c))
    } else if l.encrypt {
        let inner = if l.ephemeral {
            ephemeral_btrfs_of(ind + 2, Some("cryptroot"), swap_gib)
        } else {
            fs_content_of(ind + 2, "/")
        };
        let none: Vec<Vec<char>> = Vec::new();
        assert(views(none@) =~= seq![]);
        let c = luks_of(ind + 1, "cryptroot", &inner, none);
        one(partition_of(ind, "root", quoted_str("100%"), c))
    } else if l.hibernate {
        two(
            partition_of(ind, "swap", gib_of(ram_gib), swap_content_of(ind + 1)),
            partition_of(ind, "root", quoted_str("100%"), fs_content_of(ind + 1, "/")),
        )
    } else {
        let content = if l.ephemeral {
            ephemeral_btrfs_of(ind + 1, None, swap_gib)
        } else {
            fs_content_of(ind + 1, "/")
        };
        one(partition_of(ind, "root", quoted_str("100%"), content))
    }
}

fn volume_group_of(ind: usize, ram_gib: u64) -> (r: Vec<char>)
    requires
        ind < 700,
    ensures
        r@ == volume_group(ind as nat, ram_gib as nat),
{
    let lvs = two(
        partition_of(ind + 3, "swap", gib_of(ram_gib), swap_content_of(ind + 4)),
        partition_of(ind + 3, "root", quoted_str("100%FREE"), fs_content_of(ind + 4, "/")),
    );
    let pool = two(
        entry_of(ind + 2, "type", &quoted_str("lvm_vg")),
        entry_of(ind + 2, "lvs", &attrs_of(ind + 2, &lvs)),
    );
    attrs_of(ind, &one(entry_of(ind + 1, "pool", &attrs_of(ind + 1, &pool))))
}

fn whole_disk_of(ind: usize, name: &str, device: &Vec<char>, table: Vec<char>) -> (r: Vec<char>)
    requires
        ind < 900,
    ensures
        r@ == whole_disk(ind as nat, name@, device@, table@),
{
    let es = three(
        entry_of(ind + 1, "type", &quoted_str("disk")),
        entry_of(ind + 1, "device", &quoted_of(device)),
        entry_of(ind + 1, "content", &table),
    );
    entry_of(ind, name, &attrs_of(ind, &es))
}

fn home_content_of(ind: usize, encrypt: bool) -> (r: Vec<char>)
    requires
        ind < 800,
    ensures
        r@ == home_content(ind as nat, encrypt),
{
    if encrypt {
        proof {
            reveal_strlit("/var/lib/kiwami/home.key");
        }
        let extra = three(
            noted_of(
                ind + 1,
                "initrdUnlock",
                "Not needed to boot, so it is unlocked later - which is what\nmakes the key on the decrypted root reachable at all.",
                &chars_of("false"),
            ),
            entry_of(ind + 1, "settings.keyFile", &quoted_str("/var/lib/kiwami/home.key")),
            entry_of(
                ind + 1,
                "additionalKeyFiles",
                &list_of(&one(quoted_str("/var/lib/kiwami/home.key"))),
            ),
        );
        luks_of(ind, "crypthome", &fs_content_of(ind + 1, "/home"), extra)
    } else {
        fs_content_of(ind, "/home")
    }
}

/// The comment paragraphs that explain the layout's choices.
fn layout_notes_of(l: &Layout, swap_gib: u64) -> (r: Vec<char>)
    ensures
        r@ == layout_notes(l@, swap_gib as nat),
{
    let mut r: Vec<char> = Vec::new();
    if l.encrypt && l.home.is_some() {
        push_str(
            &mut r,
            "#\n# /home unlocks from /var/lib/kiwami/home.key, which lives on the encrypted root, so\n# there is one passphrase prompt rather than two. Create it before\n# installing, or the format step has nothing to enrol.\n",
        );
    }
    let ghost a = r@;
    if l.encrypt && l.hibernate {
        push_str(
            &mut r,
            "#\n# Swap is a logical volume inside the LUKS container, not a partition\n# beside it: hibernation writes all of RAM there, and an unencrypted\n# swap area would undo the encryption for anything that was in memory.\n",
        );
    }
    let ghost b = r@;
    if !l.hibernate {
        push_str(&mut r, "#\n# Swap is zram plus a ");
        push_all(&mut r, &decimal_of(swap_gib));
        push_str(
            &mut r,
            "G swapfile on @swap, not a partition:\n# zram first - compressed swap in RAM, costing no disk - and the file\n# underneath it as headroom for pages that stop compressing well.\n# Neither needs a stable resume offset, so both can be resized or\n# dropped with a rebuild, unlike this file.\n",
        );
    }
    assert(r@ =~= layout_notes(l@, swap_gib as nat));
    r
}

/// disk.nix for this layout, with the system disk (and the /home disk, when
/// the layout has one) named by the stable device paths given.
pub fn render_disk_nix(l: &Layout, system: &str, home: &Option<String>, ram_gib: u64) -> (r: String)
    requires
        home.is_some() == l@.home.is_some(),
    ensures
        r@ == disk_nix(l@, system@, opt_view(*home), ram_gib as nat),
{
    let swap_gib = swap_size_of(ram_gib);
    let sys_parts = cons(esp_of(6), &root_partitions_of(6, l, swap_gib, ram_gib));
    let sys = whole_disk_of(3, "system", &chars_of(system), gpt_of(4, &sys_parts));
    let ds = match home {
        Some(h) => {
            let part = partition_of(6, "home", quoted_str("100%"), home_content_of(7, l.encrypt));
            two(sys, whole_disk_of(3, "home", &chars_of(h.as_str()), gpt_of(4, &one(part))))
        },
        None => one(sys),
    };
    let d = entry_of(2, "disk", &attrs_of(2, &ds));
    let devs = if l.encrypt && l.hibernate {
        two(d, entry_of(2, "lvm_vg", &volume_group_of(2, ram_gib)))
    } else {
        one(d)
    };
    let body = attrs_of(0, &one(entry_of(1, "disko.devices", &attrs_of(1, &devs))));
    let mut r = chars_of(
        "# Disk layout for this machine, written by `kiwami install`.\n#\n# One declaration, two uses: disko formats from it, and fileSystems is derived\n# from the same tree - so what gets erased and what gets mounted cannot drift\n# apart.\n#\n# Devices are named by id, not /dev/sdX: kernel names follow the order disks\n# are found in, so adding a drive can silently repoint this at another one.\n",
    );
    push_all(&mut r, &layout_notes_of(l, swap_gib));
    push_str(
        &mut r,
        "#\n# Editing this after installing does not repartition anything. It describes a\n# disk that already exists.\n{ ... }:\n\n",
    );
    push_all(&mut r, &body);
    push_str(&mut r, "\n");
    string_of(&r)
}

// ---------------------------------------------------------------- change

pub open spec fn yes_no(b: bool) -> Seq<char> {
    if b {
        "yes"@
    } else {
        "no"@
    }
}

/// One line of the change report: the answer as it stands, or in yellow
/// what it was and what it becomes.
pub open spec fn change_line(label: Seq<char>, was: bool, now: bool) -> Seq<char> {
    if was == now {
        "    "@ + label + ": "@ + yes_no(now)
    } else {
        "    \x1b[33m"@ + label + ": "@ + yes_no(was) + " -> "@ + yes_no(now) + "\x1b[0m"@
    }
}

/// A previous disk.nix encrypts, read crudely from its text so that it
/// survives reformatting by hand.
pub open spec fn was_encrypted(before: Seq<char>) -> bool {
    contains(before, "type = \"luks\""@)
}

/// A previous disk.nix gives /home a disk of its own.
pub open spec fn had_home(before: Seq<char>) -> bool {
    contains(before, "home = {"@) || contains(before, "\"home\""@)
}

/// What changes when `before` is replaced by layout `l`, in the terms the
/// questions were asked in.
pub open spec fn layout_change(before: Seq<char>, l: LayoutView) -> Seq<Seq<char>> {
    seq![
        change_line("encrypted"@, was_encrypted(before), l.encrypt),
        change_line("separate /home disk"@, had_home(before), l.home is Some),
        "    system disk: "@ + l.system,
    ] + match l.home {
        Some(h) => seq!["    home disk:   "@ + h],
        None => seq![],
    }
}

fn change_line_of(label: &str, was: bool, now: bool) -> (r: String)
    ensures
        r@ == change_line(label@, was, now),
{
    let mut r: Vec<char> = Vec::new();
    if was == now {
        push_str(&mut r, "    ");
        push_str(&mut r, label);
        push_str(&mut r, ": ");
        push_str(&mut r, if now { "yes" } else { "no" });
    } else {
        push_str(&mut r, "    \x1b[33m");
        push_str(&mut r, label);
        push_str(&mut r, ": ");
        push_str(&mut r, if was { "yes" } else { "no" });
        push_str(&mut r, " -> ");
        push_str(&mut r, if now { "yes" } else { "no" });
        push_str(&mut r, "\x1b[0m");
    }
    string_of(&r)
}

/// The lines that describe replacing the layout in `before` with `l`.
pub fn describe_layout_change(before: &str, l: &Layout) -> (r: Vec<String>)
    ensures
        string_views(r@) == layout_change(before@, l@),
{
    let b = chars_of(before);
    let encrypted = has_sub(&b, &chars_of("type = \"luks\""));
    let home = has_sub(&b, &chars_of("home = {")) || has_sub(&b, &chars_of("\"home\""));
    let mut r: Vec<String> = Vec::new();
    r.push(change_line_of("encrypted", encrypted, l.encrypt));
    r.push(change_line_of("separate /home disk", home, l.home.is_some()));
    let mut sys = chars_of("    system disk: ");
    push_str(&mut sys, l.system.as_str());
    r.push(string_of(&sys));
    let ghost head = string_views(r@);
    match &l.home {
        Some(h) => {
            let mut hl = chars_of("    home disk:   ");
            push_str(&mut hl, h.as_str());
            r.push(string_of(&hl));
        },
        None => {},
    }
    assert(string_views(r@) =~= layout_change(before@, l@));
    r
}

// ---------------------------------------------------------------- memory

/// Whole GiB of memory from /proc/meminfo: the `MemTotal:` line's kB,
/// rounded up, and never less than 1. `None` when there is no such line or
/// its number does not parse.
pub open spec fn ram_from_meminfo(meminfo: Seq<char>) -> Option<nat> {
    match first_starting(lines(meminfo), "MemTotal:"@) {
        Some(line) => {
            let w = words(line);
            if w.len() < 2 {
                None
            } else {
                match parse_unsigned(w[1], u64::MAX as nat) {
                    Some(kb) => {
                        let g = (kb + 1048575) / 1048576;
                        Some(if g < 1 { 1 } else { g })
                    },
                    None => None,
                }
            }
        },
        None => None,
    }
}

/// Whole GiB of memory, read from the text of /proc/meminfo.
pub fn ram_gib_from(meminfo: &str) -> (r: Option<u64>)
    ensures
        match r {
            Some(g) => ram_from_meminfo(meminfo@) == Some(g as nat),
            None => ram_from_meminfo(meminfo@) is None,
        },
{
    let ls = lines_of(&chars_of(meminfo));
    match first_starting_of(&ls, "MemTotal:") {
        Some(line) => {
            let w = words_of(&line);
            if w.len() < 2 {
                return None;
            }
            assert(views(w@)[1] == w@[1]@);
            match parse_unsigned_of(&w[1], u64::MAX) {
                Some(kb) => {
                    let g = kb / 1048576 + if kb % 1048576 != 0 { 1u64 } else { 0u64 };
                    assert(g == (kb + 1048575) / 1048576) by (nonlinear_arith)
                        requires
                            g == kb / 1048576 + if kb % 1048576 != 0 { 1int } else { 0int },
                    ;
                    Some(if g < 1 { 1 } else { g })
                },
                None => None,
            }
        },
        None => None,
    }
}

// ---------------------------------------------------------------- laws

/// The system disk's binding holds whatever its root partitions hold.
proof fn lemma_system_disk_contains(l: LayoutView, system: Seq<char>, swap_gib: nat, ram_gib: nat, p: Seq<char>)
    requires
        contains(root_partitions(6, l, swap_gib, ram_gib)[0], p),
        root_partitions(6, l, swap_gib, ram_gib).len() >= 1,
    ensures
        contains(whole_disk(3, "system"@, system, gpt(4, seq![esp(6)] + root_partitions(6, l, swap_gib, ram_gib))), p),
{
    let parts = seq![esp(6)] + root_partitions(6, l, swap_gib, ram_gib);
    assert(parts[1] == root_partitions(6, l, swap_gib, ram_gib)[0]);
    lemma_attrs_contains(5, parts, 1, p);
    lemma_entry_contains(5, "partitions"@, attrs(5, parts), p);
    let g = seq![entry(5, "type"@, quoted("gpt"@)), entry(5, "partitions"@, attrs(5, parts))];
    lemma_attrs_contains(4, g, 1, p);
    lemma_entry_contains(4, "content"@, gpt(4, parts), p);
    let w = seq![
        entry(4, "type"@, quoted("disk"@)),
        entry(4, "device"@, quoted(system)),
        entry(4, "content"@, gpt(4, parts)),
    ];
    lemma_attrs_contains(3, w, 2, p);
    lemma_entry_contains(3, "system"@, attrs(3, w), p);
}

/// The whole file holds whatever one of its disks holds.
#[verifier::spinoff_prover]
#[verifier::rlimit(40)]
proof fn lemma_file_contains(l: LayoutView, system: Seq<char>, home: Option<Seq<char>>, ram_gib: nat, k: int, p: Seq<char>)
    requires
        0 <= k < disks(l, system, home, swap_size(ram_gib), ram_gib).len(),
        contains(disks(l, system, home, swap_size(ram_gib), ram_gib)[k], p),
    ensures
        contains(disk_nix(l, system, home, ram_gib), p),
{
    let swap_gib = swap_size(ram_gib);
    let ds = disks(l, system, home, swap_gib, ram_gib);
    lemma_attrs_contains(2, ds, k, p);
    lemma_entry_contains(2, "disk"@, attrs(2, ds), p);
    let devs = devices(l, system, home, swap_gib, ram_gib);
    assert(devs[0] == entry(2, "disk"@, attrs(2, ds)));
    lemma_attrs_contains(1, devs, 0, p);
    lemma_entry_contains(1, "disko.devices"@, attrs(1, devs), p);
    let top = seq![entry(1, "disko.devices"@, attrs(1, devs))];
    lemma_attrs_contains(0, top, 0, p);
    lemma_contains_within(header_top() + layout_notes(l, swap_gib) + header_bottom(), attrs(0, top), "\n"@, p);
}

/// The `type = "luks"` binding every LUKS container starts with.
proof fn lemma_luks_type(ind: nat)
    ensures
        contains(entry(ind, "type"@, quoted("luks"@)), "type = \"luks\""@),
{
    let pat = "type = \"luks\""@;
    let e = entry(ind, "type"@, quoted("luks"@));
    reveal_strlit("type = \"luks\"");
    reveal_strlit("type");
    reveal_strlit(" = ");
    reveal_strlit("\"");
    reveal_strlit("luks");
    reveal_strlit(";\n");
    reveal_with_fuel(esc, 5);
    assert(esc("luks"@) =~= "luks"@);
    assert(e.subrange(2 * ind as int, 2 * ind + pat.len() as int) =~= pat);
    assert(occurs_at(e, pat, 2 * ind as int));
}

/// A LUKS container's text says it is one.
proof fn lemma_luks_contains(ind: nat, name: Seq<char>, inner: Seq<char>)
    ensures
        contains(luks(ind, name, inner, seq![]), "type = \"luks\""@),
{
    let es = seq![
        entry(ind + 1, "type"@, quoted("luks"@)),
        entry(ind + 1, "name"@, quoted(name)),
        entry(ind + 1, "settings.allowDiscards"@, "true"@),
    ] + seq![] + seq![entry(ind + 1, "content"@, inner)];
    lemma_luks_type(ind + 1);
    assert(es[0] == entry(ind + 1, "type"@, quoted("luks"@)));
    lemma_attrs_contains(ind, es, 0, "type = \"luks\""@);
}

/// An encrypted layout's first root partition is a LUKS container.
proof fn lemma_encrypted_root(l: LayoutView, swap_gib: nat, ram_gib: nat)
    requires
        l.encrypt,
    ensures
        root_partitions(6, l, swap_gib, ram_gib).len() >= 1,
        contains(root_partitions(6, l, swap_gib, ram_gib)[0], "type = \"luks\""@),
{
    let pat = "type = \"luks\""@;
    let inner = if l.hibernate {
        attrs(8, seq![entry(9, "type"@, quoted("lvm_pv"@)), entry(9, "vg"@, quoted("pool"@))])
    } else if l.ephemeral {
        ephemeral_btrfs(8, Some("cryptroot"@), swap_gib)
    } else {
        fs_content(8, "/"@)
    };
    let lk = luks(7, "cryptroot"@, inner, seq![]);
    lemma_luks_contains(7, "cryptroot"@, inner);
    lemma_entry_contains(7, "content"@, lk, pat);
    let pe = seq![entry(7, "size"@, quoted("100%"@)), entry(7, "content"@, lk)];
    lemma_attrs_contains(6, pe, 1, pat);
    lemma_entry_contains(6, "root"@, attrs(6, pe), pat);
    assert(root_partitions(6, l, swap_gib, ram_gib)[0] == partition(6, "root"@, quoted("100%"@), lk));
}

/// A /home disk's binding is named `home`.
proof fn lemma_home_disk(h: Seq<char>, tbl: Seq<char>)
    ensures
        contains(whole_disk(3, "home"@, h, tbl), "home = {"@),
{
    let w = whole_disk(3, "home"@, h, tbl);
    let hp = "home = {"@;
    reveal_strlit("home = {");
    reveal_strlit("home");
    reveal_strlit(" = ");
    reveal_strlit("{\n");
    assert(w.subrange(6, 6 + hp.len() as int) =~= hp);
    assert(occurs_at(w, hp, 6));
}

/// What `describe_layout_change` reads back from a disk.nix that
/// `render_disk_nix` wrote: a layout that encrypts reads as encrypted, and a
/// layout with a /home disk reads as having one.
pub proof fn law_rendered_layout_reads_back(l: LayoutView, system: Seq<char>, home: Option<Seq<char>>, ram_gib: nat)
    requires
        home is Some == l.home is Some,
    ensures
        l.encrypt ==> was_encrypted(disk_nix(l, system, home, ram_gib)),
        l.home is Some ==> had_home(disk_nix(l, system, home, ram_gib)),
{
    let swap_gib = swap_size(ram_gib);
    if l.encrypt {
        lemma_encrypted_root(l, swap_gib, ram_gib);
        lemma_system_disk_contains(l, system, swap_gib, ram_gib, "type = \"luks\""@);
        lemma_file_contains(l, system, home, ram_gib, 0, "type = \"luks\""@);
    }
    if l.home is Some {
        let h = home.unwrap();
        let tbl = gpt(4, seq![partition(6, "home"@, quoted("100%"@), home_content(7, l.encrypt))]);
        lemma_home_disk(h, tbl);
        assert(disks(l, system, home, swap_gib, ram_gib)[1] == whole_disk(3, "home"@, h, tbl));
        lemma_file_contains(l, system, home, ram_gib, 1, "home = {"@);
    }
}

proof fn lemma_contains_self(p: Seq<char>)
    ensures
        contains(p, p),
{
    assert(p.subrange(0, p.len() as int) =~= p);
    assert(occurs_at(p, p, 0));
}

/// Where the snapshot hook mounts the filesystem: the mapper device inside
/// LUKS, else the partition disko names `$device`.
pub open spec fn hook_mount(inner_of: Option<Seq<char>>) -> Seq<char> {
    match inner_of {
        Some(name) => "\"/dev/mapper/"@ + name + "\""@,
        None => "mount \"$device\""@,
    }
}

proof fn lemma_hook_mount(inner_of: Option<Seq<char>>)
    ensures
        contains(hook(inner_of), hook_mount(inner_of)),
{
    let p = hook_mount(inner_of);
    lemma_contains_self(p);
    match inner_of {
        Some(name) => {
            let l1 = "MNTPOINT=$(mktemp -d)\n             mount \"/dev/mapper/"@;
            let l2 = "\" \"$MNTPOINT\" -o subvol=/\n             trap 'umount \"$MNTPOINT\"; rm -rf \"$MNTPOINT\"' EXIT\n             btrfs subvolume snapshot -r \"$MNTPOINT/@root\" \"$MNTPOINT/@root-blank\"\n"@;
            reveal_strlit("MNTPOINT=$(mktemp -d)\n             mount \"/dev/mapper/");
            reveal_strlit("\" \"$MNTPOINT\" -o subvol=/\n             trap 'umount \"$MNTPOINT\"; rm -rf \"$MNTPOINT\"' EXIT\n             btrfs subvolume snapshot -r \"$MNTPOINT/@root\" \"$MNTPOINT/@root-blank\"\n");
            reveal_strlit("\"/dev/mapper/");
            reveal_strlit("\"");
            let a = l1.subrange(0, l1.len() - 13);
            let b = l2.subrange(1, l2.len() as int);
            assert(l1 =~= a + "\"/dev/mapper/"@);
            assert(l2 =~= "\""@ + b);
            assert(hook(inner_of) =~= a + p + b);
            lemma_contains_within(a, p, b, p);
        },
        None => {
            let h = hook(inner_of);
            reveal_strlit("MNTPOINT=$(mktemp -d)\n                 mount \"$device\" \"$MNTPOINT\" -o subvol=/\n                 trap 'umount \"$MNTPOINT\"; rm -rf \"$MNTPOINT\"' EXIT\n                 btrfs subvolume snapshot -r \"$MNTPOINT/@root\" \"$MNTPOINT/@root-blank\"\n");
            reveal_strlit("mount \"$device\"");
            assert(h.subrange(39, 39 + p.len() as int) =~= p);
            assert(occurs_at(h, p, 39));
        },
    }
}

/// The tree an ephemeral root gets, whatever it sits in and however much
/// swap it has: the wiped `@root` at /, `@nix` at /nix and `@persist` at
/// /persist, each compressed with zstd and mounted noatime; `@swap` at
/// /swap holding a swapfile of `swap_gib` GiB; and the hook that snapshots
/// the empty `@root` as `@root-blank`, mounting the mapper device inside LUKS
/// or the partition itself.
pub proof fn law_ephemeral_tree(ind: nat, inner_of: Option<Seq<char>>, swap_gib: nat)
    ensures
        contains(ephemeral_btrfs(ind, inner_of, swap_gib), entry(ind + 2, "\"@root\""@, subvol(ind + 2, "/"@))),
        contains(ephemeral_btrfs(ind, inner_of, swap_gib), entry(ind + 2, "\"@nix\""@, subvol(ind + 2, "/nix"@))),
        contains(ephemeral_btrfs(ind, inner_of, swap_gib), entry(ind + 2, "\"@persist\""@, subvol(ind + 2, "/persist"@))),
        contains(ephemeral_btrfs(ind, inner_of, swap_gib), entry(ind + 2, "\"@swap\""@, swap_subvol(ind + 2, swap_gib))),
        subvol(ind + 2, "/"@) == attrs(ind + 2, seq![
            entry(ind + 3, "mountpoint"@, quoted("/"@)),
            entry(ind + 3, "mountOptions"@, list(seq![quoted("compress=zstd"@), quoted("noatime"@)])),
        ]),
        contains(swap_subvol(ind + 2, swap_gib), entry(ind + 3, "swap.swapfile.size"@, quoted(decimal(swap_gib) + "G"@))),
        contains(ephemeral_btrfs(ind, inner_of, swap_gib), hook(inner_of)),
        contains(ephemeral_btrfs(ind, inner_of, swap_gib), hook_mount(inner_of)),
{
    let t = ephemeral_btrfs(ind, inner_of, swap_gib);
    let subs = seq![
        entry(ind + 2, "\"@root\""@, subvol(ind + 2, "/"@)),
        entry(ind + 2, "\"@nix\""@, subvol(ind + 2, "/nix"@)),
        noted(ind + 2, "\"@persist\""@, note_persist(), subvol(ind + 2, "/persist"@)),
        noted(ind + 2, "\"@swap\""@, note_swapfile(), swap_subvol(ind + 2, swap_gib)),
    ];
    let top = seq![
        entry(ind + 1, "type"@, quoted("btrfs"@)),
        entry(ind + 1, "extraArgs"@, list(seq![quoted("-f"@)])),
        entry(ind + 1, "subvolumes"@, attrs(ind + 1, subs)),
        entry(ind + 1, "postCreateHook"@, "''\n"@ + hook(inner_of) + "          ''"@),
    ];
    assert(t == attrs(ind, top));
    let ps = seq![
        entry(ind + 2, "\"@root\""@, subvol(ind + 2, "/"@)),
        entry(ind + 2, "\"@nix\""@, subvol(ind + 2, "/nix"@)),
        entry(ind + 2, "\"@persist\""@, subvol(ind + 2, "/persist"@)),
        entry(ind + 2, "\"@swap\""@, swap_subvol(ind + 2, swap_gib)),
    ];
    assert forall|k: int| 0 <= k < 4 implies contains(t, #[trigger] ps[k]) by {
        lemma_contains_self(ps[k]);
        if k >= 2 {
            let note = if k == 2 { note_persist() } else { note_swapfile() };
            lemma_contains_within(comments(ind + 2, lines(note)), ps[k], seq![], ps[k]);
            assert(comments(ind + 2, lines(note)) + ps[k] + seq![] =~= subs[k]);
        }
        lemma_attrs_contains(ind + 1, subs, k, ps[k]);
        lemma_entry_contains(ind + 1, "subvolumes"@, attrs(ind + 1, subs), ps[k]);
        lemma_attrs_contains(ind, top, 2, ps[k]);
    }
    assert(contains(t, ps[0]));
    assert(contains(t, ps[1]));
    assert(contains(t, ps[2]));
    assert(contains(t, ps[3]));
    let sz = entry(ind + 3, "swap.swapfile.size"@, quoted(decimal(swap_gib) + "G"@));
    lemma_contains_self(sz);
    lemma_attrs_contains(ind + 2, seq![
        entry(ind + 3, "mountpoint"@, quoted("/swap"@)),
        entry(ind + 3, "mountOptions"@, list(seq![quoted("noatime"@)])),
        sz,
    ], 2, sz);
    let h = hook(inner_of);
    let hv = "''\n"@ + h + "          ''"@;
    lemma_contains_self(h);
    lemma_contains_within("''\n"@, h, "          ''"@, h);
    lemma_entry_contains(ind + 1, "postCreateHook"@, hv, h);
    lemma_attrs_contains(ind, top, 3, h);
    lemma_hook_mount(inner_of);
    lemma_contains_within("''\n"@, h, "          ''"@, hook_mount(inner_of));
    lemma_entry_contains(ind + 1, "postCreateHook"@, hv, hook_mount(inner_of));
    lemma_attrs_contains(ind, top, 3, hook_mount(inner_of));
}

} // verus!
