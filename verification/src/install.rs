//! The installer's decisions.
//!
//! Installing is destructive, so the ordering is deliberate: detect, then
//! select, then confirm, and only then touch a disk. This module holds what
//! is decided along the way - which block devices are disks worth offering,
//! which host is meant, what the firmware's boot order becomes - as
//! functions of what was read; reading and writing is left to the caller.

use vstd::prelude::*;
use crate::order::{sort_texts, sorted_texts, text_le, text_le_exec};
use crate::text::{
    all_digits, chars_of, contains, copy_of, find, find_char, find_sub, first_occurrence,
    first_starting, first_starting_of, has, has_char, has_prefix, has_sub, join, joined, lemma_find_char, lines,
    lines_of, lower, matches_at, occurs_at, parse_unsigned, parse_unsigned_of, push_all,
    push_str, same, slice_of, split, split_of, starts_with, string_of, string_views, to_lower, trim,
    trim_start, trim_start_of, trimmed, utf8_len, utf8_len_capped, views, words, words_of,
};
use crate::doctor::{strings_of, texts_of};

verus! {

/// A block device the installer could write to.
#[derive(Clone)]
pub struct Disk {
    pub name: String,
    /// `/dev/<name>`.
    pub path: String,
    pub bytes: u64,
    pub model: String,
    pub removable: bool,
    /// Existing partitions. Non-empty means we are about to destroy something.
    pub partitions: Vec<String>,
    /// A filesystem from this disk is mounted right now. On the ISO that is
    /// normal for the USB stick; on a running system it is your root.
    pub in_use: bool,
}

/// A disk as plain values.
pub struct DiskView {
    pub name: Seq<char>,
    pub path: Seq<char>,
    pub bytes: nat,
    pub model: Seq<char>,
    pub removable: bool,
    pub partitions: Seq<Seq<char>>,
    pub in_use: bool,
}

impl View for Disk {
    type V = DiskView;

    open spec fn view(&self) -> DiskView {
        DiskView {
            name: self.name@,
            path: self.path@,
            bytes: self.bytes as nat,
            model: self.model@,
            removable: self.removable,
            partitions: string_views(self.partitions@),
            in_use: self.in_use,
        }
    }
}

impl Disk {
    /// No partitions on it yet.
    pub fn is_empty(&self) -> (r: bool)
        ensures
            r == (self@.partitions.len() == 0),
    {
        self.partitions.len() == 0
    }
}

// ---------------------------------------------------------------- devices

/// `nvme<digits>c<digits>n<digits>`: the controller-scoped alias NVMe
/// exposes for every namespace, naming the same storage as
/// `nvme<N>n<K>`.
pub open spec fn nvme_controller_alias(name: Seq<char>) -> bool {
    exists|a: Seq<char>, b: Seq<char>, d: Seq<char>|
        #![trigger a.len(), b.len(), d.len()]
        a.len() > 0 && b.len() > 0 && d.len() > 0 && all_digits(a) && all_digits(b) && all_digits(d)
            && name == "nvme"@ + a + "c"@ + b + "n"@ + d
}

/// The same test, read the way the code runs it: strip `nvme`, split at the
/// first `c`, then at the first `n`.
spec fn nvme_split(name: Seq<char>) -> bool {
    starts_with(name, "nvme"@) && {
        let rest = name.skip(4);
        let c = find_char(rest, 'c');
        c < rest.len() && {
            let ctrl = rest.take(c);
            let tail = rest.skip(c + 1);
            let n = find_char(tail, 'n');
            n < tail.len() && {
                let inst = tail.take(n);
                let ns = tail.skip(n + 1);
                &&& ctrl.len() > 0 && inst.len() > 0 && ns.len() > 0
                &&& all_digits(ctrl) && all_digits(inst) && all_digits(ns)
            }
        }
    }
}

proof fn lemma_nvme_split_witness(name: Seq<char>)
    requires
        nvme_split(name),
    ensures
        nvme_controller_alias(name),
{
    reveal_strlit("nvme");
    reveal_strlit("c");
    reveal_strlit("n");
    let rest = name.skip(4);
    let c = find_char(rest, 'c');
    lemma_find_char(rest, 'c');
    let ctrl = rest.take(c);
    let tail = rest.skip(c + 1);
    let n = find_char(tail, 'n');
    lemma_find_char(tail, 'n');
    let inst = tail.take(n);
    let ns = tail.skip(n + 1);
    assert(tail =~= inst + "n"@ + ns);
    assert(rest =~= ctrl + "c"@ + tail);
    assert(name.subrange(0, 4) =~= "nvme"@);
    assert(name =~= "nvme"@ + ctrl + "c"@ + inst + "n"@ + ns);
    assert(ctrl.len() > 0 && inst.len() > 0 && ns.len() > 0);
}

proof fn lemma_nvme_split_of(a: Seq<char>, b: Seq<char>, d: Seq<char>)
    requires
        a.len() > 0 && b.len() > 0 && d.len() > 0 && all_digits(a) && all_digits(b) && all_digits(d),
    ensures
        nvme_split("nvme"@ + a + "c"@ + b + "n"@ + d),
{
    reveal_strlit("nvme");
    reveal_strlit("c");
    reveal_strlit("n");
    let name = "nvme"@ + a + "c"@ + b + "n"@ + d;
    assert(name.subrange(0, 4) =~= "nvme"@);
    let rest = name.skip(4);
    assert(rest =~= a + "c"@ + (b + "n"@ + d));
    assert forall|j: int| 0 <= j < a.len() implies rest[j] != 'c' by {
        assert(rest[j] == a[j]);
        assert(crate::text::is_digit(a[j]));
    }
    crate::text::lemma_find_char_is(rest, 'c', a.len() as int);
    let tail = rest.skip(a.len() as int + 1);
    assert(tail =~= b + "n"@ + d);
    assert forall|j: int| 0 <= j < b.len() implies tail[j] != 'n' by {
        assert(tail[j] == b[j]);
        assert(crate::text::is_digit(b[j]));
    }
    crate::text::lemma_find_char_is(tail, 'n', b.len() as int);
    assert(rest.take(a.len() as int) =~= a);
    assert(tail.take(b.len() as int) =~= b);
    assert(tail.skip(b.len() as int + 1) =~= d);
}

proof fn lemma_nvme_split(name: Seq<char>)
    ensures
        nvme_split(name) == nvme_controller_alias(name),
{
    if nvme_split(name) {
        lemma_nvme_split_witness(name);
    }
    if nvme_controller_alias(name) {
        let (a, b, d) = choose|a: Seq<char>, b: Seq<char>, d: Seq<char>|
            #![trigger a.len(), b.len(), d.len()]
            a.len() > 0 && b.len() > 0 && d.len() > 0 && all_digits(a) && all_digits(b) && all_digits(d)
                && name == "nvme"@ + a + "c"@ + b + "n"@ + d;
        lemma_nvme_split_of(a, b, d);
    }
}

fn digits_only(v: &Vec<char>) -> (r: bool)
    ensures
        r == (v@.len() > 0 && all_digits(v@)),
{
    let mut i: usize = 0;
    while i < v.len()
        invariant
            i <= v.len(),
            all_digits(v@.take(i as int)),
        decreases v.len() - i,
    {
        if !('0' <= v[i] && v[i] <= '9') {
            return false;
        }
        i = i + 1;
        assert(all_digits(v@.take(i as int))) by {
            assert forall|k: int| 0 <= k < i implies crate::text::is_digit(#[trigger] v@.take(i as int)[k]) by {
                if k < i - 1 {
                    assert(v@.take(i as int)[k] == v@.take(i - 1)[k]);
                }
            }
        }
    }
    assert(v@.take(i as int) =~= v@);
    v.len() > 0
}

/// Whether `name` is NVMe's controller alias of another namespace.
pub fn is_nvme_controller_alias(name: &str) -> (r: bool)
    ensures
        r == nvme_controller_alias(name@),
{
    proof {
        lemma_nvme_split(name@);
    }
    let v = chars_of(name);
    if !has_prefix(&v, &chars_of("nvme")) {
        return false;
    }
    proof {
        reveal_strlit("nvme");
    }
    let rest = slice_of(&v, 4, v.len());
    assert(rest@ =~= v@.skip(4));
    let c = find(&rest, 'c');
    if c == rest.len() {
        return false;
    }
    proof {
        lemma_find_char(rest@, 'c');
    }
    let ctrl = slice_of(&rest, 0, c);
    let tail = slice_of(&rest, c + 1, rest.len());
    assert(ctrl@ =~= rest@.take(c as int));
    assert(tail@ =~= rest@.skip(c + 1));
    let n = find(&tail, 'n');
    if n == tail.len() {
        return false;
    }
    proof {
        lemma_find_char(tail@, 'n');
    }
    let inst = slice_of(&tail, 0, n);
    let ns = slice_of(&tail, n + 1, tail.len());
    assert(inst@ =~= tail@.take(n as int));
    assert(ns@ =~= tail@.skip(n + 1));
    digits_only(&ctrl) && digits_only(&inst) && digits_only(&ns)
}

/// Block devices that are never install targets and would only pad the
/// menu: loop, ram and zram devices, optical and floppy drives, device
/// mapper nodes, and NVMe controller aliases.
pub open spec fn listable(name: Seq<char>) -> bool {
    &&& !starts_with(name, "loop"@)
    &&& !starts_with(name, "ram"@)
    &&& !starts_with(name, "zram"@)
    &&& !starts_with(name, "sr"@)
    &&& !starts_with(name, "fd"@)
    &&& !starts_with(name, "dm-"@)
    &&& !nvme_controller_alias(name)
}

/// Whether a block device is worth offering as an install target.
pub fn is_listable(name: &str) -> (r: bool)
    ensures
        r == listable(name@),
{
    let v = chars_of(name);
    !has_prefix(&v, &chars_of("loop")) && !has_prefix(&v, &chars_of("ram")) && !has_prefix(
        &v,
        &chars_of("zram"),
    ) && !has_prefix(&v, &chars_of("sr")) && !has_prefix(&v, &chars_of("fd")) && !has_prefix(
        &v,
        &chars_of("dm-"),
    ) && !is_nvme_controller_alias(name)
}

/// The base names of the block devices behind the mounts listed in
/// /proc/mounts: the first field of each line, when it is under /dev/.
pub open spec fn mount_sources(ls: Seq<Seq<char>>) -> Seq<Seq<char>>
    decreases ls.len(),
{
    if ls.len() == 0 {
        seq![]
    } else {
        let w = words(ls.last());
        mount_sources(ls.drop_last()) + if w.len() > 0 && starts_with(w[0], "/dev/"@) {
            seq![w[0].skip(5)]
        } else {
            seq![]
        }
    }
}

/// Base names of the block devices backing a current mount, e.g.
/// `["vda1", "vda2"]`, from the text of /proc/mounts.
pub fn mounted_devices_from(mounts: &str) -> (r: Vec<String>)
    ensures
        string_views(r@) == mount_sources(lines(mounts@)),
{
    let ls = lines_of(&chars_of(mounts));
    let dev = chars_of("/dev/");
    proof {
        reveal_strlit("/dev/");
    }
    let mut out: Vec<String> = Vec::new();
    let mut i: usize = 0;
    while i < ls.len()
        invariant
            i <= ls.len(),
            dev@ == "/dev/"@,
            dev@.len() == 5,
            string_views(out@) == mount_sources(views(ls@).take(i as int)),
        decreases ls.len() - i,
    {
        let w = words_of(&ls[i]);
        let ghost before = string_views(out@);
        proof {
            assert(views(ls@).take(i + 1).drop_last() =~= views(ls@).take(i as int));
            assert(views(ls@).take(i + 1).last() == ls@[i as int]@);
        }
        if w.len() > 0 && has_prefix(&w[0], &dev) {
            let s = slice_of(&w[0], 5, w[0].len());
            assert(s@ =~= views(w@)[0].skip(5));
            out.push(string_of(&s));
            assert(string_views(out@) =~= before + seq![s@]);
        } else {
            assert(string_views(out@) =~= before + seq![]);
        }
        i = i + 1;
    }
    assert(views(ls@).take(ls.len() as int) =~= views(ls@));
    out
}

/// A disk is in use when it, or one of its partitions, backs a mount.
pub open spec fn in_use(mounted: Seq<Seq<char>>, name: Seq<char>, partitions: Seq<Seq<char>>) -> bool {
    exists|i: int| 0 <= i < mounted.len() && (mounted[i] == name || partitions.contains(mounted[i]))
}

fn listed_in(v: &Vec<Vec<char>>, x: &Vec<char>) -> (r: bool)
    ensures
        r == views(v@).contains(x@),
{
    let mut i: usize = 0;
    while i < v.len()
        invariant
            i <= v.len(),
            forall|j: int| 0 <= j < i ==> views(v@)[j] != x@,
        decreases v.len() - i,
    {
        if same(&v[i], x) {
            assert(views(v@)[i as int] == x@);
            return true;
        }
        i = i + 1;
    }
    false
}

/// Whether a disk named `name` with these partitions backs a mount.
pub fn disk_in_use(mounted: &Vec<String>, name: &str, partitions: &Vec<String>) -> (r: bool)
    ensures
        r == in_use(string_views(mounted@), name@, string_views(partitions@)),
{
    let m = texts_of(mounted);
    let n = chars_of(name);
    let p = texts_of(partitions);
    let mut i: usize = 0;
    while i < m.len()
        invariant
            i <= m.len(),
            views(m@) == string_views(mounted@),
            n@ == name@,
            views(p@) == string_views(partitions@),
            forall|j: int|
                0 <= j < i ==> !(views(m@)[j] == name@ || views(p@).contains(views(m@)[j])),
        decreases m.len() - i,
    {
        if same(&m[i], &n) || listed_in(&p, &m[i]) {
            assert(views(m@)[i as int] == m@[i as int]@);
            return true;
        }
        i = i + 1;
    }
    false
}

/// How many 512-byte sectors /sys says a device has: the number in its
/// `size` file, or 0 when the file could not be read or does not parse.
pub open spec fn sectors(size: Option<Seq<char>>) -> nat {
    match size {
        Some(s) => match parse_unsigned(trim(s), u64::MAX as nat) {
            Some(n) => n,
            None => 0,
        },
        None => 0,
    }
}

/// The drive's model from /sys, or "unknown".
pub open spec fn model_of(model: Option<Seq<char>>) -> Seq<char> {
    match model {
        Some(m) => trim(m),
        None => "unknown"@,
    }
}

/// Whether /sys marks the device removable.
pub open spec fn removable_of(removable: Option<Seq<char>>) -> bool {
    match removable {
        Some(r) => trim(r) == "1"@,
        None => false,
    }
}

/// The disk a /sys/block entry describes, or `None` when it is not worth
/// offering: not listable, or of size zero.
pub open spec fn probed(
    name: Seq<char>,
    size: Option<Seq<char>>,
    model: Option<Seq<char>>,
    removable: Option<Seq<char>>,
    partitions: Seq<Seq<char>>,
    mounted: Seq<Seq<char>>,
) -> Option<DiskView> {
    if !listable(name) || sectors(size) == 0 {
        None
    } else {
        let parts = sorted_texts(partitions);
        Some(
            DiskView {
                name,
                path: "/dev/"@ + name,
                bytes: sectors(size) * 512,
                model: model_of(model),
                removable: removable_of(removable),
                partitions: parts,
                in_use: in_use(mounted, name, parts),
            },
        )
    }
}

pub open spec fn opt_text(o: Option<String>) -> Option<Seq<char>> {
    match o {
        Some(s) => Some(s@),
        None => None,
    }
}

fn trimmed_str(s: &String) -> (r: Vec<char>)
    ensures
        r@ == trim(s@),
{
    trimmed(&chars_of(s.as_str()))
}

/// The disk described by the /sys/block entry `name`: the contents of its
/// `size`, `device/model` and `removable` files (each `None` when it could
/// not be read), the names of its partitions, and the devices currently
/// mounted.
pub fn disk_from_sysfs(
    name: &str,
    size: &Option<String>,
    model: &Option<String>,
    removable: &Option<String>,
    partitions: &Vec<String>,
    mounted: &Vec<String>,
) -> (r: Option<Disk>)
    requires
        sectors(opt_text(*size)) * 512 <= u64::MAX,
    ensures
        match r {
            Some(d) => probed(
                name@,
                opt_text(*size),
                opt_text(*model),
                opt_text(*removable),
                string_views(partitions@),
                string_views(mounted@),
            ) == Some(d@),
            None => probed(
                name@,
                opt_text(*size),
                opt_text(*model),
                opt_text(*removable),
                string_views(partitions@),
                string_views(mounted@),
            ) is None,
        },
{
    if !is_listable(name) {
        return None;
    }
    let n: u64 = match size {
        Some(s) => match parse_unsigned_of(&trimmed_str(s), u64::MAX) {
            Some(n) => n,
            None => 0,
        },
        None => 0,
    };
    if n == 0 {
        return None;
    }
    let model_text = match model {
        Some(m) => string_of(&trimmed_str(m)),
        None => "unknown".to_string(),
    };
    let is_removable = match removable {
        Some(r) => same(&trimmed_str(r), &chars_of("1")),
        None => false,
    };
    let parts = strings_of(&sort_texts(&texts_of(partitions)));
    let busy = disk_in_use(mounted, name, &parts);
    let mut path = chars_of("/dev/");
    push_str(&mut path, name);
    let d = Disk {
        name: name.to_string(),
        path: string_of(&path),
        bytes: n * 512,
        model: model_text,
        removable: is_removable,
        partitions: parts,
        in_use: busy,
    };
    Some(d)
}

// ---------------------------------------------------------------- boot order

pub open spec fn is_hex(c: char) -> bool {
    ('0' <= c && c <= '9') || ('a' <= c && c <= 'f') || ('A' <= c && c <= 'F')
}

/// The four hex digits of a `Boot0001* ...` line of `efibootmgr`. None for
/// BootOrder, BootCurrent, BootNext and Timeout, whose next characters are
/// not hex.
pub open spec fn entry_id(line: Seq<char>) -> Option<Seq<char>> {
    if starts_with(line, "Boot"@) && line.len() >= 8 && (forall|i: int| 4 <= i < 8 ==> is_hex(line[i])) {
        Some(line.subrange(4, 8))
    } else {
        None
    }
}

/// The partition GUID out of a device path like `HD(1,GPT,<guid>,0x800,...)`,
/// lowercased: the text between the first `GPT,` and the comma after it,
/// when that is 36 bytes long.
pub open spec fn guid_of(line: Seq<char>) -> Option<Seq<char>> {
    match first_occurrence(line, "GPT,"@) {
        Some(i) => guid_in(line.skip(i + 4)),
        None => None,
    }
}

/// The lowercased GUID at the start of `rest`, up to the first comma.
pub open spec fn guid_in(rest: Seq<char>) -> Option<Seq<char>> {
    let k = find_char(rest, ',');
    if k < rest.len() && utf8_len(rest.take(k)) == 36 {
        Some(lower(rest.take(k)))
    } else {
        None
    }
}

pub open spec fn opt_string(o: Option<String>) -> Option<Seq<char>> {
    match o {
        Some(s) => Some(s@),
        None => None,
    }
}

/// The entry id of one line of `efibootmgr` output.
pub fn boot_entry_id(line: &str) -> (r: Option<String>)
    ensures
        opt_string(r) == entry_id(line@),
{
    let v = chars_of(line);
    proof {
        reveal_strlit("Boot");
    }
    if !has_prefix(&v, &chars_of("Boot")) || v.len() < 8 {
        return None;
    }
    let mut i: usize = 4;
    while i < 8
        invariant
            4 <= i <= 8,
            v.len() >= 8,
            v@ == line@,
            starts_with(line@, "Boot"@),
            forall|j: int| 4 <= j < i ==> is_hex(v@[j]),
        decreases 8 - i,
    {
        let c = v[i];
        if !(('0' <= c && c <= '9') || ('a' <= c && c <= 'f') || ('A' <= c && c <= 'F')) {
            assert(!is_hex(v@[i as int]));
            return None;
        }
        i = i + 1;
    }
    Some(string_of(&slice_of(&v, 4, 8)))
}

/// The GUID at the start of `rest`, up to the first comma.
fn guid_at(rest: &Vec<char>) -> (r: Option<String>)
    ensures
        opt_string(r) == guid_in(rest@),
{
    let k = find(rest, ',');
    proof {
        lemma_find_char(rest@, ',');
    }
    if k == rest.len() {
        return None;
    }
    let guid = slice_of(rest, 0, k);
    assert(guid@ =~= rest@.take(k as int));
    if utf8_len_capped(&guid, 37) != 36 {
        return None;
    }
    let g = string_of(&guid);
    Some(to_lower(g.as_str()))
}

/// The lowercased partition GUID of one line of `efibootmgr` output.
pub fn gpt_guid(line: &str) -> (r: Option<String>)
    ensures
        opt_string(r) == guid_of(line@),
{
    let v = chars_of(line);
    let pat = chars_of("GPT,");
    assert(pat@.len() == 4) by {
        reveal_strlit("GPT,");
    }
    match find_sub(&v, &pat) {
        Some(i) => {
            assert(occurs_at(v@, pat@, i as int));
            assert(i + 4 <= v.len());
            let rest = slice_of(&v, i + 4, v.len());
            assert(rest@ =~= line@.skip(i + 4));
            guid_at(&rest)
        },
        None => None,
    }
}

/// The value after the colon of the first line starting with `key`, e.g.
/// `BootCurrent: 0002`; empty when there is no such line.
pub open spec fn boot_value(text: Seq<char>, key: Seq<char>) -> Seq<char> {
    match first_starting(lines(text), key) {
        Some(l) => {
            let parts = split(l, ':');
            if parts.len() > 1 {
                trim(parts[1])
            } else {
                seq![]
            }
        },
        None => seq![],
    }
}

fn boot_value_of(ls: &Vec<Vec<char>>, key: &str) -> (r: Vec<char>)
    ensures
        r@ == (match first_starting(views(ls@), key@) {
            Some(l) => {
                let parts = split(l, ':');
                if parts.len() > 1 {
                    trim(parts[1])
                } else {
                    seq![]
                }
            },
            None => seq![],
        }),
{
    match first_starting_of(ls, key) {
        Some(l) => {
            let parts = split_of(&l, ':');
            if parts.len() > 1 {
                assert(views(parts@)[1] == parts@[1]@);
                trimmed(&parts[1])
            } else {
                Vec::new()
            }
        },
        None => Vec::new(),
    }
}

/// The label of an entry line: the text after its tab, trimmed.
pub open spec fn label_of(line: Seq<char>) -> Seq<char> {
    let parts = split(line, '\t');
    if parts.len() > 1 {
        trim(parts[1])
    } else {
        seq![]
    }
}

/// The entries among `ls` that point at a GPT partition no attached disk
/// has, other than `keep` and `current`, as `(id, label)`.
pub open spec fn doomed(
    ls: Seq<Seq<char>>,
    keep: Seq<char>,
    current: Seq<char>,
    live: Seq<Seq<char>>,
) -> Seq<(Seq<char>, Seq<char>)>
    decreases ls.len(),
{
    if ls.len() == 0 {
        seq![]
    } else {
        let rest = doomed(ls.drop_last(), keep, current, live);
        let line = ls.last();
        match entry_id(line) {
            Some(id) => if id == keep || id == current {
                rest
            } else {
                match guid_of(line) {
                    Some(g) => if live.contains(g) {
                        rest
                    } else {
                        rest.push((id, label_of(line)))
                    },
                    None => rest,
                }
            },
            None => rest,
        }
    }
}

/// The boot entries to delete, given `efibootmgr`'s output, the entry about
/// to be made first, and the PARTUUIDs attached right now. Nothing when the
/// device list is empty: it could not be read, and a dead-looking entry may
/// only be unplugged.
pub open spec fn dead_entries_spec(text: Seq<char>, keep: Seq<char>, live: Seq<Seq<char>>) -> Seq<(Seq<char>, Seq<char>)> {
    if live.len() == 0 {
        seq![]
    } else {
        doomed(lines(text), keep, boot_value(text, "BootCurrent:"@), live)
    }
}

pub open spec fn pair_views(v: Seq<(String, String)>) -> Seq<(Seq<char>, Seq<char>)> {
    Seq::new(v.len(), |i: int| (v[i].0@, v[i].1@))
}

/// Boot entries whose partition is gone, as `(id, label)`.
///
/// Deliberately narrow, because deleting the wrong entry is how a machine
/// stops booting: only entries naming a GPT partition that no attached
/// device has, and never `keep` nor the entry the installer booted from.
pub fn dead_entries(text: &str, keep: &str, live: &Vec<String>) -> (r: Vec<(String, String)>)
    ensures
        pair_views(r@) == dead_entries_spec(text@, keep@, string_views(live@)),
{
    let mut out: Vec<(String, String)> = Vec::new();
    if live.len() == 0 {
        assert(pair_views(out@) =~= seq![]);
        return out;
    }
    let ls = lines_of(&chars_of(text));
    let current = boot_value_of(&ls, "BootCurrent:");
    let keep_v = chars_of(keep);
    let lv = texts_of(live);
    let mut i: usize = 0;
    assert(pair_views(out@) =~= seq![]);
    while i < ls.len()
        invariant
            i <= ls.len(),
            keep_v@ == keep@,
            views(lv@) == string_views(live@),
            views(ls@) == lines(text@),
            current@ == boot_value(text@, "BootCurrent:"@),
            pair_views(out@) == doomed(views(ls@).take(i as int), keep@, current@, string_views(live@)),
        decreases ls.len() - i,
    {
        proof {
            assert(views(ls@).take(i + 1).drop_last() =~= views(ls@).take(i as int));
            assert(views(ls@).take(i + 1).last() == ls@[i as int]@);
        }
        let line = string_of(&ls[i]);
        let ghost before = pair_views(out@);
        match boot_entry_id(line.as_str()) {
            Some(id) => {
                let idv = chars_of(id.as_str());
                if !same(&idv, &keep_v) && !same(&idv, &current) {
                    match gpt_guid(line.as_str()) {
                        Some(g) => {
                            if !listed_in(&lv, &chars_of(g.as_str())) {
                                let parts = split_of(&ls[i], '\t');
                                let label = if parts.len() > 1 {
                                    assert(views(parts@)[1] == parts@[1]@);
                                    string_of(&trimmed(&parts[1]))
                                } else {
                                    string_of(&Vec::new())
                                };
                                out.push((id, label));
                                assert(pair_views(out@) =~= before.push((idv@, label_of(ls@[i as int]@))));
                            }
                        },
                        None => {},
                    }
                }
            },
            None => {},
        }
        i = i + 1;
    }
    assert(views(ls@).take(ls.len() as int) =~= views(ls@));
    out
}

/// Line `j` of `ls` is a boot entry with this id that may go: it is neither
/// `keep` nor `current`, and names a GPT partition that is not live.
pub open spec fn removable_at(
    ls: Seq<Seq<char>>,
    j: int,
    id: Seq<char>,
    keep: Seq<char>,
    current: Seq<char>,
    live: Seq<Seq<char>>,
) -> bool {
    &&& 0 <= j < ls.len()
    &&& entry_id(ls[j]) == Some(id)
    &&& id != keep
    &&& id != current
    &&& guid_of(ls[j]) is Some
    &&& !live.contains(guid_of(ls[j])->0)
}

pub open spec fn justified(ls: Seq<Seq<char>>, id: Seq<char>, keep: Seq<char>, current: Seq<char>, live: Seq<Seq<char>>) -> bool {
    exists|j: int| removable_at(ls, j, id, keep, current, live)
}

/// Why an entry is removed: each one names a GPT partition that no attached
/// device carries, and is neither the entry being made first nor the one the
/// installer booted from. With no device list, nothing is removed.
pub proof fn law_only_dead_entries_go(text: Seq<char>, keep: Seq<char>, live: Seq<Seq<char>>)
    ensures
        live.len() == 0 ==> dead_entries_spec(text, keep, live).len() == 0,
        forall|k: int|
            0 <= k < dead_entries_spec(text, keep, live).len() ==> justified(
                lines(text),
                #[trigger] dead_entries_spec(text, keep, live)[k].0,
                keep,
                boot_value(text, "BootCurrent:"@),
                live,
            ),
{
    if live.len() > 0 {
        lemma_doomed_narrow(lines(text), keep, boot_value(text, "BootCurrent:"@), live);
    }
}

proof fn lemma_doomed_narrow(ls: Seq<Seq<char>>, keep: Seq<char>, current: Seq<char>, live: Seq<Seq<char>>)
    ensures
        forall|k: int|
            0 <= k < doomed(ls, keep, current, live).len() ==> justified(
                ls,
                #[trigger] doomed(ls, keep, current, live)[k].0,
                keep,
                current,
                live,
            ),
    decreases ls.len(),
{
    if ls.len() > 0 {
        let d = doomed(ls, keep, current, live);
        let rest = doomed(ls.drop_last(), keep, current, live);
        lemma_doomed_narrow(ls.drop_last(), keep, current, live);
        assert forall|k: int| 0 <= k < d.len() implies justified(ls, #[trigger] d[k].0, keep, current, live) by {
            if k < rest.len() {
                assert(d[k] == rest[k]);
                assert(justified(ls.drop_last(), rest[k].0, keep, current, live));
                let j = choose|j: int| removable_at(ls.drop_last(), j, rest[k].0, keep, current, live);
                assert(ls[j] == ls.drop_last()[j]);
                assert(removable_at(ls, j, d[k].0, keep, current, live));
            } else {
                assert(removable_at(ls, ls.len() - 1, d[k].0, keep, current, live));
            }
        }
    }
}

/// The first `Boot....` line whose lowercased text holds `uuid`.
pub open spec fn entry_line(ls: Seq<Seq<char>>, uuid: Seq<char>) -> Option<Seq<char>>
    decreases ls.len(),
{
    if ls.len() == 0 {
        None
    } else if starts_with(ls[0], "Boot"@) && contains(lower(ls[0]), uuid) {
        Some(ls[0])
    } else {
        entry_line(ls.drop_first(), uuid)
    }
}

/// `s.trim_start_matches("Boot")`.
pub open spec fn strip_boot(s: Seq<char>) -> Seq<char>
    decreases s.len(),
{
    if s.len() >= 4 && starts_with(s, "Boot"@) {
        strip_boot(s.skip(4))
    } else {
        s
    }
}

/// `s.trim_end_matches('*')`.
pub open spec fn strip_stars(s: Seq<char>) -> Seq<char>
    decreases s.len(),
{
    if s.len() > 0 && s.last() == '*' {
        strip_stars(s.drop_last())
    } else {
        s
    }
}

/// The id of the entry whose device path carries the partition `uuid`:
/// unambiguous, however many entries share a label.
pub open spec fn our_entry_spec(text: Seq<char>, uuid: Seq<char>) -> Option<Seq<char>> {
    match entry_line(lines(text), uuid) {
        Some(l) => {
            let w = words(l);
            Some(strip_stars(strip_boot(if w.len() > 0 { w[0] } else { seq![] })))
        },
        None => None,
    }
}

fn strip_boot_of(v: &Vec<char>) -> (r: Vec<char>)
    ensures
        r@ == strip_boot(v@),
{
    let boot = chars_of("Boot");
    proof {
        reveal_strlit("Boot");
    }
    let mut start: usize = 0;
    assert(v@.skip(0) =~= v@);
    while v.len() - start >= 4 && matches_at(v, &boot, start)
        invariant
            start <= v.len(),
            boot@ == "Boot"@,
            boot@.len() == 4,
            strip_boot(v@) == strip_boot(v@.skip(start as int)),
        decreases v.len() - start,
    {
        proof {
            let t = v@.skip(start as int);
            assert(t.subrange(0, 4) =~= v@.subrange(start as int, start + 4));
            assert(starts_with(t, "Boot"@));
            assert(t.len() >= 4);
            assert(t.skip(4) =~= v@.skip(start + 4));
            assert(strip_boot(t) == strip_boot(t.skip(4)));
        }
        start = start + 4;
    }
    proof {
        let t = v@.skip(start as int);
        if t.len() >= 4 {
            assert(t.subrange(0, 4) =~= v@.subrange(start as int, start + 4));
            assert(!starts_with(t, "Boot"@));
        }
        assert(strip_boot(t) == t);
    }
    let r = slice_of(v, start, v.len());
    assert(r@ =~= v@.skip(start as int));
    r
}

fn strip_stars_of(v: &Vec<char>) -> (r: Vec<char>)
    ensures
        r@ == strip_stars(v@),
{
    let mut end = v.len();
    assert(v@.take(end as int) =~= v@);
    while end > 0 && v[end - 1] == '*'
        invariant
            end <= v.len(),
            strip_stars(v@) == strip_stars(v@.take(end as int)),
        decreases end,
    {
        assert(v@.take(end as int).drop_last() =~= v@.take(end - 1));
        end = end - 1;
    }
    slice_of(v, 0, end)
}

/// The NVRAM entry pointing at the partition `uuid` (lowercase), from
/// `efibootmgr`'s output.
pub fn our_entry(text: &str, uuid: &str) -> (r: Option<String>)
    ensures
        opt_string(r) == our_entry_spec(text@, uuid@),
{
    let ls = lines_of(&chars_of(text));
    let u = chars_of(uuid);
    let boot = chars_of("Boot");
    let mut i: usize = 0;
    assert(views(ls@).skip(0) =~= views(ls@));
    while i < ls.len()
        invariant
            i <= ls.len(),
            u@ == uuid@,
            boot@ == "Boot"@,
            views(ls@) == lines(text@),
            entry_line(lines(text@), uuid@) == entry_line(views(ls@).skip(i as int), uuid@),
        decreases ls.len() - i,
    {
        let ghost rest = views(ls@).skip(i as int);
        assert(rest[0] == ls@[i as int]@);
        let low = to_lower(string_of(&ls[i]).as_str());
        if has_prefix(&ls[i], &boot) && has_sub(&chars_of(low.as_str()), &u) {
            let w = words_of(&ls[i]);
            let first = if w.len() > 0 {
                assert(views(w@)[0] == w@[0]@);
                copy_of(&w[0])
            } else {
                Vec::new()
            };
            return Some(string_of(&strip_stars_of(&strip_boot_of(&first))));
        }
        assert(rest.drop_first() =~= views(ls@).skip(i + 1));
        i = i + 1;
    }
    assert(views(ls@).skip(i as int) =~= seq![]);
    None
}

/// The entries of the `BootOrder:` line, in order; empty without one.
pub open spec fn boot_order_spec(text: Seq<char>) -> Seq<Seq<char>> {
    match first_starting(lines(text), "BootOrder:"@) {
        Some(l) => {
            let parts = split(l, ':');
            if parts.len() > 1 {
                let ids = split(trim(parts[1]), ',');
                Seq::new(ids.len(), |k: int| trim(ids[k]))
            } else {
                seq![]
            }
        },
        None => seq![],
    }
}

/// The firmware's boot order, from `efibootmgr`'s output.
pub fn boot_order(text: &str) -> (r: Vec<String>)
    ensures
        string_views(r@) == boot_order_spec(text@),
{
    let ls = lines_of(&chars_of(text));
    let mut out: Vec<String> = Vec::new();
    match first_starting_of(&ls, "BootOrder:") {
        Some(l) => {
            let parts = split_of(&l, ':');
            if parts.len() > 1 {
                assert(views(parts@)[1] == parts@[1]@);
                let ids = split_of(&trimmed(&parts[1]), ',');
                let mut k: usize = 0;
                while k < ids.len()
                    invariant
                        k <= ids.len(),
                        string_views(out@) == Seq::new(k as nat, |j: int| trim(views(ids@)[j])),
                    decreases ids.len() - k,
                {
                    let t = trimmed(&ids[k]);
                    let ghost before = string_views(out@);
                    let ts = string_of(&t);
                    out.push(ts);
                    proof {
                        assert(views(ids@)[k as int] == ids@[k as int]@);
                        assert(string_views(out@) =~= before.push(trim(views(ids@)[k as int])));
                        assert(string_views(out@) =~= Seq::new((k + 1) as nat, |j: int| trim(views(ids@)[j])));
                    }
                    k = k + 1;
                }
            }
        },
        None => {},
    }
    assert(string_views(out@) =~= boot_order_spec(text@));
    out
}

/// `order` without any occurrence of `x`, the rest in their order.
pub open spec fn without(order: Seq<Seq<char>>, x: Seq<char>) -> Seq<Seq<char>>
    decreases order.len(),
{
    if order.len() == 0 {
        seq![]
    } else if order.last() == x {
        without(order.drop_last(), x)
    } else {
        without(order.drop_last(), x).push(order.last())
    }
}

/// The boot order with `entry` first, or `None` when it already is.
pub open spec fn reordered(order: Seq<Seq<char>>, entry: Seq<char>) -> Option<Seq<Seq<char>>> {
    if order.len() > 0 && order[0] == entry {
        None
    } else {
        Some(seq![entry] + without(order, entry))
    }
}

/// The boot order with `entry` first and everything else after it, in the
/// order it had; `None` when `entry` is first already.
pub fn new_boot_order(order: &Vec<String>, entry: &str) -> (r: Option<Vec<String>>)
    ensures
        match r {
            Some(v) => reordered(string_views(order@), entry@) == Some(string_views(v@)),
            None => reordered(string_views(order@), entry@) is None,
        },
{
    let o = texts_of(order);
    let e = chars_of(entry);
    if o.len() > 0 && same(&o[0], &e) {
        assert(views(o@)[0] == o@[0]@);
        return None;
    }
    let mut rest: Vec<Vec<char>> = Vec::new();
    let mut i: usize = 0;
    while i < o.len()
        invariant
            i <= o.len(),
            e@ == entry@,
            views(rest@) == without(views(o@).take(i as int), entry@),
        decreases o.len() - i,
    {
        proof {
            assert(views(o@).take(i + 1).drop_last() =~= views(o@).take(i as int));
            assert(views(o@).take(i + 1).last() == o@[i as int]@);
        }
        if !same(&o[i], &e) {
            let ghost before = views(rest@);
            let x = copy_of(&o[i]);
            rest.push(x);
            assert(views(rest@) =~= before.push(x@));
        }
        i = i + 1;
    }
    assert(views(o@).take(o.len() as int) =~= views(o@));
    let mut all: Vec<Vec<char>> = Vec::new();
    all.push(e);
    let mut k: usize = 0;
    while k < rest.len()
        invariant
            k <= rest.len(),
            views(all@) == seq![entry@] + views(rest@).take(k as int),
        decreases rest.len() - k,
    {
        let ghost before = views(all@);
        let x = copy_of(&rest[k]);
        assert(x@ == views(rest@)[k as int]);
        all.push(x);
        assert(views(all@) == before.push(views(rest@)[k as int])) by {
            assert(views(all@) =~= before.push(views(rest@)[k as int]));
        }
        assert(views(rest@).take(k + 1) =~= views(rest@).take(k as int).push(views(rest@)[k as int]));
        assert(views(all@) =~= seq![entry@] + views(rest@).take(k + 1));
        k = k + 1;
    }
    assert(views(rest@).take(rest.len() as int) =~= views(rest@));
    Some(strings_of(&all))
}

proof fn lemma_without(order: Seq<Seq<char>>, x: Seq<char>)
    ensures
        forall|j: int|
            0 <= j < without(order, x).len() ==> without(order, x)[j] != x && order.contains(
                #[trigger] without(order, x)[j],
            ),
        forall|m: int| 0 <= m < order.len() && order[m] != x ==> without(order, x).contains(#[trigger] order[m]),
    decreases order.len(),
{
    if order.len() > 0 {
        let dl = order.drop_last();
        lemma_without(dl, x);
        let w0 = without(dl, x);
        let w = without(order, x);
        assert forall|j: int| 0 <= j < w.len() implies w[j] != x && order.contains(#[trigger] w[j]) by {
            if j < w0.len() {
                assert(w[j] == w0[j]);
                assert(dl.contains(w0[j]));
                let m = choose|m: int| 0 <= m < dl.len() && dl[m] == w0[j];
                assert(order[m] == dl[m]);
            } else {
                assert(order[order.len() - 1] == order.last());
            }
        }
        assert forall|m: int| 0 <= m < order.len() && order[m] != x implies w.contains(#[trigger] order[m]) by {
            if m < order.len() - 1 {
                assert(dl[m] == order[m]);
                assert(w0.contains(dl[m]));
                let j = choose|j: int| 0 <= j < w0.len() && w0[j] == dl[m];
                assert(w[j] == w0[j]);
            } else {
                assert(w[w.len() - 1] == order[m]);
            }
        }
    }
}

/// Making `entry` first loses nothing and duplicates nothing: the new order
/// starts with `entry`, holds it nowhere else, and holds every other entry
/// the old order held, and only those.
pub proof fn law_entry_goes_first(order: Seq<Seq<char>>, entry: Seq<char>)
    requires
        reordered(order, entry) is Some,
    ensures
        reordered(order, entry)->0[0] == entry,
        !reordered(order, entry)->0.drop_first().contains(entry),
        forall|y: Seq<char>| y != entry ==> (order.contains(y) <==> reordered(order, entry)->0.contains(y)),
{
    let n = reordered(order, entry)->0;
    let w = without(order, entry);
    lemma_without(order, entry);
    assert(n.drop_first() =~= w);
    if w.contains(entry) {
        let j = choose|j: int| 0 <= j < w.len() && w[j] == entry;
        assert(w[j] != entry);
    }
    assert forall|y: Seq<char>| y != entry implies (order.contains(y) <==> n.contains(y)) by {
        if n.contains(y) {
            let j = choose|j: int| 0 <= j < n.len() && n[j] == y;
            assert(j > 0);
            assert(w[j - 1] == y);
            assert(order.contains(w[j - 1]));
        }
        if order.contains(y) {
            let m = choose|m: int| 0 <= m < order.len() && order[m] == y;
            assert(w.contains(order[m]));
            let j = choose|j: int| 0 <= j < w.len() && w[j] == y;
            assert(n[j + 1] == y);
        }
    }
}

/// The PARTUUIDs of every attached partition, from `lsblk -rno PARTUUID`:
/// each line trimmed and lowercased, blank ones dropped.
pub open spec fn partuuids(ls: Seq<Seq<char>>) -> Seq<Seq<char>>
    decreases ls.len(),
{
    if ls.len() == 0 {
        seq![]
    } else {
        let t = lower(trim(ls.last()));
        partuuids(ls.drop_last()) + if t.len() > 0 {
            seq![t]
        } else {
            seq![]
        }
    }
}

/// PARTUUIDs of every partition attached to this machine, from `lsblk`.
pub fn live_partuuids_from(out: &str) -> (r: Vec<String>)
    ensures
        string_views(r@) == partuuids(lines(out@)),
{
    let ls = lines_of(&chars_of(out));
    let mut r: Vec<String> = Vec::new();
    let mut i: usize = 0;
    while i < ls.len()
        invariant
            i <= ls.len(),
            string_views(r@) == partuuids(views(ls@).take(i as int)),
        decreases ls.len() - i,
    {
        proof {
            assert(views(ls@).take(i + 1).drop_last() =~= views(ls@).take(i as int));
            assert(views(ls@).take(i + 1).last() == ls@[i as int]@);
        }
        let t = to_lower(string_of(&trimmed(&ls[i])).as_str());
        let ghost before = string_views(r@);
        let tv = chars_of(t.as_str());
        if tv.len() > 0 {
            r.push(t);
            assert(string_views(r@) =~= before + seq![tv@]);
        } else {
            assert(string_views(r@) =~= before + seq![]);
        }
        i = i + 1;
    }
    assert(views(ls@).take(ls.len() as int) =~= views(ls@));
    r
}

// ---------------------------------------------------------------- options

/// What `kiwami install` was asked to do.
pub struct Options {
    pub disk: Option<String>,
    /// Host attribute to install. Resolved against the flake, and prompted
    /// for when omitted - there is no sensible default, and guessing one
    /// means discovering it was wrong after the disk is already erased.
    pub host: Option<String>,
    pub flake: String,
    pub assume_yes: bool,
    pub force: bool,
    /// Create hosts/<name>/ if the flake does not define it yet.
    pub new_host: bool,
    /// Rewrite hardware.nix even if one is already committed.
    pub regen_hardware: bool,
    /// Ask the layout questions again for a host that already declares them.
    pub relayout: bool,
    /// Offer the steps that come before an install - networking, and being
    /// reachable for help - rather than assuming they were done already.
    pub guided: bool,
}

/// The host an install is for.
pub struct HostPlan {
    pub name: String,
    /// The flake does not define this host yet; scaffold it after mounting.
    pub create: bool,
}

pub open spec fn plan_view(r: Result<HostPlan, String>) -> Result<(Seq<char>, bool), Seq<char>> {
    match r {
        Ok(p) => Ok((p.name@, p.create)),
        Err(e) => Err(e@),
    }
}

pub open spec fn unit_view(r: Result<(), String>) -> Result<(), Seq<char>> {
    match r {
        Ok(()) => Ok(()),
        Err(e) => Err(e@),
    }
}

/// A device as given on the command line, as a path under /dev.
pub open spec fn device_path(want: Seq<char>) -> Seq<char> {
    if starts_with(want, "/dev/"@) {
        want
    } else {
        "/dev/"@ + want
    }
}

/// `--disk nvme0n1` and `--disk /dev/nvme0n1` name the same disk.
pub fn device_path_of(want: &str) -> (r: String)
    ensures
        r@ == device_path(want@),
{
    let v = chars_of(want);
    if has_prefix(&v, &chars_of("/dev/")) {
        string_of(&v)
    } else {
        let mut p = chars_of("/dev/");
        push_str(&mut p, want);
        string_of(&p)
    }
}

/// A menu answer: a number from 1 to `n`, as `usize::from_str` reads it.
pub open spec fn menu_choice(answer: Seq<char>, n: nat) -> Option<nat> {
    match parse_unsigned(answer, n) {
        Some(k) => if k >= 1 {
            Some(k)
        } else {
            None
        },
        None => None,
    }
}

/// Which of `n` numbered items an answer picks, counting from 1.
pub fn pick_from_menu(answer: &str, n: usize) -> (r: Option<usize>)
    ensures
        match r {
            Some(k) => menu_choice(answer@, n as nat) == Some(k as nat),
            None => menu_choice(answer@, n as nat) is None,
        },
{
    match parse_unsigned_of(&chars_of(answer), n as u64) {
        Some(k) => if k >= 1 {
            Some(k as usize)
        } else {
            None
        },
        None => None,
    }
}

pub open spec fn lower_ascii(c: char) -> char {
    if 'A' <= c && c <= 'Z' {
        (((c as u32) + 32) as u8) as char
    } else {
        c
    }
}

/// `str::eq_ignore_ascii_case`.
pub open spec fn same_ignoring_case(a: Seq<char>, b: Seq<char>) -> bool {
    a.len() == b.len() && forall|i: int| 0 <= i < a.len() ==> lower_ascii(a[i]) == lower_ascii(b[i])
}

fn lower_ascii_of(c: char) -> (r: char)
    ensures
        r == lower_ascii(c),
{
    if 'A' <= c && c <= 'Z' {
        (((c as u32) + 32) as u8) as char
    } else {
        c
    }
}

/// Whether two strings are equal, ignoring the case of ASCII letters.
pub fn eq_ignore_ascii_case(a: &str, b: &str) -> (r: bool)
    ensures
        r == same_ignoring_case(a@, b@),
{
    let x = chars_of(a);
    let y = chars_of(b);
    if x.len() != y.len() {
        return false;
    }
    let mut i: usize = 0;
    while i < x.len()
        invariant
            i <= x.len(),
            x.len() == y.len(),
            x@ == a@,
            y@ == b@,
            forall|j: int| 0 <= j < i ==> lower_ascii(x@[j]) == lower_ascii(y@[j]),
        decreases x.len() - i,
    {
        if lower_ascii_of(x[i]) != lower_ascii_of(y[i]) {
            return false;
        }
        i = i + 1;
    }
    true
}

/// A yes/no question that will not accept a shrug: `y`/`yes` and `n`/`no`
/// in any case, surrounding blanks ignored; anything else is asked again.
pub open spec fn firm_answer(answer: Seq<char>) -> Option<bool> {
    let t = trim(answer);
    if same_ignoring_case(t, "y"@) || same_ignoring_case(t, "yes"@) {
        Some(true)
    } else if same_ignoring_case(t, "n"@) || same_ignoring_case(t, "no"@) {
        Some(false)
    } else {
        None
    }
}

/// The answer to a question that insists, or `None` to ask again.
pub fn firm_answer_of(answer: &str) -> (r: Option<bool>)
    ensures
        r == firm_answer(answer@),
{
    let t = string_of(&trimmed(&chars_of(answer)));
    if eq_ignore_ascii_case(t.as_str(), "y") || eq_ignore_ascii_case(t.as_str(), "yes") {
        Some(true)
    } else if eq_ignore_ascii_case(t.as_str(), "n") || eq_ignore_ascii_case(t.as_str(), "no") {
        Some(false)
    } else {
        None
    }
}

pub open spec fn host_name_char(c: char) -> bool {
    ('a' <= c && c <= 'z') || ('A' <= c && c <= 'Z') || ('0' <= c && c <= '9') || c == '-' || c == '_'
}

/// The name becomes a directory and a flake attribute, so only letters,
/// digits, dashes and underscores, and at least one of them.
pub open spec fn host_name_error(name: Seq<char>) -> Option<Seq<char>> {
    if name.len() == 0 || !(forall|i: int| 0 <= i < name.len() ==> host_name_char(name[i])) {
        Some("bad host name: "@ + name + "\nUse letters, digits, dashes and underscores."@)
    } else {
        None
    }
}

/// Whether a new machine may be called `name`.
pub fn validate_host_name(name: &str) -> (r: Result<(), String>)
    ensures
        match r {
            Ok(()) => host_name_error(name@) is None,
            Err(e) => host_name_error(name@) == Some(e@),
        },
{
    let v = chars_of(name);
    let mut ok = v.len() > 0;
    let mut i: usize = 0;
    while ok && i < v.len()
        invariant
            i <= v.len(),
            v@ == name@,
            ok ==> v.len() > 0,
            ok ==> forall|j: int| 0 <= j < i ==> host_name_char(v@[j]),
            !ok ==> host_name_error(name@) is Some,
        decreases v.len() - i,
    {
        let c = v[i];
        if !(('a' <= c && c <= 'z') || ('A' <= c && c <= 'Z') || ('0' <= c && c <= '9') || c == '-' || c == '_') {
            assert(!host_name_char(v@[i as int]));
            ok = false;
        }
        i = i + 1;
    }
    if ok {
        Ok(())
    } else {
        let mut e = chars_of("bad host name: ");
        push_str(&mut e, name);
        push_str(&mut e, "\nUse letters, digits, dashes and underscores.");
        Err(string_of(&e))
    }
}

/// What an explicitly requested host resolves to, given the hosts the flake
/// defines: that host, or a new one when allowed and asked for, or why not.
pub open spec fn requested_host(
    hosts: Seq<Seq<char>>,
    want: Seq<char>,
    writable: bool,
    new_host: bool,
    flake: Seq<char>,
) -> Result<(Seq<char>, bool), Seq<char>> {
    let avail = join(hosts, ", "@);
    if hosts.contains(want) {
        Ok((want, false))
    } else if !writable {
        Err("no such host: "@ + want + "\nAvailable: "@ + avail + "\n"@ + flake
            + " is fetched read-only, so a new host cannot be added to it."@)
    } else if !new_host {
        Err("no such host: "@ + want + "\nAvailable: "@ + avail + "\nPass --new to scaffold hosts/"@ + want
            + " instead."@)
    } else {
        match host_name_error(want) {
            Some(e) => Err(e),
            None => Ok((want, true)),
        }
    }
}

/// Resolve `--host want` against the hosts the flake defines. Creating a
/// machine is not something to infer from a typo: a new host needs `--new`,
/// and a checkout to write it into.
pub fn resolve_requested_host(
    hosts: &Vec<String>,
    want: &str,
    writable: bool,
    new_host: bool,
    flake: &str,
) -> (r: Result<HostPlan, String>)
    ensures
        plan_view(r) == requested_host(string_views(hosts@), want@, writable, new_host, flake@),
{
    let hs = texts_of(hosts);
    let w = chars_of(want);
    if listed_in(&hs, &w) {
        return Ok(HostPlan { name: want.to_string(), create: false });
    }
    let avail = joined(&hs, &chars_of(", "));
    if !writable {
        let mut e = chars_of("no such host: ");
        push_str(&mut e, want);
        push_str(&mut e, "\nAvailable: ");
        push_all(&mut e, &avail);
        push_str(&mut e, "\n");
        push_str(&mut e, flake);
        push_str(&mut e, " is fetched read-only, so a new host cannot be added to it.");
        return Err(string_of(&e));
    }
    if !new_host {
        let mut e = chars_of("no such host: ");
        push_str(&mut e, want);
        push_str(&mut e, "\nAvailable: ");
        push_all(&mut e, &avail);
        push_str(&mut e, "\nPass --new to scaffold hosts/");
        push_str(&mut e, want);
        push_str(&mut e, " instead.");
        return Err(string_of(&e));
    }
    match validate_host_name(want) {
        Ok(()) => Ok(HostPlan { name: want.to_string(), create: true }),
        Err(e) => Err(e),
    }
}

/// Unattended runs cannot be asked which host they mean.
pub open spec fn unattended_without_host(hosts: Seq<Seq<char>>) -> Seq<char> {
    "--yes needs an explicit --host.\nAvailable: "@ + join(hosts, ", "@)
}

/// Why `--yes` without `--host` stops.
pub fn no_host_given(hosts: &Vec<String>) -> (r: String)
    ensures
        r@ == unattended_without_host(string_views(hosts@)),
{
    let mut e = chars_of("--yes needs an explicit --host.\nAvailable: ");
    push_all(&mut e, &joined(&texts_of(hosts), &chars_of(", ")));
    string_of(&e)
}

/// An answer to the host menu.
pub enum HostPick {
    /// The `k`th host listed, counting from 1.
    Listed(usize),
    /// `n`: a new machine.
    NewMachine,
    /// Neither; ask again.
    Again,
}

pub open spec fn host_pick(answer: Seq<char>, n: nat) -> HostPick {
    if same_ignoring_case(answer, "n"@) {
        HostPick::NewMachine
    } else {
        match menu_choice(answer, n) {
            Some(k) => HostPick::Listed(k as usize),
            None => HostPick::Again,
        }
    }
}

/// Read an answer to "Which? [1-n, or n]".
pub fn read_host_pick(answer: &str, n: usize) -> (r: HostPick)
    ensures
        r == host_pick(answer@, n as nat),
{
    if eq_ignore_ascii_case(answer, "n") {
        HostPick::NewMachine
    } else {
        match pick_from_menu(answer, n) {
            Some(k) => HostPick::Listed(k),
            None => HostPick::Again,
        }
    }
}

/// A name typed for a new machine: accepted, or what to say before asking
/// again - it exists already, or it is not a valid name.
pub open spec fn new_host_named(hosts: Seq<Seq<char>>, name: Seq<char>) -> Result<(Seq<char>, bool), Seq<char>> {
    if hosts.contains(name) {
        Err(name + " already exists; pick it from the list, or choose another name."@)
    } else {
        match host_name_error(name) {
            Some(e) => Err(e),
            None => Ok((name, true)),
        }
    }
}

/// Accept a name typed for a new machine, or say why not.
pub fn name_new_host(hosts: &Vec<String>, name: &str) -> (r: Result<HostPlan, String>)
    ensures
        plan_view(r) == new_host_named(string_views(hosts@), name@),
{
    if listed_in(&texts_of(hosts), &chars_of(name)) {
        let mut e = chars_of(name);
        push_str(&mut e, " already exists; pick it from the list, or choose another name.");
        return Err(string_of(&e));
    }
    match validate_host_name(name) {
        Ok(()) => Ok(HostPlan { name: name.to_string(), create: true }),
        Err(e) => Err(e),
    }
}

// ---------------------------------------------------------------- device names

/// Aliases that identify a drive by number rather than by what it is.
pub open spec fn opaque(name: Seq<char>) -> bool {
    starts_with(name, "wwn-"@) || starts_with(name, "nvme-eui."@) || starts_with(name, "nvme-nvme."@)
}

/// Whether a by-id alias names the drive by number.
pub fn is_opaque(name: &str) -> (r: bool)
    ensures
        r == opaque(name@),
{
    let v = chars_of(name);
    has_prefix(&v, &chars_of("wwn-")) || has_prefix(&v, &chars_of("nvme-eui.")) || has_prefix(
        &v,
        &chars_of("nvme-nvme."),
    )
}

/// The order aliases are preferred in: readable before opaque, then
/// shorter (in bytes) first, then by text.
pub open spec fn alias_before(a: Seq<char>, b: Seq<char>) -> bool {
    ||| !opaque(a) && opaque(b)
    ||| opaque(a) == opaque(b) && utf8_len(a) < utf8_len(b)
    ||| opaque(a) == opaque(b) && utf8_len(a) == utf8_len(b) && text_le(a, b) && a != b
}

/// The alias sorted first by `alias_before`, the earliest of equals.
pub open spec fn best_alias(names: Seq<Seq<char>>) -> Seq<char>
    decreases names.len(),
{
    if names.len() <= 1 {
        names[0]
    } else {
        let b = best_alias(names.drop_last());
        if alias_before(names.last(), b) {
            names.last()
        } else {
            b
        }
    }
}

/// The UTF-8 length of these characters.
pub fn utf8_len_of(v: &Vec<char>) -> (n: u128)
    ensures
        n == utf8_len(v@),
{
    let mut n: u128 = 0;
    let mut i: usize = 0;
    while i < v.len()
        invariant
            i <= v.len(),
            n == utf8_len(v@.take(i as int)),
            n <= 4 * i,
        decreases v.len() - i,
    {
        assert(v@.take(i + 1).drop_last() =~= v@.take(i as int));
        let w = crate::text::utf8_width_of(v[i]);
        n = n + w as u128;
        i = i + 1;
    }
    assert(v@.take(v.len() as int) =~= v@);
    n
}

fn alias_before_of(a: &Vec<char>, b: &Vec<char>) -> (r: bool)
    ensures
        r == alias_before(a@, b@),
{
    let oa = is_opaque(string_of(a).as_str());
    let ob = is_opaque(string_of(b).as_str());
    if !oa && ob {
        return true;
    }
    if oa != ob {
        return false;
    }
    let la = utf8_len_of(a);
    let lb = utf8_len_of(b);
    if la != lb {
        return la < lb;
    }
    text_le_exec(a, b) && !same(a, b)
}

/// The most legible of a drive's by-id aliases: one that says what the drive
/// is rather than numbering it, the shortest of those, then the first by text.
pub fn preferred_alias(names: &Vec<String>) -> (r: Option<String>)
    ensures
        match r {
            Some(a) => names@.len() > 0 && a@ == best_alias(string_views(names@)),
            None => names@.len() == 0,
        },
{
    if names.len() == 0 {
        return None;
    }
    let ns = texts_of(names);
    assert(views(ns@).len() == ns@.len());
    let mut best = copy_of(&ns[0]);
    let mut i: usize = 1;
    assert(views(ns@).take(1).drop_last() =~= seq![]);
    while i < ns.len()
        invariant
            1 <= i <= ns.len(),
            views(ns@) == string_views(names@),
            best@ == best_alias(views(ns@).take(i as int)),
        decreases ns.len() - i,
    {
        proof {
            assert(views(ns@).take(i + 1).drop_last() =~= views(ns@).take(i as int));
            assert(views(ns@).take(i + 1).last() == ns@[i as int]@);
        }
        if alias_before_of(&ns[i], &best) {
            best = copy_of(&ns[i]);
        }
        i = i + 1;
    }
    assert(views(ns@).take(ns.len() as int) =~= views(ns@));
    Some(string_of(&best))
}

/// The whole-disk aliases among a drive's by-id names: partition aliases
/// point at slices, not at the disk.
pub open spec fn whole_disk_aliases(names: Seq<Seq<char>>) -> Seq<Seq<char>>
    decreases names.len(),
{
    if names.len() == 0 {
        seq![]
    } else {
        whole_disk_aliases(names.drop_last()) + if contains(names.last(), "-part"@) {
            seq![]
        } else {
            seq![names.last()]
        }
    }
}

proof fn lemma_text_facts(a: Seq<char>, b: Seq<char>, c: Seq<char>)
    ensures
        text_le(a, b) || text_le(b, a),
        text_le(a, b) && text_le(b, a) ==> a == b,
        text_le(a, b) && text_le(b, c) ==> text_le(a, c),
{
    crate::order::lemma_text_order_total();
    let r = crate::order::text_order();
    assert(r(a, b) == text_le(a, b));
    assert(r(b, a) == text_le(b, a));
    assert(r(b, c) == text_le(b, c));
    assert(r(a, c) == text_le(a, c));
}

/// `alias_before` is a strict total order.
proof fn lemma_alias_order(a: Seq<char>, b: Seq<char>, c: Seq<char>)
    ensures
        a != b ==> alias_before(a, b) || alias_before(b, a),
        !(alias_before(a, b) && alias_before(b, a)),
        alias_before(a, b) && alias_before(b, c) ==> alias_before(a, c),
{
    lemma_text_facts(a, b, c);
    lemma_text_facts(a, c, b);
}

/// The alias chosen is one of the names, and every other name comes after
/// it: readable before opaque, then shorter, then earlier as text.
pub proof fn law_best_alias_is_first(names: Seq<Seq<char>>)
    requires
        names.len() > 0,
    ensures
        names.contains(best_alias(names)),
        forall|x: Seq<char>| #[trigger] names.contains(x) ==> x == best_alias(names) || alias_before(best_alias(names), x),
    decreases names.len(),
{
    if names.len() == 1 {
        assert(names[0] == best_alias(names));
        assert forall|x: Seq<char>| #[trigger] names.contains(x) implies x == best_alias(names) || alias_before(
            best_alias(names),
            x,
        ) by {
            let k = choose|k: int| 0 <= k < names.len() && names[k] == x;
        }
    } else {
        let dl = names.drop_last();
        law_best_alias_is_first(dl);
        let b = best_alias(dl);
        let last = names.last();
        let best = best_alias(names);
        assert(names.contains(best)) by {
            if best == last {
                assert(names[names.len() - 1] == last);
            } else {
                let k = choose|k: int| 0 <= k < dl.len() && dl[k] == b;
                assert(names[k] == b);
            }
        }
        assert forall|x: Seq<char>| #[trigger] names.contains(x) implies x == best || alias_before(best, x) by {
            let k = choose|k: int| 0 <= k < names.len() && names[k] == x;
            lemma_alias_order(last, b, x);
            lemma_alias_order(b, last, x);
            if k < names.len() - 1 {
                assert(dl[k] == x);
                assert(dl.contains(x));
            } else {
                assert(x == last);
            }
        }
    }
}

proof fn lemma_whole_disk_aliases(names: Seq<Seq<char>>)
    ensures
        forall|x: Seq<char>| #[trigger] whole_disk_aliases(names).contains(x) <==> (names.contains(x) && !contains(x, "-part"@)),
    decreases names.len(),
{
    if names.len() > 0 {
        let dl = names.drop_last();
        lemma_whole_disk_aliases(dl);
        let w = whole_disk_aliases(names);
        let wd = whole_disk_aliases(dl);
        assert forall|x: Seq<char>| #[trigger] w.contains(x) <==> (names.contains(x) && !contains(x, "-part"@)) by {
            if w.contains(x) {
                let k = choose|k: int| 0 <= k < w.len() && w[k] == x;
                if k < wd.len() {
                    assert(wd[k] == x);
                    assert(wd.contains(x));
                    let m = choose|m: int| 0 <= m < dl.len() && dl[m] == x;
                    assert(names[m] == x);
                } else {
                    assert(x == names.last());
                    assert(names[names.len() - 1] == x);
                }
            }
            if names.contains(x) && !contains(x, "-part"@) {
                let k = choose|k: int| 0 <= k < names.len() && names[k] == x;
                if k < names.len() - 1 {
                    assert(dl[k] == x);
                    assert(dl.contains(x));
                    assert(wd.contains(x));
                    let m = choose|m: int| 0 <= m < wd.len() && wd[m] == x;
                    assert(w[m] == x);
                } else {
                    assert(w[w.len() - 1] == x);
                }
            }
        }
    }
}

/// The stable name is a by-id alias of the disk itself - never one of its
/// partitions - and the first of them: every other whole-disk alias comes
/// after it. There is none only when every alias names a partition.
pub proof fn law_stable_name_is_first(dev: Seq<char>, aliases: Seq<Seq<char>>)
    ensures
        match stable_name(dev, aliases) {
            Ok(p) => exists|m: Seq<char>|
                #![trigger aliases.contains(m)]
                p == "/dev/disk/by-id/"@ + m && aliases.contains(m) && !contains(m, "-part"@) && forall|x: Seq<char>|
                    #[trigger] aliases.contains(x) && !contains(x, "-part"@) ==> x == m || alias_before(m, x),
            Err(_) => forall|x: Seq<char>| #[trigger] aliases.contains(x) ==> contains(x, "-part"@),
        },
{
    lemma_whole_disk_aliases(aliases);
    let w = whole_disk_aliases(aliases);
    if w.len() == 0 {
        assert forall|x: Seq<char>| #[trigger] aliases.contains(x) implies contains(x, "-part"@) by {
            if !contains(x, "-part"@) {
                assert(w.contains(x));
            }
        }
    } else {
        law_best_alias_is_first(w);
        let m = best_alias(w);
        assert(w.contains(m));
        assert forall|x: Seq<char>| #[trigger] aliases.contains(x) && !contains(x, "-part"@) implies x == m
            || alias_before(m, x) by {
            assert(w.contains(x));
        }
    }
}

/// The stable name to write for `dev`, from the /dev/disk/by-id entries
/// that resolve to it: never a kernel name, which can point at a different
/// drive after another is added.
pub open spec fn stable_name(dev: Seq<char>, aliases: Seq<Seq<char>>) -> Result<Seq<char>, Seq<char>> {
    let whole = whole_disk_aliases(aliases);
    if whole.len() == 0 {
        Err(dev + " has no /dev/disk/by-id entry, so there is no stable name to write.\nKernel names like "@ + dev
            + " can point at a different drive after adding one."@)
    } else {
        Ok("/dev/disk/by-id/"@ + best_alias(whole))
    }
}

pub open spec fn text_result(r: Result<String, String>) -> Result<Seq<char>, Seq<char>> {
    match r {
        Ok(s) => Ok(s@),
        Err(e) => Err(e@),
    }
}

/// The by-id path to write for `dev`, given the names under
/// /dev/disk/by-id that resolve to it.
pub fn stable_device_from(dev: &str, aliases: &Vec<String>) -> (r: Result<String, String>)
    ensures
        text_result(r) == stable_name(dev@, string_views(aliases@)),
{
    let part = chars_of("-part");
    let mut whole: Vec<String> = Vec::new();
    let mut i: usize = 0;
    while i < aliases.len()
        invariant
            i <= aliases.len(),
            part@ == "-part"@,
            string_views(whole@) == whole_disk_aliases(string_views(aliases@).take(i as int)),
        decreases aliases.len() - i,
    {
        proof {
            assert(string_views(aliases@).take(i + 1).drop_last() =~= string_views(aliases@).take(i as int));
            assert(string_views(aliases@).take(i + 1).last() == aliases@[i as int]@);
        }
        let a = chars_of(aliases[i].as_str());
        let ghost before = string_views(whole@);
        if !has_sub(&a, &part) {
            whole.push(string_of(&a));
            assert(string_views(whole@) =~= before + seq![a@]);
        } else {
            assert(string_views(whole@) =~= before + seq![]);
        }
        i = i + 1;
    }
    assert(string_views(aliases@).take(aliases.len() as int) =~= string_views(aliases@));
    match preferred_alias(&whole) {
        Some(best) => {
            let mut p = chars_of("/dev/disk/by-id/");
            push_str(&mut p, best.as_str());
            Ok(string_of(&p))
        },
        None => {
            let mut e = chars_of(dev);
            push_str(&mut e, " has no /dev/disk/by-id entry, so there is no stable name to write.\nKernel names like ");
            push_str(&mut e, dev);
            push_str(&mut e, " can point at a different drive after adding one.");
            Err(string_of(&e))
        },
    }
}

// ---------------------------------------------------------------- flakes and paths

/// The text before the first `?` or `#`: a flake reference without its
/// query and fragment.
pub open spec fn before_query(s: Seq<char>) -> Seq<char>
    decreases s.len(),
{
    if s.len() == 0 {
        seq![]
    } else if s[0] == '?' || s[0] == '#' {
        seq![]
    } else {
        seq![s[0]] + before_query(s.drop_first())
    }
}

/// The text before the first `?` or `#`.
pub fn before_query_of(v: &Vec<char>) -> (r: Vec<char>)
    ensures
        r@ == before_query(v@),
{
    let mut i: usize = 0;
    assert(v@.skip(0) =~= v@);
    assert(v@.take(0) + before_query(v@) =~= before_query(v@));
    while i < v.len() && v[i] != '?' && v[i] != '#'
        invariant
            i <= v.len(),
            before_query(v@) == v@.take(i as int) + before_query(v@.skip(i as int)),
        decreases v.len() - i,
    {
        assert(v@.skip(i as int).drop_first() =~= v@.skip(i + 1));
        assert(v@.take(i + 1) =~= v@.take(i as int) + seq![v@[i as int]]);
        i = i + 1;
    }
    assert(before_query(v@.skip(i as int)) =~= seq![]) by {
        if i < v.len() {
            assert(v@.skip(i as int)[0] == v@[i as int]);
        }
    }
    let r = slice_of(v, 0, i);
    assert(r@ =~= v@.take(i as int) + seq![]);
    r
}

/// `s.trim_start_matches("git+")`.
pub open spec fn strip_git_plus(s: Seq<char>) -> Seq<char>
    decreases s.len(),
{
    if s.len() >= 4 && starts_with(s, "git+"@) {
        strip_git_plus(s.skip(4))
    } else {
        s
    }
}

fn strip_git_plus_of(v: &Vec<char>) -> (r: Vec<char>)
    ensures
        r@ == strip_git_plus(v@),
{
    let pre = chars_of("git+");
    proof {
        reveal_strlit("git+");
    }
    let mut start: usize = 0;
    assert(v@.skip(0) =~= v@);
    while v.len() - start >= 4 && matches_at(v, &pre, start)
        invariant
            start <= v.len(),
            pre@ == "git+"@,
            pre@.len() == 4,
            strip_git_plus(v@) == strip_git_plus(v@.skip(start as int)),
        decreases v.len() - start,
    {
        proof {
            let t = v@.skip(start as int);
            assert(t.subrange(0, 4) =~= v@.subrange(start as int, start + 4));
            assert(starts_with(t, "git+"@));
            assert(t.skip(4) =~= v@.skip(start + 4));
        }
        start = start + 4;
    }
    proof {
        let t = v@.skip(start as int);
        if t.len() >= 4 {
            assert(t.subrange(0, 4) =~= v@.subrange(start as int, start + 4));
        }
    }
    let r = slice_of(v, start, v.len());
    assert(r@ =~= v@.skip(start as int));
    r
}

/// Something git can clone for a flake reference, when it is one of the
/// shapes worth guessing at: `github:owner/repo[/ref]`, or an https URL.
pub open spec fn clone_url_spec(flake: Seq<char>) -> Option<Seq<char>> {
    if starts_with(flake, "github:"@) {
        let parts = split(before_query(flake.skip(7)), '/');
        if parts.len() >= 2 {
            Some("https://github.com/"@ + parts[0] + "/"@ + parts[1])
        } else {
            None
        }
    } else if starts_with(flake, "https://"@) || starts_with(flake, "git+https://"@) {
        Some(before_query(strip_git_plus(flake)))
    } else {
        None
    }
}

/// Turn a flake reference into something git can clone. The ref of a
/// `github:` reference is not part of the URL: cloning the default branch
/// is the sane reading.
pub fn clone_url(flake: &str) -> (r: Option<String>)
    ensures
        opt_string(r) == clone_url_spec(flake@),
{
    let v = chars_of(flake);
    if has_prefix(&v, &chars_of("github:")) {
        proof {
            reveal_strlit("github:");
        }
        let rest = slice_of(&v, 7, v.len());
        assert(rest@ =~= flake@.skip(7));
        let parts = split_of(&before_query_of(&rest), '/');
        if parts.len() >= 2 {
            assert(views(parts@)[0] == parts@[0]@ && views(parts@)[1] == parts@[1]@);
            let mut u = chars_of("https://github.com/");
            push_all(&mut u, &parts[0]);
            push_str(&mut u, "/");
            push_all(&mut u, &parts[1]);
            Some(string_of(&u))
        } else {
            None
        }
    } else if has_prefix(&v, &chars_of("https://")) || has_prefix(&v, &chars_of("git+https://")) {
        Some(string_of(&before_query_of(&strip_git_plus_of(&v))))
    } else {
        None
    }
}

/// Where a local flake reference points, before looking for its flake.nix:
/// `path:` stripped; anything else with a colon is fetched read-only.
pub open spec fn checkout_path(flake: Seq<char>) -> Option<Seq<char>> {
    let p = if starts_with(flake, "path:"@) {
        flake.skip(5)
    } else {
        flake
    };
    if has_char(p, ':') {
        None
    } else {
        Some(p)
    }
}

/// The directory a flake reference names, if it names one that could be
/// written into.
pub fn checkout_candidate(flake: &str) -> (r: Option<String>)
    ensures
        opt_string(r) == checkout_path(flake@),
{
    let v = chars_of(flake);
    let p = if has_prefix(&v, &chars_of("path:")) {
        proof {
            reveal_strlit("path:");
        }
        let s = slice_of(&v, 5, v.len());
        assert(s@ =~= flake@.skip(5));
        s
    } else {
        v
    };
    if has(&p, ':') {
        None
    } else {
        Some(string_of(&p))
    }
}

/// `s.trim_start_matches('/')`.
pub open spec fn strip_slashes(s: Seq<char>) -> Seq<char>
    decreases s.len(),
{
    if s.len() > 0 && s[0] == '/' {
        strip_slashes(s.drop_first())
    } else {
        s
    }
}

/// Where installer-written state for `rel` goes on the target: under
/// /mnt/persist when the target has a /persist - a path written to the
/// ephemeral root is wiped at first boot, and masked if also declared - and
/// under /mnt otherwise.
pub open spec fn target_state(rel: Seq<char>, has_persist: bool) -> Seq<char> {
    if has_persist {
        "/mnt/persist/"@ + strip_slashes(rel)
    } else {
        "/mnt/"@ + strip_slashes(rel)
    }
}

/// The target path for installer-written state; `has_persist` says whether
/// /mnt/persist is a directory.
pub fn target_state_path(rel: &str, has_persist: bool) -> (r: String)
    ensures
        r@ == target_state(rel@, has_persist),
{
    let v = chars_of(rel);
    let mut i: usize = 0;
    assert(v@.skip(0) =~= v@);
    while i < v.len() && v[i] == '/'
        invariant
            i <= v.len(),
            strip_slashes(v@) == strip_slashes(v@.skip(i as int)),
        decreases v.len() - i,
    {
        assert(v@.skip(i as int).drop_first() =~= v@.skip(i + 1));
        i = i + 1;
    }
    let rest = slice_of(&v, i, v.len());
    assert(rest@ =~= v@.skip(i as int));
    let mut p = if has_persist {
        chars_of("/mnt/persist/")
    } else {
        chars_of("/mnt/")
    };
    push_all(&mut p, &rest);
    string_of(&p)
}

// ---------------------------------------------------------------- shell

/// Each character of `s` as it stands inside a single-quoted shell word: a
/// quote closes the word, is escaped, and the word reopens.
pub open spec fn quote_body(s: Seq<char>) -> Seq<char>
    decreases s.len(),
{
    if s.len() == 0 {
        seq![]
    } else {
        quote_body(s.drop_last()) + if s.last() == '\'' {
            seq!['\'', '\\', '\'', '\'']
        } else {
            seq![s.last()]
        }
    }
}

/// `s` as one single-quoted shell word.
pub open spec fn shell_quoted(s: Seq<char>) -> Seq<char> {
    seq!['\''] + quote_body(s) + seq!['\'']
}

/// Quote `s` for a POSIX shell.
pub fn shell_quote(s: &str) -> (r: String)
    ensures
        r@ == shell_quoted(s@),
{
    let v = chars_of(s);
    let mut r: Vec<char> = Vec::new();
    r.push('\'');
    let mut i: usize = 0;
    assert(v@.take(0) =~= seq![]);
    while i < v.len()
        invariant
            i <= v.len(),
            v@ == s@,
            r@ == seq!['\''] + quote_body(v@.take(i as int)),
        decreases v.len() - i,
    {
        assert(v@.take(i + 1).drop_last() =~= v@.take(i as int));
        let ghost before = r@;
        if v[i] == '\'' {
            r.push('\'');
            r.push('\\');
            r.push('\'');
            r.push('\'');
        } else {
            r.push(v[i]);
        }
        assert(r@ =~= seq!['\''] + quote_body(v@.take(i + 1)));
        i = i + 1;
    }
    assert(v@.take(v.len() as int) =~= v@);
    r.push('\'');
    string_of(&r)
}

/// How a POSIX shell reads one word made of single-quoted runs, backslash
/// escapes and plain characters; `quoted` says whether a single-quoted run
/// is open.
pub open spec fn shell_word(t: Seq<char>, quoted: bool) -> Seq<char>
    decreases t.len(),
{
    if t.len() == 0 {
        seq![]
    } else if quoted {
        if t[0] == '\'' {
            shell_word(t.drop_first(), false)
        } else {
            seq![t[0]] + shell_word(t.drop_first(), true)
        }
    } else if t[0] == '\'' {
        shell_word(t.drop_first(), true)
    } else if t[0] == '\\' && t.len() >= 2 {
        seq![t[1]] + shell_word(t.skip(2), false)
    } else {
        seq![t[0]] + shell_word(t.drop_first(), false)
    }
}

proof fn lemma_quote_body(s: Seq<char>, rest: Seq<char>)
    ensures
        shell_word(quote_body(s) + rest, true) == s + shell_word(rest, true),
    decreases s.len(),
{
    if s.len() == 0 {
        assert(quote_body(s) + rest =~= rest);
        assert(s + shell_word(rest, true) =~= shell_word(rest, true));
    } else {
        let d = s.drop_last();
        let c = s.last();
        let piece = if c == '\'' {
            seq!['\'', '\\', '\'', '\'']
        } else {
            seq![c]
        };
        lemma_quote_body(d, piece + rest);
        assert(quote_body(s) + rest =~= quote_body(d) + (piece + rest));
        let t = piece + rest;
        if c == '\'' {
            let t1 = seq!['\\', '\'', '\''] + rest;
            let t2 = seq!['\''] + rest;
            assert(t.drop_first() =~= t1);
            assert(t1.skip(2) =~= t2);
            assert(t2.drop_first() =~= rest);
            assert(t[0] == '\'');
            assert(shell_word(t, true) == shell_word(t1, false));
            assert(t1[0] == '\\' && t1[1] == '\'' && t1.len() >= 2);
            assert(shell_word(t1, false) == seq!['\''] + shell_word(t2, false));
            assert(t2[0] == '\'');
            assert(shell_word(t2, false) == shell_word(rest, true));
            assert(shell_word(t, true) == seq!['\''] + shell_word(rest, true));
        } else {
            assert(t.drop_first() =~= rest);
            assert(shell_word(t, true) == seq![c] + shell_word(rest, true));
        }
        assert(d + (seq![c] + shell_word(rest, true)) =~= s + shell_word(rest, true));
    }
}

/// A shell reading the quoted word gets back exactly the text that was
/// quoted, whatever quotes, spaces or backslashes it holds.
pub proof fn law_shell_quote_round_trip(s: Seq<char>)
    ensures
        shell_word(shell_quoted(s), false) == s,
{
    let q = shell_quoted(s);
    assert(q.drop_first() =~= quote_body(s) + seq!['\'']);
    lemma_quote_body(s, seq!['\'']);
    assert(seq!['\''].drop_first() =~= seq![]);
    assert(shell_word(seq!['\''], true) == shell_word(seq![], false));
    assert(s + seq![] =~= s);
}

// ---------------------------------------------------------------- generated files

/// The choices half of a new machine, `hosts/<name>/default.nix`: the things
/// no probe can answer, with the flake it rebuilds from.
pub open spec fn default_nix(name: Seq<char>, flake: Seq<char>) -> Seq<char> {
    "# "@ + name + "\n#\n# Scaffolded by `kiwami install`. Everything here is a choice, not a fact -\n# edit it freely, then `nixos-rebuild switch --flake .#"@ + name
        + "`.\n#\n# hardware.nix beside this file is the facts half, detected at install time.\n# Regenerate it with `kiwami doctor` if this machine's hardware changes.\n{ ... }:\n\n{\n  imports = [\n    # Detected at install time. Do not edit; `kiwami doctor` diffs it against\n    # what this machine currently reports.\n    ./hardware.nix\n    # The layout you chose. disko formats from it and fileSystems is derived\n    # from it, so the two cannot drift apart.\n    ./disk.nix\n  ];\n\n  networking.hostName = \""@ + name
        + "\";\n\n  # Where this machine rebuilds itself from. It keeps no checkout, so without\n  # this `kiwami update` has nowhere to build and says so.\n  #\n  # It is the flake this machine was installed from, which is very likely the\n  # one you want. Point it at your own configuration repository if you keep\n  # your hosts somewhere other than where Kiwami itself lives.\n  kiwami.flake = \""@ + flake
        + "\";\n\n  # The account the desktop belongs to. greetd logs this user in and its home\n  # carries the Hyprland and Quickshell config, so a mismatch here is quiet\n  # and total: the session comes up on Hyprland's own default config with no\n  # bar, because everything was installed for a different account.\n  kiwami.user = \"kiwami\";\n\n  # The root is wiped at every boot; only what kiwami.persist declares\n  # survives. disk.nix beside this makes the subvolumes that depend on.\n  kiwami.ephemeralRoot = true;\n\n  # Log the desktop user in with no password. Off deliberately: it suits a\n  # throwaway VM and not a laptop, where it means whoever opens the lid is\n  # you. Uncomment only if you know that is what you want.\n  # kiwami.autoLogin = true;\n\n  boot.loader.systemd-boot.enable = true;\n  # Without this systemd-boot never registers an NVRAM entry and the firmware\n  # boots something else, or nothing.\n  boot.loader.efi.canTouchEfiVariables = true;\n\n  # The account itself comes from modules/common.nix, which reads\n  # kiwami.user above. The password is not set here: users are immutable, so\n  # the hash comes from kiwami.passwordFile, which activation seeds with the\n  # default and `kiwami passwd` replaces. Setting initialPassword as well is a\n  # conflict Nix only warns about, and the file wins - so the line would look\n  # like it set the password while doing nothing.\n\n  # When this machine was installed. Kiwami applies the desktop user's home\n  # configuration itself; this is the one part of it that belongs to the\n  # machine rather than to the distro.\n  home-manager.users.kiwami.home.stateVersion = \"26.05\";\n\n  system.stateVersion = \"26.05\";\n}\n"@
}

/// `hosts/<name>/default.nix` for a machine being scaffolded.
pub fn scaffold_text(name: &str, flake: &str) -> (r: String)
    ensures
        r@ == default_nix(name@, flake@),
{
    let mut t = chars_of("# ");
    push_str(&mut t, name);
    push_str(&mut t, "\n#\n# Scaffolded by `kiwami install`. Everything here is a choice, not a fact -\n# edit it freely, then `nixos-rebuild switch --flake .#");
    push_str(&mut t, name);
    push_str(&mut t, "`.\n#\n# hardware.nix beside this file is the facts half, detected at install time.\n# Regenerate it with `kiwami doctor` if this machine's hardware changes.\n{ ... }:\n\n{\n  imports = [\n    # Detected at install time. Do not edit; `kiwami doctor` diffs it against\n    # what this machine currently reports.\n    ./hardware.nix\n    # The layout you chose. disko formats from it and fileSystems is derived\n    # from it, so the two cannot drift apart.\n    ./disk.nix\n  ];\n\n  networking.hostName = \"");
    push_str(&mut t, name);
    push_str(&mut t, "\";\n\n  # Where this machine rebuilds itself from. It keeps no checkout, so without\n  # this `kiwami update` has nowhere to build and says so.\n  #\n  # It is the flake this machine was installed from, which is very likely the\n  # one you want. Point it at your own configuration repository if you keep\n  # your hosts somewhere other than where Kiwami itself lives.\n  kiwami.flake = \"");
    push_str(&mut t, flake);
    push_str(&mut t, "\";\n\n  # The account the desktop belongs to. greetd logs this user in and its home\n  # carries the Hyprland and Quickshell config, so a mismatch here is quiet\n  # and total: the session comes up on Hyprland's own default config with no\n  # bar, because everything was installed for a different account.\n  kiwami.user = \"kiwami\";\n\n  # The root is wiped at every boot; only what kiwami.persist declares\n  # survives. disk.nix beside this makes the subvolumes that depend on.\n  kiwami.ephemeralRoot = true;\n\n  # Log the desktop user in with no password. Off deliberately: it suits a\n  # throwaway VM and not a laptop, where it means whoever opens the lid is\n  # you. Uncomment only if you know that is what you want.\n  # kiwami.autoLogin = true;\n\n  boot.loader.systemd-boot.enable = true;\n  # Without this systemd-boot never registers an NVRAM entry and the firmware\n  # boots something else, or nothing.\n  boot.loader.efi.canTouchEfiVariables = true;\n\n  # The account itself comes from modules/common.nix, which reads\n  # kiwami.user above. The password is not set here: users are immutable, so\n  # the hash comes from kiwami.passwordFile, which activation seeds with the\n  # default and `kiwami passwd` replaces. Setting initialPassword as well is a\n  # conflict Nix only warns about, and the file wins - so the line would look\n  # like it set the password while doing nothing.\n\n  # When this machine was installed. Kiwami applies the desktop user's home\n  # configuration itself; this is the one part of it that belongs to the\n  # machine rather than to the distro.\n  home-manager.users.kiwami.home.stateVersion = \"26.05\";\n\n  system.stateVersion = \"26.05\";\n}\n");
    string_of(&t)
}

pub open spec fn hardware_header() -> Seq<char> {
    "# Hardware facts for this machine, detected by `kiwami install`.\n#\n# Generated with --show-hardware-config --no-filesystems, so it carries no\n# UUIDs: the mounts are derived from disk.nix and survive a reformat.\n#\n# Do not edit by hand. `kiwami doctor` compares this against what the machine\n# currently reports; regenerate with `kiwami install --regen-hardware`, or:\n#   nixos-generate-config --show-hardware-config --no-filesystems\n#\n# Choices - hostname, users, monitors - belong in default.nix beside this.\n"@
}

/// The lines after any leading comment lines.
pub open spec fn after_comments(ls: Seq<Seq<char>>) -> Seq<Seq<char>>
    decreases ls.len(),
{
    if ls.len() > 0 && starts_with(trim_start(ls[0]), "#"@) {
        after_comments(ls.drop_first())
    } else {
        ls
    }
}

/// hardware.nix from what `nixos-generate-config --show-hardware-config`
/// printed: its own header - which points at /etc/nixos/configuration.nix,
/// the one file this design does not have - replaced by one that says where
/// things live.
pub open spec fn hardware_nix(generated: Seq<char>) -> Seq<char> {
    hardware_header() + join(after_comments(lines(generated)), "\n"@) + "\n"@
}

/// hardware.nix for the detected hardware.
pub fn hardware_text(generated: &str) -> (r: String)
    ensures
        r@ == hardware_nix(generated@),
{
    let ls = lines_of(&chars_of(generated));
    let hash = chars_of("#");
    let mut i: usize = 0;
    assert(views(ls@).skip(0) =~= views(ls@));
    while i < ls.len() && has_prefix(&trim_start_of(&ls[i]), &hash)
        invariant
            i <= ls.len(),
            hash@ == "#"@,
            after_comments(views(ls@)) == after_comments(views(ls@).skip(i as int)),
        decreases ls.len() - i,
    {
        assert(views(ls@).skip(i as int)[0] == ls@[i as int]@);
        assert(views(ls@).skip(i as int).drop_first() =~= views(ls@).skip(i + 1));
        i = i + 1;
    }
    proof {
        if i < ls.len() {
            assert(views(ls@).skip(i as int)[0] == ls@[i as int]@);
        }
    }
    let mut rest: Vec<Vec<char>> = Vec::new();
    let mut k: usize = i;
    while k < ls.len()
        invariant
            i <= k <= ls.len(),
            views(rest@) == views(ls@).subrange(i as int, k as int),
        decreases ls.len() - k,
    {
        let x = copy_of(&ls[k]);
        let ghost before = views(rest@);
        assert(x@ == views(ls@)[k as int]);
        rest.push(x);
        assert(views(rest@) =~= before.push(views(ls@)[k as int]));
        assert(views(rest@) =~= views(ls@).subrange(i as int, k + 1));
        k = k + 1;
    }
    assert(views(ls@).subrange(i as int, ls.len() as int) =~= views(ls@).skip(i as int));
    let mut t = chars_of("# Hardware facts for this machine, detected by `kiwami install`.\n#\n# Generated with --show-hardware-config --no-filesystems, so it carries no\n# UUIDs: the mounts are derived from disk.nix and survive a reformat.\n#\n# Do not edit by hand. `kiwami doctor` compares this against what the machine\n# currently reports; regenerate with `kiwami install --regen-hardware`, or:\n#   nixos-generate-config --show-hardware-config --no-filesystems\n#\n# Choices - hostname, users, monitors - belong in default.nix beside this.\n");
    push_all(&mut t, &joined(&rest, &chars_of("\n")));
    push_str(&mut t, "\n");
    string_of(&t)
}

/// The placeholder hardware.nix for an architecture: enough to evaluate,
/// and nothing more. `None` for an architecture no host can be built for.
pub open spec fn placeholder_system(arch: Seq<char>) -> Option<Seq<char>> {
    if arch == "aarch64"@ {
        Some("aarch64-linux"@)
    } else if arch == "x86_64"@ {
        Some("x86_64-linux"@)
    } else {
        None
    }
}

pub open spec fn placeholder_nix(arch: Seq<char>) -> Result<Seq<char>, Seq<char>> {
    match placeholder_system(arch) {
        Some(system) => Ok(
            "# Placeholder. `kiwami install` replaces this with detected hardware\n             # once the target is mounted; if you are reading it after a finished\n             # install, that step did not run.\n             { lib, ... }:\n\n{\n  nixpkgs.hostPlatform = lib.mkDefault \""@
                + system + "\";\n}\n"@,
        ),
        None => Err("unsupported architecture: "@ + arch),
    }
}

/// The placeholder hardware.nix for `std::env::consts::ARCH`.
pub fn placeholder_hardware(arch: &str) -> (r: Result<String, String>)
    ensures
        text_result(r) == placeholder_nix(arch@),
{
    let a = chars_of(arch);
    let system = if same(&a, &chars_of("aarch64")) {
        "aarch64-linux"
    } else if same(&a, &chars_of("x86_64")) {
        "x86_64-linux"
    } else {
        let mut e = chars_of("unsupported architecture: ");
        push_str(&mut e, arch);
        return Err(string_of(&e));
    };
    let mut t = chars_of(
        "# Placeholder. `kiwami install` replaces this with detected hardware\n             # once the target is mounted; if you are reading it after a finished\n             # install, that step did not run.\n             { lib, ... }:\n\n{\n  nixpkgs.hostPlatform = lib.mkDefault \"",
    );
    push_str(&mut t, system);
    push_str(&mut t, "\";\n}\n");
    Ok(string_of(&t))
}

// ---------------------------------------------------------------- the machine

/// Whether os-release stamps the installer variant, on a line of its own.
pub open spec fn stamped_installer(ls: Seq<Seq<char>>) -> bool {
    exists|i: int| 0 <= i < ls.len() && trim(ls[i]) == "VARIANT_ID=installer"@
}

/// The filesystem type of the first mount of `/` in /proc/mounts.
pub open spec fn root_fstype(ls: Seq<Seq<char>>) -> Option<Seq<char>>
    decreases ls.len(),
{
    if ls.len() == 0 {
        None
    } else {
        let w = words(ls[0]);
        if w.len() >= 3 && w[1] == "/"@ {
            Some(w[2])
        } else {
            root_fstype(ls.drop_first())
        }
    }
}

/// Running from installer media: NixOS stamps `VARIANT_ID=installer` into
/// the images' os-release, and corroborating it, a root that is a tmpfs or
/// an overlay - installed systems boot from a real block device.
pub open spec fn installer_media(os_release: Seq<char>, mounts: Seq<char>) -> bool {
    stamped_installer(lines(os_release)) || match root_fstype(lines(mounts)) {
        Some(t) => t == "tmpfs"@ || t == "overlay"@,
        None => false,
    }
}

/// Whether this is the installer, from /etc/os-release and /proc/mounts
/// (each empty when it could not be read).
pub fn on_installer_media_from(os_release: &str, mounts: &str) -> (r: bool)
    ensures
        r == installer_media(os_release@, mounts@),
{
    let ls = lines_of(&chars_of(os_release));
    let stamp = chars_of("VARIANT_ID=installer");
    let mut stamped = false;
    let mut i: usize = 0;
    while i < ls.len()
        invariant
            i <= ls.len(),
            stamp@ == "VARIANT_ID=installer"@,
            stamped == exists|j: int| 0 <= j < i && trim(views(ls@)[j]) == "VARIANT_ID=installer"@,
        decreases ls.len() - i,
    {
        assert(views(ls@)[i as int] == ls@[i as int]@);
        if same(&trimmed(&ls[i]), &stamp) {
            stamped = true;
        }
        i = i + 1;
    }
    assert(stamped == stamped_installer(lines(os_release@))) by {
        if stamped {
            let j = choose|j: int| 0 <= j < i && trim(views(ls@)[j]) == "VARIANT_ID=installer"@;
            assert(lines(os_release@)[j] == views(ls@)[j]);
        }
        if stamped_installer(lines(os_release@)) {
            let j = choose|j: int| 0 <= j < lines(os_release@).len() && trim(lines(os_release@)[j]) == "VARIANT_ID=installer"@;
            assert(views(ls@)[j] == lines(os_release@)[j]);
        }
    }
    let ms = lines_of(&chars_of(mounts));
    let slash = chars_of("/");
    let mut k: usize = 0;
    assert(views(ms@).skip(0) =~= views(ms@));
    while k < ms.len()
        invariant
            k <= ms.len(),
            slash@ == "/"@,
            stamped == stamped_installer(lines(os_release@)),
            views(ms@) == lines(mounts@),
            root_fstype(views(ms@)) == root_fstype(views(ms@).skip(k as int)),
        decreases ms.len() - k,
    {
        let w = words_of(&ms[k]);
        assert(views(ms@).skip(k as int)[0] == ms@[k as int]@);
        if w.len() >= 3 && same(&w[1], &slash) {
            assert(views(w@)[1] == w@[1]@ && views(w@)[2] == w@[2]@);
            let t = copy_of(&w[2]);
            return stamped || same(&t, &chars_of("tmpfs")) || same(&t, &chars_of("overlay"));
        }
        assert(views(ms@).skip(k as int).drop_first() =~= views(ms@).skip(k + 1));
        k = k + 1;
    }
    assert(views(ms@).skip(k as int) =~= seq![]);
    stamped
}

/// Running as root, by /proc/self/status: the real uid on its `Uid:` line
/// is 0. Not root when there is no such line.
pub open spec fn root_uid(status: Seq<char>) -> bool {
    match first_starting(lines(status), "Uid:"@) {
        Some(l) => words(l).len() >= 2 && words(l)[1] == "0"@,
        None => false,
    }
}

/// Whether the process runs as root, from the text of /proc/self/status.
pub fn is_root_from(status: &str) -> (r: bool)
    ensures
        r == root_uid(status@),
{
    let ls = lines_of(&chars_of(status));
    match first_starting_of(&ls, "Uid:") {
        Some(l) => {
            let w = words_of(&l);
            if w.len() >= 2 {
                assert(views(w@)[1] == w@[1]@);
                same(&w[1], &chars_of("0"))
            } else {
                false
            }
        },
        None => false,
    }
}

// ---------------------------------------------------------------- targets

/// Refuse anything smaller than this: below it the install fails partway
/// through, which is worse than refusing up front.
pub const MIN_BYTES: u64 = 21474836480;

/// Why a disk will not be installed to.
pub enum Refusal {
    /// A filesystem from it is mounted right now: likely the running system.
    Mounted,
    /// Smaller than `MIN_BYTES`.
    TooSmall,
}

/// Whether the installer refuses a target, and why. Being mounted is
/// overridden by `--force`; being too small is not.
pub open spec fn refusal(d: DiskView, force: bool) -> Option<Refusal> {
    if d.in_use && !force {
        Some(Refusal::Mounted)
    } else if d.bytes < MIN_BYTES {
        Some(Refusal::TooSmall)
    } else {
        None
    }
}

/// Why this target is refused, if it is.
pub fn target_refusal(d: &Disk, force: bool) -> (r: Option<Refusal>)
    ensures
        r == refusal(d@, force),
{
    if d.in_use && !force {
        Some(Refusal::Mounted)
    } else if d.bytes < MIN_BYTES {
        Some(Refusal::TooSmall)
    } else {
        None
    }
}

/// What is said when a mounted disk is refused.
pub open spec fn mounted_refusal(path: Seq<char>) -> Seq<char> {
    path + " is mounted right now - this looks like the system you are running.\nRefusing to erase it. Pass --force if you really mean it."@
}

pub fn mounted_refusal_text(path: &str) -> (r: String)
    ensures
        r@ == mounted_refusal(path@),
{
    let mut t = chars_of(path);
    push_str(
        &mut t,
        " is mounted right now - this looks like the system you are running.\nRefusing to erase it. Pass --force if you really mean it.",
    );
    string_of(&t)
}

/// The first index of `x` in `s`, if it is there.
pub open spec fn index_of(s: Seq<Seq<char>>, x: Seq<char>) -> Option<int> {
    if s.contains(x) {
        Some(choose|i: int| 0 <= i < s.len() && s[i] == x && forall|j: int| 0 <= j < i ==> s[j] != x)
    } else {
        None
    }
}

pub proof fn lemma_index_of(s: Seq<Seq<char>>, x: Seq<char>, i: int)
    requires
        0 <= i < s.len(),
        s[i] == x,
        forall|j: int| 0 <= j < i ==> s[j] != x,
    ensures
        index_of(s, x) == Some(i),
{
    assert(s.contains(x));
    assert(exists|k: int| 0 <= k < s.len() && s[k] == x && forall|j: int| 0 <= j < k ==> s[j] != x);
    let k = choose|k: int| 0 <= k < s.len() && s[k] == x && forall|j: int| 0 <= j < k ==> s[j] != x;
    if k < i {
        assert(s[k] != x);
    } else if i < k {
        assert(s[i] != x);
    }
}

fn position(v: &Vec<Vec<char>>, x: &Vec<char>) -> (r: Option<usize>)
    ensures
        match r {
            Some(i) => index_of(views(v@), x@) == Some(i as int) && i < v@.len(),
            None => index_of(views(v@), x@) is None,
        },
{
    let mut i: usize = 0;
    while i < v.len()
        invariant
            i <= v.len(),
            forall|j: int| 0 <= j < i ==> views(v@)[j] != x@,
        decreases v.len() - i,
    {
        if same(&v[i], x) {
            proof {
                lemma_index_of(views(v@), x@, i as int);
            }
            return Some(i);
        }
        i = i + 1;
    }
    assert(!views(v@).contains(x@));
    None
}

/// The disk `--disk` names, among the disks found: its index, or why not.
pub open spec fn wanted_disk(paths: Seq<Seq<char>>, want: Seq<char>) -> Result<nat, Seq<char>> {
    let p = device_path(want);
    match index_of(paths, p) {
        Some(i) => Ok(i as nat),
        None => Err("no such disk: "@ + p),
    }
}

/// Find the disk `--disk` names among the disks found, by path.
pub fn find_wanted_disk(paths: &Vec<String>, want: &str) -> (r: Result<usize, String>)
    ensures
        match r {
            Ok(i) => wanted_disk(string_views(paths@), want@) == Ok::<nat, Seq<char>>(i as nat),
            Err(e) => wanted_disk(string_views(paths@), want@) == Err::<nat, Seq<char>>(e@),
        },
{
    let p = device_path_of(want);
    let ps = texts_of(paths);
    match position(&ps, &chars_of(p.as_str())) {
        Some(i) => Ok(i),
        None => {
            let mut e = chars_of("no such disk: ");
            push_str(&mut e, p.as_str());
            Err(string_of(&e))
        },
    }
}

/// The disks a host's disk.nix declares, found among the disks present: an
/// index for each, in order; or why not. `--disk`, when given, must be one
/// of them - the layout is what formats, not the flag.
pub open spec fn declared_targets(
    declared: Seq<Seq<char>>,
    paths: Seq<Seq<char>>,
    want: Option<Seq<char>>,
    host: Seq<char>,
) -> Result<Seq<nat>, Seq<char>> {
    if want is Some && !declared.contains(device_path(want->0)) {
        Err("--disk "@ + device_path(want->0) + " is not what "@ + host + " declares.\nIts disk.nix names: "@
            + join(declared, ", "@)
            + "\nEdit disk.nix instead - the layout is what formats, not this flag."@)
    } else {
        found_all(declared, paths, host)
    }
}

/// Each declared device's index among the disks present, or the first one
/// that is missing.
pub open spec fn found_all(declared: Seq<Seq<char>>, paths: Seq<Seq<char>>, host: Seq<char>) -> Result<Seq<nat>, Seq<char>>
    decreases declared.len(),
{
    if declared.len() == 0 {
        Ok(seq![])
    } else {
        match found_all(declared.drop_last(), paths, host) {
            Err(e) => Err(e),
            Ok(found) => match index_of(paths, declared.last()) {
                Some(i) => Ok(found.push(i as nat)),
                None => Err(declared.last() + " is declared by "@ + host + " but not present here"@),
            },
        }
    }
}

proof fn lemma_found_all_err(declared: Seq<Seq<char>>, paths: Seq<Seq<char>>, host: Seq<char>, k: int)
    requires
        0 <= k <= declared.len(),
        found_all(declared.take(k), paths, host) is Err,
    ensures
        found_all(declared, paths, host) == found_all(declared.take(k), paths, host),
    decreases declared.len(),
{
    if declared.len() == k {
        assert(declared.take(k) =~= declared);
    } else {
        assert(declared.drop_last().take(k) =~= declared.take(k));
        lemma_found_all_err(declared.drop_last(), paths, host, k);
    }
}

pub open spec fn index_views(v: Seq<usize>) -> Seq<nat> {
    Seq::new(v.len(), |i: int| v[i] as nat)
}

/// Resolve a host's declared disks against the disks present.
pub fn match_declared(
    declared: &Vec<String>,
    paths: &Vec<String>,
    want: &Option<String>,
    host: &str,
) -> (r: Result<Vec<usize>, String>)
    ensures
        match r {
            Ok(v) => declared_targets(string_views(declared@), string_views(paths@), opt_string(*want), host@)
                == Ok::<Seq<nat>, Seq<char>>(index_views(v@)),
            Err(e) => declared_targets(string_views(declared@), string_views(paths@), opt_string(*want), host@)
                == Err::<Seq<nat>, Seq<char>>(e@),
        },
{
    let ds = texts_of(declared);
    let ps = texts_of(paths);
    match want {
        Some(w) => {
            let p = device_path_of(w.as_str());
            if !listed_in(&ds, &chars_of(p.as_str())) {
                let mut e = chars_of("--disk ");
                push_str(&mut e, p.as_str());
                push_str(&mut e, " is not what ");
                push_str(&mut e, host);
                push_str(&mut e, " declares.\nIts disk.nix names: ");
                push_all(&mut e, &joined(&ds, &chars_of(", ")));
                push_str(&mut e, "\nEdit disk.nix instead - the layout is what formats, not this flag.");
                return Err(string_of(&e));
            }
        },
        None => {},
    }
    let mut found: Vec<usize> = Vec::new();
    let mut i: usize = 0;
    assert(views(ds@).take(0) =~= seq![]);
    assert(index_views(found@) =~= seq![]);
    while i < ds.len()
        invariant
            i <= ds.len(),
            views(ds@) == string_views(declared@),
            views(ps@) == string_views(paths@),
            declared_targets(string_views(declared@), string_views(paths@), opt_string(*want), host@)
                == found_all(string_views(declared@), string_views(paths@), host@),
            found_all(views(ds@).take(i as int), views(ps@), host@) == Ok::<Seq<nat>, Seq<char>>(index_views(found@)),
        decreases ds.len() - i,
    {
        proof {
            assert(views(ds@).take(i + 1).drop_last() =~= views(ds@).take(i as int));
            assert(views(ds@).take(i + 1).last() == ds@[i as int]@);
        }
        match position(&ps, &ds[i]) {
            Some(k) => {
                let ghost before = index_views(found@);
                found.push(k);
                assert(index_views(found@) =~= before.push(k as nat));
            },
            None => {
                let mut e = copy_of(&ds[i]);
                push_str(&mut e, " is declared by ");
                push_str(&mut e, host);
                push_str(&mut e, " but not present here");
                proof {
                    lemma_found_all_err(views(ds@), views(ps@), host@, i + 1);
                }
                return Err(string_of(&e));
            },
        }
        i = i + 1;
    }
    assert(views(ds@).take(ds.len() as int) =~= views(ds@));
    Ok(found)
}

// ---------------------------------------------------------------- before anything

/// The checks made before anything else: an installed system is refused
/// unless forced, and nothing proceeds without root - discovering that after
/// confirming a destructive action means failing halfway through
/// partitioning.
pub open spec fn preflight_spec(on_media: bool, force: bool, root: bool) -> Result<(), Seq<char>> {
    if !on_media && !force {
        Err("this looks like an installed NixOS system, not the installer ISO.\nRefusing to continue. Pass --force if you really mean it."@)
    } else if !root {
        Err("must run as root (try: sudo kiwami install)"@)
    } else {
        Ok(())
    }
}

pub fn preflight(on_media: bool, force: bool, root: bool) -> (r: Result<(), String>)
    ensures
        unit_view(r) == preflight_spec(on_media, force, root),
{
    if !on_media && !force {
        return Err(string_of(&chars_of(
            "this looks like an installed NixOS system, not the installer ISO.\nRefusing to continue. Pass --force if you really mean it.",
        )));
    }
    if !root {
        return Err(string_of(&chars_of("must run as root (try: sudo kiwami install)")));
    }
    Ok(())
}

/// The last chance to stop: typing the whole word, not "y".
pub open spec fn erase_confirmed(answer: Seq<char>) -> bool {
    answer == "yes"@
}

pub fn is_erase_confirmed(answer: &str) -> (r: bool)
    ensures
        r == erase_confirmed(answer@),
{
    same(&chars_of(answer), &chars_of("yes"))
}

/// The Bitwarden note to read: what was typed, or `kiwami-backup`.
pub open spec fn note_name(answer: Seq<char>) -> Seq<char> {
    if trim(answer).len() == 0 {
        "kiwami-backup"@
    } else {
        answer
    }
}

pub fn note_name_of(answer: &str) -> (r: String)
    ensures
        r@ == note_name(answer@),
{
    if trimmed(&chars_of(answer)).len() == 0 {
        string_of(&chars_of("kiwami-backup"))
    } else {
        answer.to_string()
    }
}

/// The script that reads one Bitwarden note into `dest`: unlock (or log in),
/// refuse an empty session, read the note, lock again. Both names are
/// quoted for the shell.
pub open spec fn bitwarden_script_spec(item: Seq<char>, dest: Seq<char>) -> Seq<char> {
    "set -o pipefail\ns=$(bw unlock --raw) || s=$(bw login --raw) || exit 1\n[ -n \"$s\" ] || exit 1\nbw get notes "@
        + shell_quoted(item) + " --session \"$s\" > "@ + shell_quoted(dest)
        + " || exit 1\nbw lock >/dev/null 2>&1 || true\n"@
}

pub fn bitwarden_script(item: &str, dest: &str) -> (r: String)
    ensures
        r@ == bitwarden_script_spec(item@, dest@),
{
    let mut t = chars_of(
        "set -o pipefail\ns=$(bw unlock --raw) || s=$(bw login --raw) || exit 1\n[ -n \"$s\" ] || exit 1\nbw get notes ",
    );
    push_str(&mut t, shell_quote(item).as_str());
    push_str(&mut t, " --session \"$s\" > ");
    push_str(&mut t, shell_quote(dest).as_str());
    push_str(&mut t, " || exit 1\nbw lock >/dev/null 2>&1 || true\n");
    string_of(&t)
}

/// A medium built for one machine must not quietly install that machine
/// onto another: it carries a system for `host` only if its host file names
/// it.
pub open spec fn medium_is_for(host_file: Seq<char>, host: Seq<char>) -> bool {
    trim(host_file) == host
}

pub fn medium_is_for_host(host_file: &str, host: &str) -> (r: bool)
    ensures
        r == medium_is_for(host_file@, host@),
{
    same(&trimmed(&chars_of(host_file)), &chars_of(host))
}

/// Which tailnet identity the installed machine wakes up with: the one in
/// the backup when a restore brought one back - the node your other
/// machines trust - else the installer's own login, when it has one.
pub open spec fn carry_tailnet(restored: bool, backup_has_state: bool, installer_has_state: bool) -> bool {
    !(restored && backup_has_state) && installer_has_state
}

pub fn should_carry_tailnet(restored: bool, backup_has_state: bool, installer_has_state: bool) -> (r: bool)
    ensures
        r == carry_tailnet(restored, backup_has_state, installer_has_state),
{
    !(restored && backup_has_state) && installer_has_state
}

// ---------------------------------------------------------------- ordering

pub open spec fn disk_views(s: Seq<Disk>) -> Seq<DiskView> {
    Seq::new(s.len(), |i: int| s[i]@)
}

/// Disks in order of their kernel names.
pub open spec fn by_name(s: Seq<DiskView>) -> bool {
    forall|i: int, j: int| 0 <= i < j < s.len() ==> text_le(#[trigger] s[i].name, #[trigger] s[j].name)
}

/// The disks found, ordered by name.
pub fn sort_disks(v: Vec<Disk>) -> (r: Vec<Disk>)
    ensures
        disk_views(r@).to_multiset() == disk_views(v@).to_multiset(),
        by_name(disk_views(r@)),
{
    broadcast use vstd::seq_lib::group_to_multiset_ensures;

    proof {
        crate::order::lemma_text_order_total();
    }
    let ghost ord = crate::order::text_order();
    let ghost orig = disk_views(v@);
    let mut v = v;
    let mut out: Vec<Disk> = Vec::new();
    assert(disk_views(out@) =~= seq![]);
    while v.len() > 0
        invariant
            ord == crate::order::text_order(),
            vstd::relations::total_ordering(ord),
            by_name(disk_views(out@)),
            disk_views(out@).to_multiset().add(disk_views(v@).to_multiset()) == orig.to_multiset(),
        decreases v.len(),
    {
        let ghost vs = disk_views(v@);
        let d = v.pop().unwrap();
        proof {
            assert(disk_views(v@) =~= vs.drop_last());
            assert(vs =~= vs.drop_last().push(d@));
            vstd::seq_lib::to_multiset_build(vs.drop_last(), d@);
        }
        let name = chars_of(d.name.as_str());
        let mut p: usize = 0;
        while p < out.len() && text_le_exec(&chars_of(out[p].name.as_str()), &name)
            invariant
                p <= out.len(),
                name@ == d@.name,
                forall|j: int| 0 <= j < p ==> text_le(out@[j]@.name, d@.name),
            decreases out.len() - p,
        {
            p = p + 1;
        }
        let ghost before = disk_views(out@);
        out.insert(p, d);
        proof {
            assert(disk_views(out@) =~= before.insert(p as int, d@));
            vstd::seq_lib::to_multiset_insert(before, p as int, d@);
            let s = disk_views(out@);
            assert forall|j: int, k: int| 0 <= j < k < s.len() implies text_le(#[trigger] s[j].name, #[trigger] s[k].name) by {
                assert(ord(s[j].name, s[k].name) == text_le(s[j].name, s[k].name));
                if k < p {
                    assert(s[j] == before[j] && s[k] == before[k]);
                } else if j > p {
                    assert(s[j] == before[j - 1] && s[k] == before[k - 1]);
                } else if j < p && k == p {
                    assert(s[j] == before[j]);
                } else if j < p && k > p {
                    assert(s[j] == before[j] && s[k] == before[k - 1]);
                    assert(ord(before[j].name, d@.name));
                    assert(ord(before[p as int].name, before[k - 1].name));
                    assert(!ord(before[p as int].name, d@.name));
                    assert(ord(d@.name, before[p as int].name));
                    assert(ord(d@.name, before[k - 1].name));
                    assert(ord(before[j].name, before[k - 1].name));
                } else {
                    assert(j == p);
                    assert(s[k] == before[k - 1]);
                    assert(ord(before[p as int].name, before[k - 1].name));
                    assert(!ord(before[p as int].name, d@.name));
                    assert(ord(d@.name, before[p as int].name));
                    assert(ord(d@.name, before[k - 1].name));
                }
            }
        }
    }
    assert(disk_views(v@) =~= seq![]);
    assert(disk_views(out@).to_multiset() =~= disk_views(out@).to_multiset().add(disk_views(v@).to_multiset()));
    out
}

/// Where a user's seeded password hash goes on the target: the configured
/// password directory, relative to the target's state.
pub open spec fn password_path(dir: Seq<char>, user: Seq<char>, has_persist: bool) -> Seq<char> {
    target_state(strip_slashes(dir) + "/"@ + user, has_persist)
}

pub fn password_target(dir: &str, user: &str, has_persist: bool) -> (r: String)
    ensures
        r@ == password_path(dir@, user@, has_persist),
{
    let v = chars_of(dir);
    let mut i: usize = 0;
    assert(v@.skip(0) =~= v@);
    while i < v.len() && v[i] == '/'
        invariant
            i <= v.len(),
            strip_slashes(v@) == strip_slashes(v@.skip(i as int)),
        decreases v.len() - i,
    {
        assert(v@.skip(i as int).drop_first() =~= v@.skip(i + 1));
        i = i + 1;
    }
    let mut rel = slice_of(&v, i, v.len());
    assert(rel@ =~= v@.skip(i as int));
    push_str(&mut rel, "/");
    push_str(&mut rel, user);
    target_state_path(string_of(&rel).as_str(), has_persist)
}

/// A reply of `nix eval --json` that should be a list of strings: the
/// strings, or serde_json's complaint after `prefix`.
fn string_list_or(reply: &[u8], prefix: &str) -> (r: Result<Vec<String>, String>)
    ensures
        match r {
            Ok(v) => crate::json::json_string_list(reply@) == Some(string_views(v@)),
            Err(e) => crate::json::json_string_list(reply@) is None && starts_with(e@, prefix@),
        },
{
    match crate::json::string_list(reply) {
        Ok(v) => Ok(v),
        Err(m) => {
            let mut t = chars_of(prefix);
            push_str(&mut t, m.as_str());
            assert(t@.subrange(0, prefix@.len() as int) =~= prefix@);
            Err(string_of(&t))
        },
    }
}

/// The hosts a flake can install, from nix's JSON list of their names.
pub fn flake_hosts_from(reply: &[u8]) -> (r: Result<Vec<String>, String>)
    ensures
        match r {
            Ok(v) => crate::json::json_string_list(reply@) == Some(string_views(v@)),
            Err(e) => crate::json::json_string_list(reply@) is None && starts_with(
                e@,
                "unexpected output from nix: "@,
            ),
        },
{
    string_list_or(reply, "unexpected output from nix: ")
}

/// The devices a host's disko configuration declares, from nix's JSON list.
pub fn declared_devices_from(reply: &[u8]) -> (r: Result<Vec<String>, String>)
    ensures
        match r {
            Ok(v) => crate::json::json_string_list(reply@) == Some(string_views(v@)),
            Err(e) => crate::json::json_string_list(reply@) is None && starts_with(e@, "unexpected output: "@),
        },
{
    string_list_or(reply, "unexpected output: ")
}

/// The normal users a host declares, from nix's JSON list of their names;
/// none when the reply is not such a list.
pub fn normal_users_from(reply: &[u8]) -> (r: Vec<String>)
    ensures
        match crate::json::json_string_list(reply@) {
            Some(names) => string_views(r@) == names,
            None => r@.len() == 0,
        },
{
    match crate::json::string_list(reply) {
        Ok(v) => v,
        Err(_) => Vec::new(),
    }
}

/// The boot order is left alone exactly when the entry is already first:
/// whenever it is not - missing, or anywhere after the first place - a new
/// order comes back, and it starts with the entry.
pub proof fn law_reordered_unless_first(order: Seq<Seq<char>>, entry: Seq<char>)
    ensures
        reordered(order, entry) is None <==> (order.len() > 0 && order[0] == entry),
        reordered(order, entry) matches Some(n) ==> n.len() > 0 && n[0] == entry,
{
}

/// Host names: any non-empty name made only of ASCII letters of either
/// case, digits, `-` and `_` is accepted, and a name holding anything else,
/// or no character at all, is refused.
pub proof fn law_host_names(name: Seq<char>)
    ensures
        (name.len() > 0 && forall|i: int| 0 <= i < name.len() ==> {
            let c = #[trigger] name[i];
            ('a' <= c && c <= 'z') || ('A' <= c && c <= 'Z') || ('0' <= c && c <= '9') || c == '-' || c == '_'
        }) <==> host_name_error(name) is None,
{
}

} // verus!
