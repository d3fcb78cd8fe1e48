//! `kiwami persist`: what this machine keeps across a boot, what it loses,
//! and what /persist holds that nothing asks for any more.
//!
//! On an ephemeral root only what is declared survives; the declarations
//! are bind mounts out of /persist. This module reads the declarations and
//! decides, for each entry under /persist, whether it is declared, holds a
//! declaration further down, or is an orphan. Walking the disk is left to
//! the caller.

use vstd::prelude::*;
use crate::doctor::listed;
use crate::install::opt_string;
use crate::json::{field, json_field, Json, JsonView};
use crate::text::{chars_of, copy_of, decimal, decimal_of, push_all, push_str, same, split, split_of, starts_with, string_of, string_views, views};
use crate::wallpaper::{named_pieces, path_key};

verus! {

// ---------------------------------------------------------------- paths

/// `base.join(p)` for a directory `base` written without a trailing slash:
/// an absolute `p` replaces it.
pub open spec fn joined_path(base: Seq<char>, p: Seq<char>) -> Seq<char> {
    if starts_with(p, "/"@) {
        p
    } else {
        base + "/"@ + p
    }
}

pub fn joined_path_of(base: &str, p: &str) -> (r: String)
    ensures
        r@ == joined_path(base@, p@),
{
    let v = chars_of(p);
    if crate::text::has_prefix(&v, &chars_of("/")) {
        string_of(&v)
    } else {
        let mut t = chars_of(base);
        push_str(&mut t, "/");
        push_all(&mut t, &v);
        string_of(&t)
    }
}

/// `Path::starts_with`: `base`'s components are a prefix of `p`'s.
pub open spec fn path_within(p: Seq<char>, base: Seq<char>) -> bool {
    let (pr, pd, pn) = path_key(p);
    let (br, bd, bn) = path_key(base);
    pr == br && pd == bd && bn.len() <= pn.len() && pn.take(bn.len() as int) == bn
}

fn key_of(p: &str) -> (r: (bool, bool, Vec<Vec<char>>))
    ensures
        (r.0, r.1, views(r.2@)) == path_key(p@),
{
    let v = chars_of(p);
    let rooted = crate::text::has_prefix(&v, &chars_of("/"));
    let parts = split_of(&v, '/');
    proof {
        crate::text::lemma_split_nonempty(v@, '/');
    }
    assert(views(parts@)[0] == parts@[0]@);
    let dot = !rooted && same(&parts[0], &chars_of("."));
    (rooted, dot, named_pieces_of(&parts))
}

fn named_pieces_of(parts: &Vec<Vec<char>>) -> (r: Vec<Vec<char>>)
    ensures
        views(r@) == named_pieces(views(parts@)),
{
    let dot = chars_of(".");
    let mut r: Vec<Vec<char>> = Vec::new();
    let mut i: usize = 0;
    while i < parts.len()
        invariant
            i <= parts.len(),
            dot@ == "."@,
            views(r@) == named_pieces(views(parts@).take(i as int)),
        decreases parts.len() - i,
    {
        proof {
            assert(views(parts@).take(i + 1).drop_last() =~= views(parts@).take(i as int));
            assert(views(parts@).take(i + 1).last() == parts@[i as int]@);
        }
        let ghost before = views(r@);
        if !(parts[i].len() == 0 || same(&parts[i], &dot)) {
            let x = copy_of(&parts[i]);
            r.push(x);
            assert(views(r@) =~= before + seq![x@]);
        } else {
            assert(views(r@) =~= before + seq![]);
        }
        i = i + 1;
    }
    assert(views(parts@).take(parts.len() as int) =~= views(parts@));
    r
}

fn prefix_of(b: &Vec<Vec<char>>, p: &Vec<Vec<char>>) -> (r: bool)
    ensures
        r == (views(b@).len() <= views(p@).len() && views(p@).take(views(b@).len() as int) == views(b@)),
{
    if b.len() > p.len() {
        return false;
    }
    let mut i: usize = 0;
    while i < b.len()
        invariant
            i <= b.len() <= p.len(),
            forall|j: int| 0 <= j < i ==> views(p@)[j] == views(b@)[j],
        decreases b.len() - i,
    {
        if !same(&b[i], &p[i]) {
            assert(views(p@).take(views(b@).len() as int)[i as int] != views(b@)[i as int]);
            return false;
        }
        i = i + 1;
    }
    assert(views(p@).take(views(b@).len() as int) =~= views(b@));
    true
}

/// Whether `p` is `base` or lies inside it, component by component.
pub fn path_starts_with(p: &str, base: &str) -> (r: bool)
    ensures
        r == path_within(p@, base@),
{
    let pk = key_of(p);
    let bk = key_of(base);
    pk.0 == bk.0 && pk.1 == bk.1 && prefix_of(&bk.2, &pk.2)
}

// ---------------------------------------------------------------- declared

/// The paths persist.json declares, as they appear on the root: its
/// directories and files, then - when it names a user - that user's
/// directories and files under /home/<user>.
pub open spec fn declared_spec(
    directories: JsonView,
    files: JsonView,
    user: JsonView,
    user_dirs: JsonView,
    user_files: JsonView,
) -> Seq<Seq<char>> {
    let u = match user {
        JsonView::Text(s) => s,
        _ => seq![],
    };
    let home = "/home/"@ + u;
    listed(directories) + listed(files) + if u.len() > 0 {
        Seq::new(listed(user_dirs).len(), |i: int| joined_path(home, listed(user_dirs)[i])) + Seq::new(
            listed(user_files).len(),
            |i: int| joined_path(home, listed(user_files)[i]),
        )
    } else {
        seq![]
    }
}

fn listed_strings(j: Json) -> (r: Vec<String>)
    ensures
        string_views(r@) == listed(j@),
{
    match j {
        Json::List(items) => {
            let mut out: Vec<String> = Vec::new();
            let mut i: usize = 0;
            assert(crate::json::opt_views(items@).take(0) =~= seq![]);
            assert(string_views(out@) =~= seq![]);
            while i < items.len()
                invariant
                    i <= items.len(),
                    string_views(out@) == crate::doctor::somes(crate::json::opt_views(items@).take(i as int)),
                decreases items.len() - i,
            {
                assert(crate::json::opt_views(items@).take(i + 1).drop_last() =~= crate::json::opt_views(
                    items@,
                ).take(i as int));
                let ghost before = string_views(out@);
                match &items[i] {
                    Some(x) => {
                        let c = string_of(&chars_of(x.as_str()));
                        out.push(c);
                        assert(string_views(out@) =~= before.push(x@));
                    },
                    None => {},
                }
                i = i + 1;
            }
            assert(crate::json::opt_views(items@).take(items.len() as int) =~= crate::json::opt_views(items@));
            out
        },
        _ => {
            let out: Vec<String> = Vec::new();
            assert(string_views(out@) =~= seq![]);
            out
        },
    }
}

fn append_joined(out: &mut Vec<String>, home: &str, items: &Vec<String>)
    ensures
        string_views(final(out)@) == string_views(old(out)@) + Seq::new(
            string_views(items@).len(),
            |i: int| joined_path(home@, string_views(items@)[i]),
        ),
{
    let ghost start = string_views(out@);
    let mut i: usize = 0;
    while i < items.len()
        invariant
            i <= items.len(),
            string_views(out@) == start + Seq::new(i as nat, |k: int| joined_path(home@, string_views(items@)[k])),
        decreases items.len() - i,
    {
        let p = joined_path_of(home, items[i].as_str());
        let ghost before = string_views(out@);
        out.push(p);
        assert(string_views(out@) =~= before.push(joined_path(home@, string_views(items@)[i as int])));
        assert(string_views(out@) =~= start + Seq::new((i + 1) as nat, |k: int| joined_path(home@, string_views(items@)[k])));
        i = i + 1;
    }
}

/// The declared paths, from what serde_json found under persist.json's
/// keys; `None` when the text was not JSON.
pub fn declared_paths_from(directories: Json, files: Json, user: Json, user_dirs: Json, user_files: Json) -> (r: Option<Vec<String>>)
    ensures
        match r {
            None => directories@ is Invalid,
            Some(v) => !(directories@ is Invalid) && string_views(v@) == declared_spec(
                directories@,
                files@,
                user@,
                user_dirs@,
                user_files@,
            ),
        },
{
    let ghost (dv, fv, uv, udv, ufv) = (directories@, files@, user@, user_dirs@, user_files@);
    let dirs = directories;
    if let Json::Invalid(_) = dirs {
        return None;
    }
    let mut out = listed_strings(dirs);
    let files = listed_strings(files);
    let ghost before = string_views(out@);
    let mut i: usize = 0;
    while i < files.len()
        invariant
            i <= files.len(),
            string_views(out@) == before + string_views(files@).take(i as int),
        decreases files.len() - i,
    {
        let c = string_of(&chars_of(files[i].as_str()));
        let ghost mid = string_views(out@);
        assert(c@ == string_views(files@)[i as int]);
        out.push(c);
        assert(string_views(out@) =~= mid.push(string_views(files@)[i as int]));
        assert(string_views(files@).take(i + 1) =~= string_views(files@).take(i as int).push(string_views(files@)[i as int]));
        assert(string_views(out@) =~= before + string_views(files@).take(i + 1));
        i = i + 1;
    }
    assert(string_views(files@).take(files.len() as int) =~= string_views(files@));
    let user = match user {
        Json::Text(s) => s,
        _ => string_of(&Vec::new()),
    };
    let ghost base = string_views(out@);
    if chars_of(user.as_str()).len() > 0 {
        let mut home = chars_of("/home/");
        push_str(&mut home, user.as_str());
        let h = string_of(&home);
        let ud = listed_strings(user_dirs);
        let uf = listed_strings(user_files);
        append_joined(&mut out, h.as_str(), &ud);
        append_joined(&mut out, h.as_str(), &uf);
        assert(string_views(out@) =~= declared_spec(dv, fv, uv, udv, ufv));
    } else {
        assert(string_views(out@) =~= base + seq![]);
    }
    Some(out)
}

/// The declared paths, from the text of persist.json; `None` when the text
/// is not JSON.
pub fn declared_paths(raw: &str) -> (r: Option<Vec<String>>)
    ensures
        match r {
            None => json_field(raw@, "directories"@) is Invalid,
            Some(v) => !(json_field(raw@, "directories"@) is Invalid) && string_views(v@) == declared_spec(
                json_field(raw@, "directories"@),
                json_field(raw@, "files"@),
                json_field(raw@, "user"@),
                json_field(raw@, "userDirectories"@),
                json_field(raw@, "userFiles"@),
            ),
        },
{
    declared_paths_from(
        field(raw, "directories"),
        field(raw, "files"),
        field(raw, "user"),
        field(raw, "userDirectories"),
        field(raw, "userFiles"),
    )
}

// ---------------------------------------------------------------- orphans

/// What an entry under /persist is, against the declarations.
pub enum Standing {
    /// Declared, or inside something declared.
    Kept,
    /// Undeclared itself, but holding a declared path further down: to be
    /// descended into rather than reported.
    Holds,
    /// Declared by nothing: it survives every boot and is in every backup,
    /// and nothing reads it.
    Orphan,
    /// Not under /persist at all.
    Outside,
}

/// The path an entry under /persist stands for on the root, which is what a
/// declaration names: /persist/home/x/.ssh is a declaration of /home/x/.ssh.
pub open spec fn root_key(entry: Seq<char>) -> (bool, bool, Seq<Seq<char>>) {
    (true, false, path_key(entry).2.skip(path_key("/persist"@).2.len() as int))
}

/// `a`'s components start with `b`'s.
pub open spec fn key_within(a: (bool, bool, Seq<Seq<char>>), b: (bool, bool, Seq<Seq<char>>)) -> bool {
    a.0 == b.0 && a.1 == b.1 && b.2.len() <= a.2.len() && a.2.take(b.2.len() as int) == b.2
}

pub open spec fn standing_spec(entry: Seq<char>, declared: Seq<Seq<char>>) -> Standing {
    if !path_within(entry, "/persist"@) {
        Standing::Outside
    } else if exists|i: int| 0 <= i < declared.len() && key_within(root_key(entry), path_key(declared[i])) {
        Standing::Kept
    } else if exists|i: int| 0 <= i < declared.len() && key_within(path_key(declared[i]), root_key(entry)) {
        Standing::Holds
    } else {
        Standing::Orphan
    }
}

/// Where an entry under /persist stands against the declarations.
pub fn standing(entry: &str, declared: &Vec<String>) -> (r: Standing)
    ensures
        r == standing_spec(entry@, string_views(declared@)),
{
    if !path_starts_with(entry, "/persist") {
        return Standing::Outside;
    }
    let ek = key_of(entry);
    let pk = key_of("/persist");
    let rest = slice_vecs(&ek.2, pk.2.len());
    let mut i: usize = 0;
    while i < declared.len()
        invariant
            i <= declared.len(),
            views(rest@) == root_key(entry@).2,
            path_within(entry@, "/persist"@),
            forall|j: int| 0 <= j < i ==> !key_within(root_key(entry@), path_key(string_views(declared@)[j])),
        decreases declared.len() - i,
    {
        let dk = key_of(declared[i].as_str());
        assert(string_views(declared@)[i as int] == declared@[i as int]@);
        if dk.0 && !dk.1 && prefix_of(&dk.2, &rest) {
            return Standing::Kept;
        }
        i = i + 1;
    }
    let mut k: usize = 0;
    while k < declared.len()
        invariant
            k <= declared.len(),
            views(rest@) == root_key(entry@).2,
            path_within(entry@, "/persist"@),
            forall|j: int| 0 <= j < declared.len() ==> !key_within(root_key(entry@), path_key(string_views(declared@)[j])),
            forall|j: int| 0 <= j < k ==> !key_within(path_key(string_views(declared@)[j]), root_key(entry@)),
        decreases declared.len() - k,
    {
        let dk = key_of(declared[k].as_str());
        assert(string_views(declared@)[k as int] == declared@[k as int]@);
        if dk.0 && !dk.1 && prefix_of(&rest, &dk.2) {
            return Standing::Holds;
        }
        k = k + 1;
    }
    Standing::Orphan
}

fn slice_vecs(v: &Vec<Vec<char>>, from: usize) -> (r: Vec<Vec<char>>)
    requires
        from <= v.len(),
    ensures
        views(r@) == views(v@).skip(from as int),
{
    let mut r: Vec<Vec<char>> = Vec::new();
    let mut i = from;
    while i < v.len()
        invariant
            from <= i <= v.len(),
            views(r@) == views(v@).subrange(from as int, i as int),
        decreases v.len() - i,
    {
        let x = copy_of(&v[i]);
        let ghost before = views(r@);
        assert(x@ == views(v@)[i as int]);
        r.push(x);
        assert(views(r@) =~= before.push(views(v@)[i as int]));
        assert(views(r@) =~= views(v@).subrange(from as int, i + 1));
        i = i + 1;
    }
    assert(views(v@).subrange(from as int, v.len() as int) =~= views(v@).skip(from as int));
    r
}

// ---------------------------------------------------------------- lost

/// The hint that follows a listing of what a boot destroys: one level
/// deeper, under the same path, up to depth 8.
pub open spec fn deeper_hint(depth: nat, under: Option<Seq<char>>) -> Option<Seq<char>> {
    if depth < 8 {
        Some("Deeper:  kiwami persist lost --depth "@ + decimal(depth + 1) + match under {
            Some(u) => " --under "@ + u,
            None => seq![],
        })
    } else {
        None
    }
}

pub fn deeper_hint_of(depth: u64, under: &Option<String>) -> (r: Option<String>)
    ensures
        opt_string(r) == deeper_hint(depth as nat, opt_string(*under)),
{
    if depth >= 8 {
        return None;
    }
    let mut t = chars_of("Deeper:  kiwami persist lost --depth ");
    push_all(&mut t, &decimal_of(depth + 1));
    match under {
        Some(u) => {
            push_str(&mut t, " --under ");
            push_str(&mut t, u.as_str());
        },
        None => {},
    }
    Some(string_of(&t))
}

// ---------------------------------------------------------------- ordering

pub open spec fn sized_views(v: Seq<(String, u64)>) -> Seq<(Seq<char>, nat)> {
    Seq::new(v.len(), |i: int| (v[i].0@, v[i].1 as nat))
}

/// Orphans are listed largest first, and by path among equal sizes.
pub open spec fn orphan_before(a: (Seq<char>, nat), b: (Seq<char>, nat)) -> bool {
    a.1 > b.1 || (a.1 == b.1 && crate::order::text_le(a.0, b.0))
}

pub open spec fn largest_first(s: Seq<(Seq<char>, nat)>) -> bool {
    forall|i: int, j: int| 0 <= i < j < s.len() ==> orphan_before(#[trigger] s[i], #[trigger] s[j])
}

/// The orphans found, largest first.
pub fn sort_orphans(v: Vec<(String, u64)>) -> (r: Vec<(String, u64)>)
    ensures
        sized_views(r@).to_multiset() == sized_views(v@).to_multiset(),
        largest_first(sized_views(r@)),
{
    broadcast use vstd::seq_lib::group_to_multiset_ensures;

    proof {
        crate::order::lemma_text_order_total();
    }
    let ghost ord = crate::order::text_order();
    let ghost orig = sized_views(v@);
    let mut v = v;
    let mut out: Vec<(String, u64)> = Vec::new();
    assert(sized_views(out@) =~= seq![]);
    while v.len() > 0
        invariant
            ord == crate::order::text_order(),
            vstd::relations::total_ordering(ord),
            largest_first(sized_views(out@)),
            sized_views(out@).to_multiset().add(sized_views(v@).to_multiset()) == orig.to_multiset(),
        decreases v.len(),
    {
        let ghost vs = sized_views(v@);
        let d = v.pop().unwrap();
        let ghost dv = (d.0@, d.1 as nat);
        proof {
            assert(sized_views(v@) =~= vs.drop_last());
            assert(vs =~= vs.drop_last().push(dv));
            vstd::seq_lib::to_multiset_build(vs.drop_last(), dv);
        }
        let name = chars_of(d.0.as_str());
        let mut p: usize = 0;
        while p < out.len() && (out[p].1 > d.1 || (out[p].1 == d.1 && crate::order::text_le_exec(
            &chars_of(out[p].0.as_str()),
            &name,
        )))
            invariant
                p <= out.len(),
                name@ == dv.0,
                dv.1 == d.1,
                forall|j: int| 0 <= j < p ==> orphan_before(sized_views(out@)[j], dv),
            decreases out.len() - p,
        {
            assert(sized_views(out@)[p as int] == (out@[p as int].0@, out@[p as int].1 as nat));
            p = p + 1;
        }
        proof {
            if p < out.len() {
                assert(sized_views(out@)[p as int] == (out@[p as int].0@, out@[p as int].1 as nat));
            }
        }
        let ghost before = sized_views(out@);
        out.insert(p, d);
        proof {
            assert(sized_views(out@) =~= before.insert(p as int, dv));
            vstd::seq_lib::to_multiset_insert(before, p as int, dv);
            let s = sized_views(out@);
            assert forall|j: int, k: int| 0 <= j < k < s.len() implies orphan_before(#[trigger] s[j], #[trigger] s[k]) by {
                if k < p {
                    assert(s[j] == before[j] && s[k] == before[k]);
                } else if j > p {
                    assert(s[j] == before[j - 1] && s[k] == before[k - 1]);
                } else if j < p && k == p {
                    assert(s[j] == before[j]);
                } else if j < p && k > p {
                    assert(s[j] == before[j] && s[k] == before[k - 1]);
                    assert(orphan_before(before[j], dv));
                    assert(orphan_before(before[p as int], before[k - 1])) by {
                        if k - 1 == p {
                            assert(ord(before[p as int].0, before[p as int].0));
                        }
                    }
                    assert(!orphan_before(before[p as int], dv));
                    assert(ord(before[j].0, dv.0) == crate::order::text_le(before[j].0, dv.0));
                    assert(ord(before[p as int].0, dv.0) == crate::order::text_le(before[p as int].0, dv.0));
                    assert(ord(dv.0, before[p as int].0) == crate::order::text_le(dv.0, before[p as int].0));
                    assert(ord(before[p as int].0, before[k - 1].0) == crate::order::text_le(before[p as int].0, before[k - 1].0));
                    assert(ord(dv.0, before[k - 1].0) == crate::order::text_le(dv.0, before[k - 1].0));
                    assert(ord(before[j].0, before[k - 1].0) == crate::order::text_le(before[j].0, before[k - 1].0));
                } else {
                    assert(j == p);
                    assert(s[k] == before[k - 1]);
                    assert(orphan_before(before[p as int], before[k - 1])) by {
                        if k - 1 == p {
                            assert(ord(before[p as int].0, before[p as int].0));
                        }
                    }
                    assert(!orphan_before(before[p as int], dv));
                    assert(ord(before[p as int].0, dv.0) == crate::order::text_le(before[p as int].0, dv.0));
                    assert(ord(dv.0, before[p as int].0) == crate::order::text_le(dv.0, before[p as int].0));
                    assert(ord(before[p as int].0, before[k - 1].0) == crate::order::text_le(before[p as int].0, before[k - 1].0));
                    assert(ord(dv.0, before[k - 1].0) == crate::order::text_le(dv.0, before[k - 1].0));
                }
            }
        }
    }
    assert(sized_views(v@) =~= seq![]);
    assert(sized_views(out@).to_multiset() =~= sized_views(out@).to_multiset().add(sized_views(v@).to_multiset()));
    out
}

/// A component as `Path` orders them: the root first, then `.`, then `..`,
/// then names, by their text.
pub open spec fn component(name: Seq<char>) -> (nat, Seq<char>) {
    if name == ".."@ {
        (2, seq![])
    } else {
        (3, name)
    }
}

/// The components of a path, as `Path::components` yields them.
pub open spec fn components(p: Seq<char>) -> Seq<(nat, Seq<char>)> {
    let k = path_key(p);
    (if k.0 {
        seq![(0nat, Seq::<char>::empty())]
    } else {
        seq![]
    }) + (if k.1 {
        seq![(1nat, Seq::<char>::empty())]
    } else {
        seq![]
    }) + Seq::new(k.2.len(), |i: int| component(k.2[i]))
}

pub open spec fn component_le(a: (nat, Seq<char>), b: (nat, Seq<char>)) -> bool {
    a.0 < b.0 || (a.0 == b.0 && crate::order::text_le(a.1, b.1))
}

/// Component sequences in lexicographic order.
pub open spec fn components_le(a: Seq<(nat, Seq<char>)>, b: Seq<(nat, Seq<char>)>) -> bool
    decreases a.len(),
{
    if a.len() == 0 {
        true
    } else if b.len() == 0 {
        false
    } else if a[0] != b[0] {
        component_le(a[0], b[0])
    } else {
        components_le(a.drop_first(), b.drop_first())
    }
}

/// `Path`'s order: component by component.
pub open spec fn path_le(a: Seq<char>, b: Seq<char>) -> bool {
    components_le(components(a), components(b))
}

proof fn lemma_text_le_facts(x: Seq<char>, y: Seq<char>, z: Seq<char>)
    ensures
        crate::order::text_le(x, x),
        crate::order::text_le(x, y) && crate::order::text_le(y, x) ==> x == y,
        crate::order::text_le(x, y) && crate::order::text_le(y, z) ==> crate::order::text_le(x, z),
        crate::order::text_le(x, y) || crate::order::text_le(y, x),
{
    crate::order::lemma_text_order_total();
    let r = crate::order::text_order();
    assert(r(x, x) == crate::order::text_le(x, x));
    assert(r(x, y) == crate::order::text_le(x, y));
    assert(r(y, x) == crate::order::text_le(y, x));
    assert(r(y, z) == crate::order::text_le(y, z));
    assert(r(x, z) == crate::order::text_le(x, z));
}

proof fn lemma_component_facts(x: (nat, Seq<char>), y: (nat, Seq<char>), z: (nat, Seq<char>))
    ensures
        component_le(x, x),
        component_le(x, y) && component_le(y, x) ==> x == y,
        component_le(x, y) && component_le(y, z) ==> component_le(x, z),
        component_le(x, y) || component_le(y, x),
{
    lemma_text_le_facts(x.1, y.1, z.1);
}

proof fn lemma_components_reflexive(a: Seq<(nat, Seq<char>)>)
    ensures
        components_le(a, a),
    decreases a.len(),
{
    if a.len() > 0 {
        lemma_components_reflexive(a.drop_first());
    }
}

proof fn lemma_components_total(a: Seq<(nat, Seq<char>)>, b: Seq<(nat, Seq<char>)>)
    ensures
        components_le(a, b) || components_le(b, a),
    decreases a.len(),
{
    if a.len() > 0 && b.len() > 0 {
        if a[0] != b[0] {
            lemma_component_facts(a[0], b[0], b[0]);
        } else {
            lemma_components_total(a.drop_first(), b.drop_first());
        }
    }
}

proof fn lemma_components_transitive(a: Seq<(nat, Seq<char>)>, b: Seq<(nat, Seq<char>)>, c: Seq<(nat, Seq<char>)>)
    requires
        components_le(a, b),
        components_le(b, c),
    ensures
        components_le(a, c),
    decreases a.len(),
{
    if a.len() > 0 {
        assert(b.len() > 0);
        assert(c.len() > 0);
        lemma_component_facts(a[0], b[0], c[0]);
        lemma_component_facts(a[0], c[0], b[0]);
        if a[0] == b[0] && b[0] == c[0] {
            lemma_components_transitive(a.drop_first(), b.drop_first(), c.drop_first());
        }
    }
}

/// The orders `sort_paths` relies on: `path_le` is total and transitive.
pub proof fn lemma_path_le(a: Seq<char>, b: Seq<char>, c: Seq<char>)
    ensures
        path_le(a, a),
        path_le(a, b) || path_le(b, a),
        path_le(a, b) && path_le(b, c) ==> path_le(a, c),
{
    lemma_components_reflexive(components(a));
    lemma_components_total(components(a), components(b));
    if path_le(a, b) && path_le(b, c) {
        lemma_components_transitive(components(a), components(b), components(c));
    }
}

fn components_of(p: &str) -> (r: Vec<(u64, Vec<char>)>)
    ensures
        Seq::new(r@.len(), |i: int| (r@[i].0 as nat, r@[i].1@)) == components(p@),
{
    let k = key_of(p);
    let mut r: Vec<(u64, Vec<char>)> = Vec::new();
    if k.0 {
        r.push((0, Vec::new()));
    }
    if k.1 {
        r.push((1, Vec::new()));
    }
    let ghost head = Seq::new(r@.len(), |i: int| (r@[i].0 as nat, r@[i].1@));
    assert(head =~= (if k.0 {
        seq![(0nat, Seq::<char>::empty())]
    } else {
        seq![]
    }) + (if k.1 {
        seq![(1nat, Seq::<char>::empty())]
    } else {
        seq![]
    }));
    let dots = chars_of("..");
    let mut i: usize = 0;
    while i < k.2.len()
        invariant
            i <= k.2.len(),
            dots@ == ".."@,
            head.len() <= r@.len(),
            Seq::new(r@.len(), |j: int| (r@[j].0 as nat, r@[j].1@)) == head + Seq::new(
                i as nat,
                |j: int| component(views(k.2@)[j]),
            ),
        decreases k.2.len() - i,
    {
        let ghost before = Seq::new(r@.len(), |j: int| (r@[j].0 as nat, r@[j].1@));
        let c = if same(&k.2[i], &dots) {
            (2u64, Vec::new())
        } else {
            (3u64, copy_of(&k.2[i]))
        };
        assert((c.0 as nat, c.1@) == component(views(k.2@)[i as int]));
        r.push(c);
        assert(Seq::new(r@.len(), |j: int| (r@[j].0 as nat, r@[j].1@)) =~= before.push(component(views(k.2@)[i as int])));
        assert(Seq::new(r@.len(), |j: int| (r@[j].0 as nat, r@[j].1@)) =~= head + Seq::new(
            (i + 1) as nat,
            |j: int| component(views(k.2@)[j]),
        ));
        i = i + 1;
    }
    r
}

fn components_le_of(a: &Vec<(u64, Vec<char>)>, b: &Vec<(u64, Vec<char>)>) -> (r: bool)
    ensures
        r == components_le(
            Seq::new(a@.len(), |i: int| (a@[i].0 as nat, a@[i].1@)),
            Seq::new(b@.len(), |i: int| (b@[i].0 as nat, b@[i].1@)),
        ),
{
    let ghost sa = Seq::new(a@.len(), |i: int| (a@[i].0 as nat, a@[i].1@));
    let ghost sb = Seq::new(b@.len(), |i: int| (b@[i].0 as nat, b@[i].1@));
    let mut i: usize = 0;
    assert(sa.skip(0) =~= sa && sb.skip(0) =~= sb);
    while i < a.len() && i < b.len() && a[i].0 == b[i].0 && same(&a[i].1, &b[i].1)
        invariant
            i <= a.len(),
            i <= b.len(),
            sa == Seq::new(a@.len(), |j: int| (a@[j].0 as nat, a@[j].1@)),
            sb == Seq::new(b@.len(), |j: int| (b@[j].0 as nat, b@[j].1@)),
            components_le(sa, sb) == components_le(sa.skip(i as int), sb.skip(i as int)),
        decreases a.len() - i,
    {
        assert(sa.skip(i as int)[0] == sb.skip(i as int)[0]);
        assert(sa.skip(i as int).drop_first() =~= sa.skip(i + 1));
        assert(sb.skip(i as int).drop_first() =~= sb.skip(i + 1));
        i = i + 1;
    }
    if i == a.len() {
        return true;
    }
    if i == b.len() {
        return false;
    }
    assert(sa.skip(i as int)[0] == sa[i as int]);
    assert(sb.skip(i as int)[0] == sb[i as int]);
    assert(sa[i as int] != sb[i as int]);
    if a[i].0 != b[i].0 {
        a[i].0 < b[i].0
    } else {
        crate::order::text_le_exec(&a[i].1, &b[i].1)
    }
}

fn path_le_of(a: &str, b: &str) -> (r: bool)
    ensures
        r == path_le(a@, b@),
{
    components_le_of(&components_of(a), &components_of(b))
}

/// Paths in `Path`'s order.
pub open spec fn path_sorted(s: Seq<Seq<char>>) -> bool {
    forall|i: int, j: int| 0 <= i < j < s.len() ==> path_le(#[trigger] s[i], #[trigger] s[j])
}

/// The declared paths in the order `Vec<PathBuf>::sort` gives them.
pub fn sort_paths(v: &Vec<String>) -> (r: Vec<String>)
    ensures
        string_views(r@).to_multiset() == string_views(v@).to_multiset(),
        path_sorted(string_views(r@)),
{
    broadcast use vstd::seq_lib::group_to_multiset_ensures;

    let mut out: Vec<String> = Vec::new();
    let mut i: usize = 0;
    assert(string_views(v@).take(0) =~= seq![]);
    assert(string_views(out@) =~= seq![]);
    while i < v.len()
        invariant
            i <= v.len(),
            path_sorted(string_views(out@)),
            string_views(out@).to_multiset() == string_views(v@).take(i as int).to_multiset(),
        decreases v.len() - i,
    {
        let x = string_of(&chars_of(v[i].as_str()));
        let mut p: usize = 0;
        while p < out.len() && path_le_of(out[p].as_str(), x.as_str())
            invariant
                p <= out.len(),
                forall|j: int| 0 <= j < p ==> path_le(string_views(out@)[j], x@),
            decreases out.len() - p,
        {
            assert(string_views(out@)[p as int] == out@[p as int]@);
            p = p + 1;
        }
        proof {
            if p < out.len() {
                assert(string_views(out@)[p as int] == out@[p as int]@);
            }
        }
        let ghost before = string_views(out@);
        let ghost xv = x@;
        out.insert(p, x);
        proof {
            assert(string_views(out@) =~= before.insert(p as int, xv));
            assert(string_views(v@).take(i + 1) =~= string_views(v@).take(i as int).push(xv));
            vstd::seq_lib::to_multiset_insert(before, p as int, xv);
            vstd::seq_lib::to_multiset_build(string_views(v@).take(i as int), xv);
            let s = string_views(out@);
            assert forall|j: int, k: int| 0 <= j < k < s.len() implies path_le(#[trigger] s[j], #[trigger] s[k]) by {
                if k < p {
                    assert(s[j] == before[j] && s[k] == before[k]);
                } else if j > p {
                    assert(s[j] == before[j - 1] && s[k] == before[k - 1]);
                } else if j < p && k == p {
                    assert(s[j] == before[j]);
                } else if j < p && k > p {
                    assert(s[j] == before[j] && s[k] == before[k - 1]);
                    lemma_path_le(before[p as int], xv, before[k - 1]);
                    lemma_path_le(xv, before[p as int], before[k - 1]);
                    lemma_path_le(before[j], xv, before[k - 1]);
                    lemma_path_le(before[p as int], before[p as int], before[k - 1]);
                } else {
                    assert(j == p);
                    assert(s[k] == before[k - 1]);
                    lemma_path_le(before[p as int], xv, before[k - 1]);
                    lemma_path_le(xv, before[p as int], before[k - 1]);
                }
            }
        }
        i = i + 1;
    }
    assert(string_views(v@).take(v.len() as int) =~= string_views(v@));
    out
}

// ---------------------------------------------------------------- laws

proof fn lemma_split_append(a: Seq<char>, b: Seq<char>, c: char)
    ensures
        split(a + seq![c] + b, c) == split(a, c) + split(b, c),
    decreases a.len(),
{
    let x = a + seq![c] + b;
    crate::text::lemma_find_char(a, c);
    let i = crate::text::find_char(a, c);
    if i >= a.len() {
        assert forall|j: int| 0 <= j < a.len() implies x[j] != c by {
            assert(x[j] == a[j]);
        }
        assert(x[a.len() as int] == c);
        crate::text::lemma_find_char_is(x, c, a.len() as int);
        assert(x.subrange(0, a.len() as int) =~= a);
        assert(x.subrange(a.len() as int + 1, x.len() as int) =~= b);
        assert(split(x, c) =~= seq![a] + split(b, c));
    } else {
        let a2 = a.subrange(i + 1, a.len() as int);
        assert forall|j: int| 0 <= j < i implies x[j] != c by {
            assert(x[j] == a[j]);
        }
        assert(x[i] == a[i]);
        crate::text::lemma_find_char_is(x, c, i);
        assert(x.subrange(0, i) =~= a.subrange(0, i));
        assert(x.subrange(i + 1, x.len() as int) =~= a2 + seq![c] + b);
        lemma_split_append(a2, b, c);
        assert(split(x, c) =~= seq![a.subrange(0, i)] + (split(a2, c) + split(b, c)));
        assert(split(a, c) =~= seq![a.subrange(0, i)] + split(a2, c));
    }
}

proof fn lemma_named_append(x: Seq<Seq<char>>, y: Seq<Seq<char>>)
    ensures
        named_pieces(x + y) == named_pieces(x) + named_pieces(y),
    decreases y.len(),
{
    if y.len() == 0 {
        assert(x + y =~= x);
        assert(named_pieces(x) + named_pieces(y) =~= named_pieces(x));
    } else {
        lemma_named_append(x, y.drop_last());
        assert((x + y).drop_last() =~= x + y.drop_last());
        assert((x + y).last() == y.last());
        assert(named_pieces(x + y) =~= named_pieces(x) + named_pieces(y));
    }
}

/// The components of `/persist/<rest>` and of `/<rest>`.
proof fn lemma_persist_keys(rest: Seq<char>)
    ensures
        path_key("/persist/"@ + rest).0,
        !path_key("/persist/"@ + rest).1,
        path_key("/persist/"@ + rest).2 == seq!["persist"@] + named_pieces(split(rest, '/')),
        path_key("/persist"@) == (true, false, seq!["persist"@]),
        path_key("/"@ + rest) == (true, false, named_pieces(split(rest, '/'))),
{
    reveal_strlit("/persist/");
    reveal_strlit("/persist");
    reveal_strlit("persist");
    reveal_strlit("/");
    reveal_with_fuel(named_pieces, 3);
    let e: Seq<char> = seq![];
    let ps = "persist"@;
    crate::text::lemma_find_char_is(e, '/', 0);
    assert(split(e, '/') == seq![e]);
    crate::text::lemma_find_char_is(ps, '/', ps.len() as int);
    assert(split(ps, '/') == seq![ps]);
    let full = "/persist/"@ + rest;
    assert(full =~= e + seq!['/'] + (ps + seq!['/'] + rest));
    lemma_split_append(ps, rest, '/');
    lemma_split_append(e, ps + seq!['/'] + rest, '/');
    assert(split(full, '/') =~= seq![e, ps] + split(rest, '/'));
    lemma_named_append(seq![e, ps], split(rest, '/'));
    reveal_strlit(".");
    assert(ps.len() != "."@.len());
    assert(seq![e, ps].drop_last() =~= seq![e]);
    assert(seq![e].drop_last() =~= Seq::<Seq<char>>::empty());
    assert(named_pieces(seq![e]) =~= Seq::<Seq<char>>::empty());
    assert(named_pieces(seq![e, ps]) =~= seq![ps]);
    assert(full.subrange(0, 1) =~= "/"@);
    assert(starts_with(full, "/"@));
    let p = "/persist"@;
    assert(p =~= e + seq!['/'] + ps);
    lemma_split_append(e, ps, '/');
    assert(split(p, '/') =~= seq![e, ps]);
    assert(p.subrange(0, 1) =~= "/"@);
    assert(starts_with(p, "/"@));
    let d = "/"@ + rest;
    assert(d =~= e + seq!['/'] + rest);
    lemma_split_append(e, rest, '/');
    assert(split(d, '/') =~= seq![e] + split(rest, '/'));
    lemma_named_append(seq![e], split(rest, '/'));
    assert(named_pieces(seq![e]) =~= Seq::<Seq<char>>::empty());
    assert(seq![e] + split(rest, '/') == split(d, '/'));
    assert(named_pieces(split(d, '/')) =~= named_pieces(split(rest, '/')));
    assert(d.subrange(0, 1) =~= "/"@);
    assert(starts_with(d, "/"@));
}

/// A declared path is kept, and so is everything under it: the entry
/// `/persist/<p>` for a declaration `/<p>`, and `/persist/<p>/<sub>`
/// below it, are `Kept` - wherever the declaration stands in the list.
pub proof fn law_declared_paths_are_kept(rest: Seq<char>, sub: Seq<char>, declared: Seq<Seq<char>>, i: int)
    requires
        0 <= i < declared.len(),
        declared[i] == "/"@ + rest,
    ensures
        standing_spec("/persist/"@ + rest, declared) == Standing::Kept,
        standing_spec("/persist/"@ + (rest + "/"@ + sub), declared) == Standing::Kept,
{
    reveal_strlit("/");
    lemma_persist_keys(rest);
    let inner = rest + "/"@ + sub;
    lemma_persist_keys(inner);
    assert(inner =~= rest + seq!['/'] + sub);
    lemma_split_append(rest, sub, '/');
    lemma_named_append(split(rest, '/'), split(sub, '/'));
    let n = named_pieces(split(rest, '/'));
    let m = named_pieces(split(sub, '/'));
    let e1 = "/persist/"@ + rest;
    let e2 = "/persist/"@ + inner;
    assert(path_key(e1).2.take(1) =~= seq!["persist"@]);
    assert(path_within(e1, "/persist"@));
    assert(root_key(e1).2 =~= n);
    assert(path_key(declared[i]) == (true, false, n));
    assert(n.take(n.len() as int) =~= n);
    assert(key_within(root_key(e1), path_key(declared[i])));
    assert(path_key(e2).2 =~= seq!["persist"@] + (n + m));
    assert(path_key(e2).2.take(1) =~= seq!["persist"@]);
    assert(path_within(e2, "/persist"@));
    assert(root_key(e2).2 =~= n + m);
    assert((n + m).take(n.len() as int) =~= n);
    assert(key_within(root_key(e2), path_key(declared[i])));
}

} // verus!
