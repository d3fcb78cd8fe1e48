//! `kiwami wallpaper`: the pictures, and which one is showing.
//!
//! Content is files in a directory (add, remove); the selection is one line
//! in a state file (set, next). Neither touches Nix, so neither needs a
//! rebuild. This module decides names, matches and the rotation; the files
//! are read and written by the caller.

use vstd::prelude::*;
use crate::install::{before_query, before_query_of, index_of, lemma_index_of, opt_string};
use crate::json::{field, json_field, Json, JsonView};
use crate::order::{sort_texts, sorted_texts};
use crate::doctor::{strings_of, texts_of};
use crate::text::{
    chars_of, contains, copy_of, decimal, decimal_of, has, has_char, has_prefix, has_sub, join, joined,
    lower, push_all, push_str, rfind, rfind_char, lemma_rfind_char, same, slice_of, split, split_of,
    starts_with, string_of, string_views, to_lower, trim, trimmed, views,
};

verus! {

/// Where the manifest of the wallpaper directory and state file lives.
pub open spec fn manifest_path() -> Seq<char> {
    "/etc/kiwami/wallpaper.json"@
}

// ---------------------------------------------------------------- paths

/// The pieces of a path that name something: not empty, and not `.`.
pub open spec fn named_pieces(parts: Seq<Seq<char>>) -> Seq<Seq<char>>
    decreases parts.len(),
{
    if parts.len() == 0 {
        seq![]
    } else {
        named_pieces(parts.drop_last()) + if parts.last().len() == 0 || parts.last() == "."@ {
            seq![]
        } else {
            seq![parts.last()]
        }
    }
}

/// `Path::file_name`: the last component, unless the path ends in `..` or
/// has no component that names anything.
pub open spec fn file_name(p: Seq<char>) -> Option<Seq<char>> {
    let c = named_pieces(split(p, '/'));
    if c.len() == 0 || c.last() == ".."@ {
        None
    } else {
        Some(c.last())
    }
}

/// `Path::extension` of a file name: what follows its last `.`, unless there
/// is none, or the only one starts the name.
pub open spec fn extension_of(name: Seq<char>) -> Option<Seq<char>> {
    let i = rfind_char(name, '.');
    if i < 0 || i == 0 {
        None
    } else {
        Some(name.skip(i + 1))
    }
}

/// The formats this machine's Qt can decode. Notably absent is webp: the
/// plugin is not in the closure, so accepting one would save a file that can
/// never be shown.
pub open spec fn decodable(ext: Seq<char>) -> bool {
    ext == "png"@ || ext == "jpg"@ || ext == "jpeg"@ || ext == "svg"@ || ext == "gif"@ || ext == "bmp"@
}

/// A path whose extension, lowercased, is one Qt here can show.
pub open spec fn readable_spec(p: Seq<char>) -> bool {
    match file_name(p) {
        Some(n) => match extension_of(n) {
            Some(e) => decodable(lower(e)),
            None => false,
        },
        None => false,
    }
}

fn named_pieces_of(parts: &Vec<Vec<char>>) -> (r: Vec<Vec<char>>)
    ensures
        views(r@) == named_pieces(views(parts@)),
{
    let dot = chars_of(".");
    let mut r: Vec<Vec<char>> = Vec::new();
    let mut i: usize = 0;
    while i < parts.len()
        invariant
            i <= parts.len(),
            dot@ == "."@,
            views(r@) == named_pieces(views(parts@).take(i as int)),
        decreases parts.len() - i,
    {
        proof {
            assert(views(parts@).take(i + 1).drop_last() =~= views(parts@).take(i as int));
            assert(views(parts@).take(i + 1).last() == parts@[i as int]@);
        }
        let ghost before = views(r@);
        if !(parts[i].len() == 0 || same(&parts[i], &dot)) {
            let x = copy_of(&parts[i]);
            r.push(x);
            assert(views(r@) =~= before + seq![x@]);
        } else {
            assert(views(r@) =~= before + seq![]);
        }
        i = i + 1;
    }
    assert(views(parts@).take(parts.len() as int) =~= views(parts@));
    r
}

/// The last component of a path.
pub fn file_name_of(p: &str) -> (r: Option<String>)
    ensures
        opt_string(r) == file_name(p@),
{
    let c = named_pieces_of(&split_of(&chars_of(p), '/'));
    if c.len() == 0 {
        return None;
    }
    let last = copy_of(&c[c.len() - 1]);
    assert(views(c@).last() == last@);
    if same(&last, &chars_of("..")) {
        return None;
    }
    Some(string_of(&last))
}

fn extension_from(name: &Vec<char>) -> (r: Option<Vec<char>>)
    ensures
        match r {
            Some(e) => extension_of(name@) == Some(e@),
            None => extension_of(name@) is None,
        },
{
    match rfind(name, '.') {
        Some(i) => {
            proof {
                lemma_rfind_char(name@, '.');
            }
            assert(i < name.len());
            if i == 0 {
                None
            } else {
                let e = slice_of(name, i + 1, name.len());
                assert(e@ =~= name@.skip(i + 1));
                Some(e)
            }
        },
        None => None,
    }
}

/// Whether an image at this path is one this machine can display, by its
/// extension in any case.
pub fn readable(p: &str) -> (r: bool)
    ensures
        r == readable_spec(p@),
{
    match file_name_of(p) {
        Some(n) => match extension_from(&chars_of(n.as_str())) {
            Some(e) => {
                let low = chars_of(to_lower(string_of(&e).as_str()).as_str());
                same(&low, &chars_of("png")) || same(&low, &chars_of("jpg")) || same(&low, &chars_of("jpeg"))
                    || same(&low, &chars_of("svg")) || same(&low, &chars_of("gif")) || same(
                    &low,
                    &chars_of("bmp"),
                )
            },
            None => false,
        },
        None => false,
    }
}

/// The images among a directory's file names, sorted: the same order the
/// shell uses, because "the first one" has to mean the same in both places.
pub open spec fn images_spec(names: Seq<Seq<char>>) -> Seq<Seq<char>> {
    sorted_texts(readable_names(names))
}

pub open spec fn readable_names(names: Seq<Seq<char>>) -> Seq<Seq<char>>
    decreases names.len(),
{
    if names.len() == 0 {
        seq![]
    } else {
        readable_names(names.drop_last()) + if readable_spec(names.last()) {
            seq![names.last()]
        } else {
            seq![]
        }
    }
}

/// The wallpapers among the files of the directory, in the order they
/// rotate in.
pub fn images(names: &Vec<String>) -> (r: Vec<String>)
    ensures
        string_views(r@) == images_spec(string_views(names@)),
{
    let mut kept: Vec<Vec<char>> = Vec::new();
    let mut i: usize = 0;
    while i < names.len()
        invariant
            i <= names.len(),
            views(kept@) == readable_names(string_views(names@).take(i as int)),
        decreases names.len() - i,
    {
        proof {
            assert(string_views(names@).take(i + 1).drop_last() =~= string_views(names@).take(i as int));
            assert(string_views(names@).take(i + 1).last() == names@[i as int]@);
        }
        let ghost before = views(kept@);
        if readable(names[i].as_str()) {
            let x = chars_of(names[i].as_str());
            kept.push(x);
            assert(views(kept@) =~= before + seq![x@]);
        } else {
            assert(views(kept@) =~= before + seq![]);
        }
        i = i + 1;
    }
    assert(string_views(names@).take(names.len() as int) =~= string_views(names@));
    strings_of(&sort_texts(&kept))
}

// ---------------------------------------------------------------- names

/// The last non-empty `/`-separated piece, if any.
pub open spec fn last_named(parts: Seq<Seq<char>>) -> Option<Seq<char>>
    decreases parts.len(),
{
    if parts.len() == 0 {
        None
    } else if parts.last().len() > 0 {
        Some(parts.last())
    } else {
        last_named(parts.drop_last())
    }
}

/// The name a source suggests: the last piece of its path, without query or
/// fragment, or `wallpaper`.
pub open spec fn source_tail(source: Seq<char>) -> Seq<char> {
    match last_named(split(before_query(source), '/')) {
        Some(t) => t,
        None => "wallpaper"@,
    }
}

/// The name an added image is saved under, given the time it was added:
/// the source's own name when it looks like an image's; otherwise one that
/// sorts by when it was added - rotation is alphabetical.
pub open spec fn picked_name(source: Seq<char>, is_url: bool, stamp: nat) -> Seq<char> {
    let tail = source_tail(source);
    if has_char(tail, '.') && readable_spec(tail) {
        tail
    } else if is_url {
        decimal(stamp) + ".jpg"@
    } else {
        decimal(stamp) + "-"@ + tail
    }
}

fn source_tail_of(source: &str) -> (r: Vec<char>)
    ensures
        r@ == source_tail(source@),
{
    let parts = split_of(&before_query_of(&chars_of(source)), '/');
    let mut i = parts.len();
    assert(views(parts@).take(i as int) =~= views(parts@));
    while i > 0 && parts[i - 1].len() == 0
        invariant
            i <= parts.len(),
            last_named(views(parts@)) == last_named(views(parts@).take(i as int)),
        decreases i,
    {
        assert(views(parts@).take(i as int).last() == parts@[i - 1]@);
        assert(views(parts@).take(i as int).drop_last() =~= views(parts@).take(i - 1));
        i = i - 1;
    }
    if i == 0 {
        chars_of("wallpaper")
    } else {
        assert(views(parts@).take(i as int).last() == parts@[i - 1]@);
        copy_of(&parts[i - 1])
    }
}

/// The name for an image added at `stamp` seconds past the epoch.
pub fn pick_name_at(source: &str, is_url: bool, stamp: u64) -> (r: String)
    ensures
        r@ == picked_name(source@, is_url, stamp as nat),
{
    let tail = source_tail_of(source);
    let t = string_of(&tail);
    if has(&tail, '.') && readable(t.as_str()) {
        return t;
    }
    let mut n = decimal_of(stamp);
    if is_url {
        push_str(&mut n, ".jpg");
    } else {
        push_str(&mut n, "-");
        push_all(&mut n, &tail);
    }
    string_of(&n)
}

/// Seconds since the Unix epoch, or 0 for a clock set before it.
///
/// Trusted: wraps `SystemTime::now` and `duration_since(UNIX_EPOCH)`; what
/// it returns depends on the clock, so nothing is claimed of it.
#[verifier::external_body]
fn unix_now() -> (r: u64) {
    std::time::SystemTime::now().duration_since(std::time::UNIX_EPOCH).map(|d| d.as_secs()).unwrap_or(0)
}

/// The name an added image is saved under, stamped with the current time
/// when the source suggests none.
pub fn pick_name(source: &str, is_url: bool) -> (r: String)
    ensures
        exists|stamp: nat| r@ == picked_name(source@, is_url, stamp),
{
    let stamp = unix_now();
    let r = pick_name_at(source, is_url, stamp);
    assert(r@ == picked_name(source@, is_url, stamp as nat));
    r
}

/// Whether a source is fetched rather than copied.
pub open spec fn is_url_spec(source: Seq<char>) -> bool {
    starts_with(source, "http://"@) || starts_with(source, "https://"@)
}

pub fn is_url(source: &str) -> (r: bool)
    ensures
        r == is_url_spec(source@),
{
    let v = chars_of(source);
    has_prefix(&v, &chars_of("http://")) || has_prefix(&v, &chars_of("https://"))
}

/// The name tried when `base` is taken, for `n` from 2 on: never overwrite
/// an image that is already there.
pub open spec fn numbered_name(base: Seq<char>, n: nat) -> Seq<char> {
    let i = rfind_char(base, '.');
    if i >= 0 {
        base.take(i) + "-"@ + decimal(n) + "."@ + base.skip(i + 1)
    } else {
        base + "-"@ + decimal(n) + "."@
    }
}

pub fn numbered_name_of(base: &str, n: u64) -> (r: String)
    ensures
        r@ == numbered_name(base@, n as nat),
{
    let v = chars_of(base);
    let mut t = match rfind(&v, '.') {
        Some(i) => {
            proof {
                lemma_rfind_char(v@, '.');
            }
            let stem = slice_of(&v, 0, i);
            let ext = slice_of(&v, i + 1, v.len());
            assert(stem@ =~= v@.take(i as int));
            assert(ext@ =~= v@.skip(i + 1));
            let mut t = stem;
            push_str(&mut t, "-");
            push_all(&mut t, &decimal_of(n));
            push_str(&mut t, ".");
            push_all(&mut t, &ext);
            t
        },
        None => {
            proof {
                lemma_rfind_char(v@, '.');
            }
            let mut t = copy_of(&v);
            push_str(&mut t, "-");
            push_all(&mut t, &decimal_of(n));
            push_str(&mut t, ".");
            t
        },
    };
    string_of(&t)
}

/// `~/` at the start of a path means the home directory, when it is known.
pub open spec fn expand_home(p: Seq<char>, home: Option<Seq<char>>) -> Seq<char> {
    if starts_with(p, "~/"@) && home is Some {
        home->0 + "/"@ + p.skip(2)
    } else {
        p
    }
}

pub fn expand_home_of(p: &str, home: &Option<String>) -> (r: String)
    ensures
        r@ == expand_home(p@, opt_string(*home)),
{
    let v = chars_of(p);
    match home {
        Some(h) => if has_prefix(&v, &chars_of("~/")) {
            proof {
                reveal_strlit("~/");
            }
            let rest = slice_of(&v, 2, v.len());
            assert(rest@ =~= p@.skip(2));
            let mut t = chars_of(h.as_str());
            push_str(&mut t, "/");
            push_all(&mut t, &rest);
            string_of(&t)
        } else {
            string_of(&v)
        },
        None => string_of(&v),
    }
}

// ---------------------------------------------------------------- checks

/// Whether what was fetched is an image Qt here can read, by its size and
/// the MIME type `file` reports: an empty file, or a download that 404'd
/// into an HTML page, is refused.
pub open spec fn image_check(size: nat, mime: Seq<char>) -> Result<(), Seq<char>> {
    let m = trim(mime);
    if size == 0 {
        Err("that produced an empty file"@)
    } else if starts_with(m, "image/"@) || contains(m, "svg"@) || m == "text/xml"@ {
        Ok(())
    } else {
        Err("that is "@ + m + ", not an image"@)
    }
}

pub fn looks_like_an_image(size: u64, mime: &str) -> (r: Result<(), String>)
    ensures
        crate::install::unit_view(r) == image_check(size as nat, mime@),
{
    if size == 0 {
        return Err(string_of(&chars_of("that produced an empty file")));
    }
    let m = trimmed(&chars_of(mime));
    if has_prefix(&m, &chars_of("image/")) || has_sub(&m, &chars_of("svg")) || same(&m, &chars_of("text/xml")) {
        Ok(())
    } else {
        let mut e = chars_of("that is ");
        push_all(&mut e, &m);
        push_str(&mut e, ", not an image");
        Err(string_of(&e))
    }
}

/// The wallpaper showing, from the state file: its trimmed text, unless
/// that is empty.
pub open spec fn current_spec(state: Seq<char>) -> Option<Seq<char>> {
    if trim(state).len() == 0 {
        None
    } else {
        Some(trim(state))
    }
}

pub fn current(state: &str) -> (r: Option<String>)
    ensures
        opt_string(r) == current_spec(state@),
{
    let t = trimmed(&chars_of(state));
    if t.len() == 0 {
        None
    } else {
        Some(string_of(&t))
    }
}

// ---------------------------------------------------------------- choosing

/// The first index of a path naming the same file as `which`.
pub open spec fn same_path_index(paths: Seq<Seq<char>>, which: Seq<char>) -> Option<int> {
    if exists|i: int| 0 <= i < paths.len() && path_key(paths[i]) == path_key(which) {
        Some(
            choose|i: int|
                0 <= i < paths.len() && path_key(paths[i]) == path_key(which) && forall|j: int|
                    0 <= j < i ==> path_key(paths[j]) != path_key(which),
        )
    } else {
        None
    }
}

proof fn lemma_same_path_index(paths: Seq<Seq<char>>, which: Seq<char>, i: int)
    requires
        0 <= i < paths.len(),
        path_key(paths[i]) == path_key(which),
        forall|j: int| 0 <= j < i ==> path_key(paths[j]) != path_key(which),
    ensures
        same_path_index(paths, which) == Some(i),
{
    let k = choose|k: int|
        0 <= k < paths.len() && path_key(paths[k]) == path_key(which) && forall|j: int|
            0 <= j < k ==> path_key(paths[j]) != path_key(which);
    if k < i {
        assert(path_key(paths[k]) != path_key(which));
    } else if i < k {
        assert(path_key(paths[i]) != path_key(which));
    }
}

/// The first index of a name holding `which`, ignoring case.
pub open spec fn holding_index(names: Seq<Seq<char>>, which: Seq<char>) -> Option<int> {
    if exists|i: int| 0 <= i < names.len() && contains(lower(names[i]), lower(which)) {
        Some(
            choose|i: int|
                0 <= i < names.len() && contains(lower(names[i]), lower(which)) && forall|j: int|
                    0 <= j < i ==> !contains(lower(names[j]), lower(which)),
        )
    } else {
        None
    }
}

proof fn lemma_holding_index(names: Seq<Seq<char>>, which: Seq<char>, i: int)
    requires
        0 <= i < names.len(),
        contains(lower(names[i]), lower(which)),
        forall|j: int| 0 <= j < i ==> !contains(lower(names[j]), lower(which)),
    ensures
        holding_index(names, which) == Some(i),
{
    let k = choose|k: int|
        0 <= k < names.len() && contains(lower(names[k]), lower(which)) && forall|j: int|
            0 <= j < k ==> !contains(lower(names[j]), lower(which));
    if k < i {
        assert(!contains(lower(names[k]), lower(which)));
    } else if i < k {
        assert(!contains(lower(names[i]), lower(which)));
    }
}

fn exact_index(ns: &Vec<Vec<char>>, w: &Vec<char>) -> (r: Option<usize>)
    ensures
        match r {
            Some(i) => index_of(views(ns@), w@) == Some(i as int) && i < ns@.len(),
            None => index_of(views(ns@), w@) is None,
        },
{
    let mut i: usize = 0;
    while i < ns.len()
        invariant
            i <= ns.len(),
            forall|j: int| 0 <= j < i ==> views(ns@)[j] != w@,
        decreases ns.len() - i,
    {
        if same(&ns[i], w) {
            proof {
                lemma_index_of(views(ns@), w@, i as int);
            }
            return Some(i);
        }
        i = i + 1;
    }
    assert(!views(ns@).contains(w@));
    None
}

/// The components by which paths compare equal: whether rooted, whether
/// they start at `.`, and the pieces that name something.
pub open spec fn path_key(p: Seq<char>) -> (bool, bool, Seq<Seq<char>>) {
    let rooted = starts_with(p, "/"@);
    (rooted, !rooted && split(p, '/')[0] == "."@, named_pieces(split(p, '/')))
}

/// Which wallpaper `which` means: an exact name first, then a path to one,
/// then a name holding it, ignoring case - typing a full filename to look at
/// a picture is a silly thing to have to do.
pub open spec fn match_spec(names: Seq<Seq<char>>, paths: Seq<Seq<char>>, which: Seq<char>) -> Option<int> {
    match index_of(names, which) {
        Some(i) => Some(i),
        None => match same_path_index(paths, which) {
            Some(i) => Some(i),
            None => holding_index(names, which),
        },
    }
}

fn path_key_of(p: &Vec<char>) -> (r: (bool, bool, Vec<Vec<char>>))
    ensures
        (r.0, r.1, views(r.2@)) == path_key(p@),
{
    let rooted = has_prefix(p, &chars_of("/"));
    let parts = split_of(p, '/');
    proof {
        crate::text::lemma_split_nonempty(p@, '/');
    }
    assert(views(parts@)[0] == parts@[0]@);
    let dot = !rooted && same(&parts[0], &chars_of("."));
    (rooted, dot, named_pieces_of(&parts))
}

fn same_list(a: &Vec<Vec<char>>, b: &Vec<Vec<char>>) -> (r: bool)
    ensures
        r == (views(a@) == views(b@)),
{
    if a.len() != b.len() {
        assert(views(a@).len() != views(b@).len());
        return false;
    }
    let mut i: usize = 0;
    while i < a.len()
        invariant
            i <= a.len(),
            a.len() == b.len(),
            forall|j: int| 0 <= j < i ==> views(a@)[j] == views(b@)[j],
        decreases a.len() - i,
    {
        if !same(&a[i], &b[i]) {
            assert(views(a@)[i as int] != views(b@)[i as int]);
            return false;
        }
        i = i + 1;
    }
    assert(views(a@) =~= views(b@));
    true
}

/// The index of the wallpaper `which` means, among the images' names and
/// their paths (in the same order).
pub fn match_wallpaper(names: &Vec<String>, paths: &Vec<String>, which: &str) -> (r: Option<usize>)
    requires
        names@.len() == paths@.len(),
    ensures
        match r {
            Some(i) => match_spec(string_views(names@), string_views(paths@), which@) == Some(i as int)
                && i < names@.len(),
            None => match_spec(string_views(names@), string_views(paths@), which@) is None,
        },
{
    let ns = texts_of(names);
    let ps = texts_of(paths);
    let w = chars_of(which);
    match exact_index(&ns, &w) {
        Some(i) => {
            return Some(i);
        },
        None => {},
    }
    let wk = path_key_of(&w);
    let mut k: usize = 0;
    while k < ps.len()
        invariant
            k <= ps.len(),
            (wk.0, wk.1, views(wk.2@)) == path_key(which@),
            views(ps@) == string_views(paths@),
            views(ns@) == string_views(names@),
            w@ == which@,
            names@.len() == paths@.len(),
            index_of(string_views(names@), which@) is None,
            forall|j: int| 0 <= j < k ==> path_key(views(ps@)[j]) != path_key(which@),
        decreases ps.len() - k,
    {
        let pk = path_key_of(&ps[k]);
        let hit = pk.0 == wk.0 && pk.1 == wk.1 && same_list(&pk.2, &wk.2);
        assert(hit == (path_key(views(ps@)[k as int]) == path_key(which@)));
        if hit {
            proof {
                lemma_same_path_index(views(ps@), which@, k as int);
            }
            return Some(k);
        }
        k = k + 1;
    }
    assert(same_path_index(views(ps@), which@) is None);
    let lw = chars_of(to_lower(which).as_str());
    let mut m: usize = 0;
    while m < ns.len()
        invariant
            m <= ns.len(),
            lw@ == lower(which@),
            views(ns@) == string_views(names@),
            views(ps@) == string_views(paths@),
            index_of(string_views(names@), which@) is None,
            same_path_index(string_views(paths@), which@) is None,
            forall|j: int| 0 <= j < m ==> !contains(lower(views(ns@)[j]), lower(which@)),
        decreases ns.len() - m,
    {
        let ln = chars_of(to_lower(names[m].as_str()).as_str());
        assert(views(ns@)[m as int] == names@[m as int]@);
        if has_sub(&ln, &lw) {
            proof {
                lemma_holding_index(views(ns@), which@, m as int);
            }
            return Some(m);
        }
        m = m + 1;
    }
    assert(holding_index(views(ns@), which@) is None);
    None
}

/// What is said when nothing matches: the wallpapers there are.
pub open spec fn no_match(which: Seq<char>, names: Seq<Seq<char>>) -> Seq<char> {
    "no wallpaper matching "@ + which + ". What is there:\n"@
        + join(Seq::new(names.len(), |i: int| "  "@ + names[i]), "\n"@)
}

pub fn no_match_text(which: &str, names: &Vec<String>) -> (r: String)
    ensures
        r@ == no_match(which@, string_views(names@)),
{
    let mut lines: Vec<Vec<char>> = Vec::new();
    let mut i: usize = 0;
    while i < names.len()
        invariant
            i <= names.len(),
            views(lines@) == Seq::new(i as nat, |j: int| "  "@ + string_views(names@)[j]),
        decreases names.len() - i,
    {
        let mut l = chars_of("  ");
        push_str(&mut l, names[i].as_str());
        let ghost before = views(lines@);
        assert(l@ == "  "@ + string_views(names@)[i as int]);
        lines.push(l);
        assert(views(lines@) =~= before.push("  "@ + string_views(names@)[i as int]));
        assert(views(lines@) =~= Seq::new((i + 1) as nat, |j: int| "  "@ + string_views(names@)[j]));
        i = i + 1;
    }
    let mut t = chars_of("no wallpaper matching ");
    push_str(&mut t, which);
    push_str(&mut t, ". What is there:\n");
    push_all(&mut t, &joined(&lines, &chars_of("\n")));
    string_of(&t)
}

// ---------------------------------------------------------------- rotation

/// The wallpaper after the one showing: the next in order, wrapping round;
/// from the first when nothing is chosen or the choice is gone.
pub open spec fn next_spec(names: Seq<Seq<char>>, now: Option<Seq<char>>) -> Result<int, Seq<char>> {
    if names.len() < 2 {
        Err("need at least two wallpapers to move between them"@)
    } else {
        let at = match now {
            Some(n) => match index_of(names, n) {
                Some(i) => i,
                None => 0,
            },
            None => 0,
        };
        Ok((at + 1) % (names.len() as int))
    }
}

/// The index of the wallpaper to show next.
pub fn next_wallpaper(names: &Vec<String>, now: &Option<String>) -> (r: Result<usize, String>)
    ensures
        match r {
            Ok(i) => next_spec(string_views(names@), opt_string(*now)) == Ok::<int, Seq<char>>(i as int),
            Err(e) => next_spec(string_views(names@), opt_string(*now)) == Err::<int, Seq<char>>(e@),
        },
{
    if names.len() < 2 {
        return Err(string_of(&chars_of("need at least two wallpapers to move between them")));
    }
    let ns = texts_of(names);
    let at: usize = match now {
        Some(n) => match exact_index(&ns, &chars_of(n.as_str())) {
            Some(i) => i,
            None => 0,
        },
        None => 0,
    };
    Ok((at + 1) % names.len())
}

/// `k` steps of the rotation from index `i` among `n`.
pub open spec fn steps(i: int, k: nat, n: int) -> int
    decreases k,
{
    if k == 0 {
        i
    } else {
        (steps(i, (k - 1) as nat, n) + 1) % n
    }
}

proof fn lemma_steps(i: int, n: int, k: nat)
    requires
        n >= 2,
        0 <= i < n,
    ensures
        steps(i, k, n) == (i + k) % n,
    decreases k,
{
    if k > 0 {
        lemma_steps(i, n, (k - 1) as nat);
        vstd::arithmetic::div_mod::lemma_add_mod_noop(i + k - 1, 1, n);
        vstd::arithmetic::div_mod::lemma_small_mod(1, n as nat);
    } else {
        vstd::arithmetic::div_mod::lemma_small_mod(i as nat, n as nat);
    }
}

/// The rotation visits every wallpaper once before it comes back: `k`
/// steps from `i` land on `(i + k) mod n`, so the `n` steps from any
/// wallpaper show each one exactly once and end where they began.
pub proof fn law_rotation_cycles(i: int, n: int, k: nat)
    requires
        n >= 2,
        0 <= i < n,
    ensures
        steps(i, k, n) == (i + k) % n,
        steps(i, n as nat, n) == i,
{
    lemma_steps(i, n, k);
    lemma_steps(i, n, n as nat);
    vstd::arithmetic::div_mod::lemma_mod_add_multiples_vanish(i, n);
    vstd::arithmetic::div_mod::lemma_small_mod(i as nat, n as nat);
}

/// The wallpaper removal targets: exactly the name given.
pub open spec fn removal_spec(names: Seq<Seq<char>>, which: Seq<char>) -> Result<int, Seq<char>> {
    match index_of(names, which) {
        Some(i) => Ok(i),
        None => Err("no wallpaper called "@ + which),
    }
}

pub fn removal_target(names: &Vec<String>, which: &str) -> (r: Result<usize, String>)
    ensures
        match r {
            Ok(i) => removal_spec(string_views(names@), which@) == Ok::<int, Seq<char>>(i as int),
            Err(e) => removal_spec(string_views(names@), which@) == Err::<int, Seq<char>>(e@),
        },
{
    let ns = texts_of(names);
    match exact_index(&ns, &chars_of(which)) {
        Some(i) => Ok(i),
        None => {
            let mut e = chars_of("no wallpaper called ");
            push_str(&mut e, which);
            Err(string_of(&e))
        },
    }
}

/// One line of the listing: `*` marks the one showing.
pub open spec fn list_line(name: Seq<char>, now: Option<Seq<char>>, kb: nat) -> Seq<char> {
    (if now == Some(name) {
        "*"@
    } else {
        " "@
    }) + " "@ + name + "  ("@ + decimal(kb) + " KB)"@
}

pub fn list_line_of(name: &str, now: &Option<String>, kb: u64) -> (r: String)
    ensures
        r@ == list_line(name@, opt_string(*now), kb as nat),
{
    let showing = match now {
        Some(n) => same(&chars_of(n.as_str()), &chars_of(name)),
        None => false,
    };
    let mut t = if showing {
        chars_of("*")
    } else {
        chars_of(" ")
    };
    push_str(&mut t, " ");
    push_str(&mut t, name);
    push_str(&mut t, "  (");
    push_all(&mut t, &decimal_of(kb));
    push_str(&mut t, " KB)");
    string_of(&t)
}

// ---------------------------------------------------------------- manifest

/// The wallpaper directory and state file the manifest names, or what is
/// wrong with it. A manifest that is not JSON is named with serde_json's
/// message; a key that is missing, not a string, or empty is missing.
pub open spec fn manifest_paths(directory: JsonView, state: JsonView) -> Result<(Seq<char>, Seq<char>), Seq<char>> {
    match directory {
        JsonView::Invalid(m) => Err(manifest_path() + ": "@ + m),
        JsonView::Text(d) if d.len() > 0 => match state {
            JsonView::Text(s) if s.len() > 0 => Ok((d, s)),
            _ => Err(manifest_path() + " has no "@ + "state"@),
        },
        _ => Err(manifest_path() + " has no "@ + "directory"@),
    }
}

/// The wallpaper directory and state file, from what serde_json found under
/// the manifest's `directory` and `state` keys.
pub fn manifest_from(directory: Json, state: Json) -> (r: Result<(String, String), String>)
    ensures
        match r {
            Ok((d, s)) => manifest_paths(directory@, state@) == Ok::<(Seq<char>, Seq<char>), Seq<char>>((d@, s@)),
            Err(e) => manifest_paths(directory@, state@) == Err::<(Seq<char>, Seq<char>), Seq<char>>(e@),
        },
{
    let dir = match directory {
        Json::Invalid(msg) => {
            let mut e = chars_of("/etc/kiwami/wallpaper.json");
            push_str(&mut e, ": ");
            push_str(&mut e, msg.as_str());
            assert(e@ =~= manifest_path() + ": "@ + msg@) by {
                reveal_strlit("/etc/kiwami/wallpaper.json");
            }
            return Err(string_of(&e));
        },
        Json::Text(s) => s,
        _ => {
            return Err(manifest_problem("directory"));
        },
    };
    if chars_of(dir.as_str()).len() == 0 {
        return Err(manifest_problem("directory"));
    }
    let st = match state {
        Json::Text(s) => s,
        _ => {
            return Err(manifest_problem("state"));
        },
    };
    if chars_of(st.as_str()).len() == 0 {
        return Err(manifest_problem("state"));
    }
    Ok((dir, st))
}

/// The wallpaper directory and state file, from the text of the manifest.
pub fn manifest(raw: &str) -> (r: Result<(String, String), String>)
    ensures
        match r {
            Ok((d, s)) => manifest_paths(json_field(raw@, "directory"@), json_field(raw@, "state"@))
                == Ok::<(Seq<char>, Seq<char>), Seq<char>>((d@, s@)),
            Err(e) => manifest_paths(json_field(raw@, "directory"@), json_field(raw@, "state"@))
                == Err::<(Seq<char>, Seq<char>), Seq<char>>(e@),
        },
{
    manifest_from(field(raw, "directory"), field(raw, "state"))
}

fn manifest_problem(key: &str) -> (r: String)
    ensures
        r@ == manifest_path() + " has no "@ + key@,
{
    let mut e = chars_of("/etc/kiwami/wallpaper.json");
    push_str(&mut e, " has no ");
    push_str(&mut e, key);
    string_of(&e)
}

// ---------------------------------------------------------------- names

/// The names a new image may be saved under, in the order they are tried:
/// the name itself, then `<stem>-2.<ext>`, `<stem>-3.<ext>`, and so on.
pub open spec fn candidate(base: Seq<char>, k: nat) -> Seq<char> {
    if k == 0 {
        base
    } else {
        numbered_name(base, k + 1)
    }
}

pub fn candidate_name(base: &str, k: u64) -> (r: String)
    requires
        k < u64::MAX,
    ensures
        r@ == candidate(base@, k as nat),
{
    if k == 0 {
        string_of(&chars_of(base))
    } else {
        numbered_name_of(base, k + 1)
    }
}

/// The name to save a new image under, given which candidates are taken:
/// the first free one. Never one that is taken - an image already there is
/// never overwritten - and none when every candidate tried is taken.
pub fn free_name(base: &str, taken: &Vec<bool>) -> (r: Option<String>)
    requires
        taken.len() < u64::MAX,
    ensures
        match r {
            Some(n) => exists|k: int|
                0 <= k < taken@.len() && !taken@[k] && (forall|j: int| 0 <= j < k ==> taken@[j]) && n@ == candidate(
                    base@,
                    k as nat,
                ),
            None => forall|k: int| 0 <= k < taken@.len() ==> taken@[k],
        },
{
    let mut k: usize = 0;
    while k < taken.len()
        invariant
            k <= taken.len(),
            taken.len() < u64::MAX,
            forall|j: int| 0 <= j < k ==> taken@[j],
        decreases taken.len() - k,
    {
        if !taken[k] {
            let n = candidate_name(base, k as u64);
            assert(!taken@[k as int] && n@ == candidate(base@, k as nat));
            return Some(n);
        }
        k = k + 1;
    }
    None
}

/// The rotation moves to the successor: with at least two wallpapers and
/// the current one at `i` (its first place in the list), next is `i + 1`,
/// and it wraps to the first only from the last.
pub proof fn law_next_is_the_successor(names: Seq<Seq<char>>, i: int)
    requires
        names.len() >= 2,
        0 <= i < names.len(),
        forall|j: int| 0 <= j < i ==> names[j] != names[i],
    ensures
        next_spec(names, Some(names[i])) == Ok::<int, Seq<char>>(if i + 1 < names.len() { i + 1 } else { 0 }),
{
    crate::install::lemma_index_of(names, names[i], i);
    let n = names.len() as int;
    if i + 1 < n {
        assert((i + 1) % n == i + 1) by (nonlinear_arith)
            requires
                0 <= i + 1 < n,
        ;
    } else {
        assert((i + 1) % n == 0) by (nonlinear_arith)
            requires
                i + 1 == n,
                n >= 2,
        ;
    }
}

} // verus!
