//! `kiwami update`: rebuilding this machine from the flake, which lives on
//! GitHub and nowhere else.
//!
//! The machine keeps no checkout of its own configuration. It knows where
//! its configuration lives from /etc/kiwami/origin.json, resolves the
//! flake's head to a commit before building anything, and records the commit
//! it switched to. This module decides those names and messages; nix runs
//! outside.

use vstd::prelude::*;
use crate::install::{opt_string, text_result};
use crate::json::{field, field_bytes, json_field, json_field_bytes, string_list, json_string_list, Json, JsonView};
use crate::text::{chars_of, push_str, same, starts_with, string_of, string_views, trim, trimmed};

verus! {

pub open spec fn origin_path() -> Seq<char> {
    "/etc/kiwami/origin.json"@
}

/// What a failed command launch is reported as. A missing binary renders
/// as "No such file or directory", which reads like a missing file and sends
/// you looking at the flake - so it is named for what it is: not on PATH.
pub open spec fn ran_message(what: Seq<char>, not_found: bool, error: Seq<char>) -> Seq<char> {
    if not_found {
        what + " is not on PATH.\n\nKiwami rebuilds by shelling out to it, so it has to be findable. Running under a systemd unit or a cron job is the usual reason - those get a minimal PATH that omits /run/current-system/sw/bin."@
    } else {
        what + ": "@ + error
    }
}

pub fn ran(what: &str, not_found: bool, error: &str) -> (r: String)
    ensures
        r@ == ran_message(what@, not_found, error@),
{
    let mut t = chars_of(what);
    if not_found {
        push_str(
            &mut t,
            " is not on PATH.\n\nKiwami rebuilds by shelling out to it, so it has to be findable. Running under a systemd unit or a cron job is the usual reason - those get a minimal PATH that omits /run/current-system/sw/bin.",
        );
    } else {
        push_str(&mut t, ": ");
        push_str(&mut t, error);
    }
    string_of(&t)
}

/// A string under a key, or empty: `get(k).and_then(as_str).unwrap_or("")`.
pub open spec fn text_or_empty(j: JsonView) -> Seq<char> {
    match j {
        JsonView::Text(s) => s,
        _ => seq![],
    }
}

fn text_or_empty_of(j: Json) -> (r: String)
    ensures
        r@ == text_or_empty(j@),
{
    match j {
        Json::Text(s) => s,
        _ => string_of(&Vec::new()),
    }
}

/// Where this machine's configuration lives and what it is called there,
/// from origin.json - or why it cannot be rebuilt. Said here rather than
/// after a failed build, because the fix is one line in the machine's own
/// configuration and the error should name it.
pub open spec fn origin_spec(flake: JsonView, host: JsonView) -> Result<(Seq<char>, Seq<char>), Seq<char>> {
    if text_or_empty(flake).len() == 0 {
        Err("this machine does not say where its configuration lives.\n\nSet it in the host's configuration and rebuild once:\n\n  kiwami.flake = \"github:you/your-config\";\n\nAfter that `kiwami update` builds from there."@)
    } else if text_or_empty(host).len() == 0 {
        Err("this machine has no host name to build"@)
    } else {
        Ok((text_or_empty(flake), text_or_empty(host)))
    }
}

/// What origin.json's two fields make: the flake and host, or why an update
/// cannot go on. A file that is not JSON is named with serde_json's message.
pub open spec fn origin_result(flake: JsonView, host: JsonView) -> Result<(Seq<char>, Seq<char>), Seq<char>> {
    match flake {
        JsonView::Invalid(m) => Err(origin_path() + ": "@ + m),
        _ => origin_spec(flake, host),
    }
}

/// The flake and host an update builds, from what serde_json found under
/// origin.json's `flake` and `host` keys.
pub fn origin_from(flake: Json, host: Json) -> (r: Result<(String, String), String>)
    ensures
        match r {
            Ok((f, h)) => origin_result(flake@, host@) == Ok::<(Seq<char>, Seq<char>), Seq<char>>((f@, h@)),
            Err(e) => origin_result(flake@, host@) == Err::<(Seq<char>, Seq<char>), Seq<char>>(e@),
        },
{
    if let Json::Invalid(msg) = &flake {
        let mut e = chars_of("/etc/kiwami/origin.json");
        push_str(&mut e, ": ");
        push_str(&mut e, msg.as_str());
        assert(e@ =~= origin_path() + ": "@ + msg@) by {
            reveal_strlit("/etc/kiwami/origin.json");
        }
        return Err(string_of(&e));
    }
    let flake = text_or_empty_of(flake);
    let host = text_or_empty_of(host);
    if chars_of(flake.as_str()).len() == 0 {
        return Err(string_of(&chars_of(
            "this machine does not say where its configuration lives.\n\nSet it in the host's configuration and rebuild once:\n\n  kiwami.flake = \"github:you/your-config\";\n\nAfter that `kiwami update` builds from there.",
        )));
    }
    if chars_of(host.as_str()).len() == 0 {
        return Err(string_of(&chars_of("this machine has no host name to build")));
    }
    Ok((flake, host))
}

/// The flake and host an update builds, from the text of origin.json.
pub fn origin(raw: &str) -> (r: Result<(String, String), String>)
    ensures
        match r {
            Ok((f, h)) => origin_result(json_field(raw@, "flake"@), json_field(raw@, "host"@))
                == Ok::<(Seq<char>, Seq<char>), Seq<char>>((f@, h@)),
            Err(e) => origin_result(json_field(raw@, "flake"@), json_field(raw@, "host"@))
                == Err::<(Seq<char>, Seq<char>), Seq<char>>(e@),
        },
{
    origin_from(field(raw, "flake"), field(raw, "host"))
}

/// The commit `nix flake metadata --json` resolves the flake's head to, from
/// what serde_json found under its `revision` key.
pub open spec fn head_spec(reply: JsonView) -> Result<Seq<char>, Seq<char>> {
    match reply {
        JsonView::Text(r) => Ok(r),
        JsonView::Invalid(m) => Err("nix flake metadata: "@ + m),
        _ => Err("no revision in flake metadata"@),
    }
}

pub fn head_from(revision: Json) -> (r: Result<String, String>)
    ensures
        match r {
            Ok(s) => head_spec(revision@) == Ok::<Seq<char>, Seq<char>>(s@),
            Err(e) => head_spec(revision@) == Err::<Seq<char>, Seq<char>>(e@),
        },
{
    match revision {
        Json::Text(s) => Ok(s),
        Json::Invalid(msg) => {
            let mut e = chars_of("nix flake metadata: ");
            push_str(&mut e, msg.as_str());
            Err(string_of(&e))
        },
        _ => Err(string_of(&chars_of("no revision in flake metadata"))),
    }
}

/// The head commit, from the reply of `nix flake metadata --json`.
pub fn head_revision(reply: &[u8]) -> (r: Result<String, String>)
    ensures
        match r {
            Ok(s) => head_spec(json_field_bytes(reply@, "revision"@)) == Ok::<Seq<char>, Seq<char>>(s@),
            Err(e) => head_spec(json_field_bytes(reply@, "revision"@)) == Err::<Seq<char>, Seq<char>>(e@),
        },
{
    head_from(field_bytes(reply, "revision"))
}

/// Whether the flake describes `host`, from the JSON list of its
/// configurations' names; a reply that does not parse lists none.
pub open spec fn host_listed(names: Option<Seq<Seq<char>>>, host: Seq<char>) -> bool {
    match names {
        Some(ns) => ns.contains(host),
        None => false,
    }
}

/// What serde_json's reading of a list of strings comes to, its message
/// aside.
pub open spec fn listed_names(names: Result<Vec<String>, String>) -> Option<Seq<Seq<char>>> {
    match names {
        Ok(v) => Some(string_views(v@)),
        Err(_) => None,
    }
}

/// Whether `host` is among the names serde_json read from the reply.
pub fn host_listed_in(names: &Result<Vec<String>, String>, host: &str) -> (r: bool)
    ensures
        r == host_listed(listed_names(*names), host@),
{
    match names {
        Ok(v) => {
            let h = chars_of(host);
            let mut i: usize = 0;
            while i < v.len()
                invariant
                    i <= v.len(),
                    h@ == host@,
                    listed_names(*names) == Some(string_views(v@)),
                    forall|j: int| 0 <= j < i ==> string_views(v@)[j] != host@,
                decreases v.len() - i,
            {
                if same(&chars_of(v[i].as_str()), &h) {
                    assert(string_views(v@)[i as int] == host@);
                    assert(string_views(v@).contains(host@));
                    return true;
                }
                i = i + 1;
            }
            false
        },
        Err(_) => false,
    }
}

pub fn host_exists(reply: &[u8], host: &str) -> (r: bool)
    ensures
        r == host_listed(json_string_list(reply@), host@),
{
    let names = string_list(reply);
    assert(listed_names(names) == json_string_list(reply@)) by {
        match names {
            Ok(v) => {},
            Err(_) => {},
        }
    }
    host_listed_in(&names, host)
}

/// The flake pinned to a commit: two machines updated a minute apart get the
/// same system, not whatever main happened to be.
pub open spec fn pinned(base: Seq<char>, rev: Seq<char>) -> Seq<char> {
    base + "/"@ + rev
}

pub fn pinned_flake(base: &str, rev: &str) -> (r: String)
    ensures
        r@ == pinned(base@, rev@),
{
    let mut t = chars_of(base);
    push_str(&mut t, "/");
    push_str(&mut t, rev);
    string_of(&t)
}

/// What is said when the flake does not know this machine.
pub open spec fn unknown_host(base: Seq<char>, host: Seq<char>) -> Seq<char> {
    base + " does not describe a machine called "@ + host
        + ".\nIts configuration has not been pushed yet:\n\n  sudo kiwami host push\n\nA machine whose config is not in the flake cannot be rebuilt from it."@
}

pub fn unknown_host_text(base: &str, host: &str) -> (r: String)
    ensures
        r@ == unknown_host(base@, host@),
{
    let mut t = chars_of(base);
    push_str(&mut t, " does not describe a machine called ");
    push_str(&mut t, host);
    push_str(
        &mut t,
        ".\nIts configuration has not been pushed yet:\n\n  sudo kiwami host push\n\nA machine whose config is not in the flake cannot be rebuilt from it.",
    );
    string_of(&t)
}

/// The arguments of `nixos-rebuild`: build when dry, switch otherwise, from
/// the pinned flake's configuration of `host`.
pub open spec fn rebuild_args(flake: Seq<char>, host: Seq<char>, dry: bool) -> Seq<Seq<char>> {
    seq![if dry { "build"@ } else { "switch"@ }, "--flake"@, flake + "#"@ + host]
}

pub fn rebuild_args_of(flake: &str, host: &str, dry: bool) -> (r: Vec<String>)
    ensures
        string_views(r@) == rebuild_args(flake@, host@, dry),
{
    let mut r: Vec<String> = Vec::new();
    r.push(string_of(&chars_of(if dry { "build" } else { "switch" })));
    r.push(string_of(&chars_of("--flake")));
    let mut t = chars_of(flake);
    push_str(&mut t, "#");
    push_str(&mut t, host);
    r.push(string_of(&t));
    assert(string_views(r@) =~= rebuild_args(flake@, host@, dry));
    r
}

/// The attribute of the installer image that carries `host`'s system.
pub open spec fn image_attr(flake: Seq<char>, rev: Seq<char>, host: Seq<char>) -> Seq<char> {
    flake + "/"@ + rev + "#nixosConfigurations.installer-"@ + host + ".config.system.build.isoImage"@
}

pub fn image_attr_of(flake: &str, rev: &str, host: &str) -> (r: String)
    ensures
        r@ == image_attr(flake@, rev@, host@),
{
    let mut t = chars_of(flake);
    push_str(&mut t, "/");
    push_str(&mut t, rev);
    push_str(&mut t, "#nixosConfigurations.installer-");
    push_str(&mut t, host);
    push_str(&mut t, ".config.system.build.isoImage");
    string_of(&t)
}

/// The commit this system was last built from, from the stamp file: its
/// trimmed text, unless empty.
pub open spec fn commit_spec(stamp: Seq<char>) -> Option<Seq<char>> {
    if trim(stamp).len() == 0 {
        None
    } else {
        Some(trim(stamp))
    }
}

pub fn current_commit(stamp: &str) -> (r: Option<String>)
    ensures
        opt_string(r) == commit_spec(stamp@),
{
    let t = trimmed(&chars_of(stamp));
    if t.len() == 0 {
        None
    } else {
        Some(string_of(&t))
    }
}

/// What the stamp file holds after switching to `rev`.
pub open spec fn stamp_text(rev: Seq<char>) -> Seq<char> {
    rev + "\n"@
}

pub fn stamp_text_of(rev: &str) -> (r: String)
    ensures
        r@ == stamp_text(rev@),
{
    let mut t = chars_of(rev);
    push_str(&mut t, "\n");
    string_of(&t)
}

/// The commit a stamp records is the commit that was written: what
/// `current_commit` reads back from the stamp of a switch to `rev` is `rev`,
/// for any commit id without surrounding whitespace.
pub proof fn law_stamp_reads_back(rev: Seq<char>)
    requires
        rev.len() > 0,
        trim(rev) == rev,
    ensures
        commit_spec(stamp_text(rev)) == Some(rev),
{
    crate::text::lemma_trim_newline(rev);
}

} // verus!
