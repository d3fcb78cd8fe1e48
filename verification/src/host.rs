//! `kiwami host push`: recording a machine's configuration in the flake.
//!
//! The branch that is pushed is never built from HEAD: it is built in a
//! throwaway worktree at the flake's main branch, with the host directory
//! copied in and nothing else, so unrelated work cannot ride along. This
//! module holds the decisions and the names along the way; git runs outside.

use vstd::prelude::*;
use crate::install::opt_string;
use crate::text::{
    chars_of, contains, ends_with, find_char, has_prefix, has_suffix, has_sub, lemma_find_char,
    lines, lines_of, push_all, push_str, same, slice_of, split, split_of, starts_with, string_of,
    string_views, trim, trimmed, views,
};

verus! {

// ---------------------------------------------------------------- remotes

/// What follows the GitHub host in either remote form: scp-like, https, or
/// ssh URL.
pub open spec fn after_github(url: Seq<char>) -> Option<Seq<char>> {
    if starts_with(url, "git@github.com:"@) {
        Some(url.skip(15))
    } else if starts_with(url, "https://github.com/"@) {
        Some(url.skip(19))
    } else if starts_with(url, "ssh://git@github.com/"@) {
        Some(url.skip(21))
    } else {
        None
    }
}

/// `s.trim_end_matches('/')`.
pub open spec fn strip_trailing_slashes(s: Seq<char>) -> Seq<char>
    decreases s.len(),
{
    if s.len() > 0 && s.last() == '/' {
        strip_trailing_slashes(s.drop_last())
    } else {
        s
    }
}

/// `s.trim_end_matches(".git")`.
pub open spec fn strip_git_suffix(s: Seq<char>) -> Seq<char>
    decreases s.len(),
{
    if s.len() >= 4 && ends_with(s, ".git"@) {
        strip_git_suffix(s.take(s.len() - 4))
    } else {
        s
    }
}

/// How many of the pieces are not empty.
pub open spec fn nonempty_count(parts: Seq<Seq<char>>) -> nat
    decreases parts.len(),
{
    if parts.len() == 0 {
        0
    } else {
        nonempty_count(parts.drop_last()) + if parts.last().len() > 0 {
            1nat
        } else {
            0nat
        }
    }
}

/// `owner/repo` of a GitHub remote, from either remote form; `None` for a
/// remote that is not GitHub's, or does not name exactly an owner and a
/// repository. A self-hosted remote gets no GitHub URL rather than a wrong one.
pub open spec fn slug_of(url: Seq<char>) -> Option<Seq<char>> {
    match after_github(url) {
        Some(rest) => {
            let slug = strip_git_suffix(strip_trailing_slashes(rest));
            if nonempty_count(split(slug, '/')) == 2 {
                Some(slug)
            } else {
                None
            }
        },
        None => None,
    }
}

fn strip_trailing_slashes_of(v: &Vec<char>) -> (r: Vec<char>)
    ensures
        r@ == strip_trailing_slashes(v@),
{
    let mut end = v.len();
    assert(v@.take(end as int) =~= v@);
    while end > 0 && v[end - 1] == '/'
        invariant
            end <= v.len(),
            strip_trailing_slashes(v@) == strip_trailing_slashes(v@.take(end as int)),
        decreases end,
    {
        assert(v@.take(end as int).drop_last() =~= v@.take(end - 1));
        end = end - 1;
    }
    slice_of(v, 0, end)
}

fn strip_git_suffix_of(v: &Vec<char>) -> (r: Vec<char>)
    ensures
        r@ == strip_git_suffix(v@),
{
    let suffix = chars_of(".git");
    proof {
        reveal_strlit(".git");
    }
    let mut cur = slice_of(v, 0, v.len());
    assert(cur@ =~= v@);
    while cur.len() >= 4 && has_suffix(&cur, &suffix)
        invariant
            suffix@ == ".git"@,
            suffix@.len() == 4,
            strip_git_suffix(v@) == strip_git_suffix(cur@),
        decreases cur.len(),
    {
        let n = cur.len() - 4;
        let next = slice_of(&cur, 0, n);
        assert(next@ =~= cur@.take(cur@.len() - 4));
        cur = next;
    }
    cur
}

fn nonempty_count_of(parts: &Vec<Vec<char>>) -> (n: usize)
    ensures
        n == nonempty_count(views(parts@)),
{
    let mut n: usize = 0;
    let mut i: usize = 0;
    while i < parts.len()
        invariant
            i <= parts.len(),
            n == nonempty_count(views(parts@).take(i as int)),
            n <= i,
        decreases parts.len() - i,
    {
        proof {
            assert(views(parts@).take(i + 1).drop_last() =~= views(parts@).take(i as int));
            assert(views(parts@).take(i + 1).last() == parts@[i as int]@);
        }
        if parts[i].len() > 0 {
            n = n + 1;
        }
        i = i + 1;
    }
    assert(views(parts@).take(parts.len() as int) =~= views(parts@));
    n
}

/// `owner/repo` from a GitHub remote URL in either form.
pub fn github_slug(url: &str) -> (r: Option<String>)
    ensures
        opt_string(r) == slug_of(url@),
{
    let v = chars_of(url);
    let rest = if has_prefix(&v, &chars_of("git@github.com:")) {
        proof {
            reveal_strlit("git@github.com:");
        }
        slice_of(&v, 15, v.len())
    } else if has_prefix(&v, &chars_of("https://github.com/")) {
        proof {
            reveal_strlit("https://github.com/");
        }
        slice_of(&v, 19, v.len())
    } else if has_prefix(&v, &chars_of("ssh://git@github.com/")) {
        proof {
            reveal_strlit("ssh://git@github.com/");
        }
        slice_of(&v, 21, v.len())
    } else {
        return None;
    };
    assert(after_github(url@) == Some(rest@));
    let slug = strip_git_suffix_of(&strip_trailing_slashes_of(&rest));
    if nonempty_count_of(&split_of(&slug, '/')) == 2 {
        Some(string_of(&slug))
    } else {
        None
    }
}

/// The page that opens a pull request for `branch`, for a GitHub remote.
pub open spec fn compare_page(remote: Seq<char>, branch: Seq<char>) -> Option<Seq<char>> {
    match slug_of(trim(remote)) {
        Some(slug) => Some("https://github.com/"@ + slug + "/compare/"@ + branch + "?expand=1"@),
        None => None,
    }
}

/// Where to open a pull request by hand, from `git remote get-url origin`.
pub fn compare_url(remote: &str, branch: &str) -> (r: Option<String>)
    ensures
        opt_string(r) == compare_page(remote@, branch@),
{
    let t = string_of(&trimmed(&chars_of(remote)));
    match github_slug(t.as_str()) {
        Some(slug) => {
            let mut u = chars_of("https://github.com/");
            push_str(&mut u, slug.as_str());
            push_str(&mut u, "/compare/");
            push_str(&mut u, branch);
            push_str(&mut u, "?expand=1");
            Some(string_of(&u))
        },
        None => None,
    }
}

// ---------------------------------------------------------------- differs

/// Whether `hosts/<name>` in the checkout differs from what origin carries,
/// from git's replies so far: the `ls-files` listing of the host directory,
/// then the listing of its files git does not know yet, then whether `git diff --quiet`
/// against the base found it clean. `None` while the replies given do not
/// settle it yet.
///
/// A brand new host is unknown to git, so `git diff` reports nothing about it:
/// that is the first thing checked, and a differing host.
pub open spec fn origin_verdict(known_files: Seq<char>, new_files: Option<Seq<char>>, diff_clean: Option<bool>) -> Option<bool> {
    if trim(known_files).len() == 0 {
        Some(true)
    } else {
        match new_files {
            None => None,
            Some(u) => if trim(u).len() > 0 {
                Some(true)
            } else {
                match diff_clean {
                    None => None,
                    Some(clean) => Some(!clean),
                }
            },
        }
    }
}

/// Whether hosts/<name> differs from origin, as far as git's replies so far
/// settle it; `None` means the next question is to be asked.
pub fn differs_from_origin(known_files: &str, new_files: &Option<String>, diff_clean: Option<bool>) -> (r: Option<bool>)
    ensures
        r == origin_verdict(known_files@, opt_string(*new_files), diff_clean),
{
    if trimmed(&chars_of(known_files)).len() == 0 {
        return Some(true);
    }
    match new_files {
        None => None,
        Some(u) => if trimmed(&chars_of(u.as_str())).len() > 0 {
            Some(true)
        } else {
            match diff_clean {
                None => None,
                Some(clean) => Some(!clean),
            }
        },
    }
}

/// The branch a host is pushed from: the flake's main branch, or master on
/// a repository that predates the rename.
pub open spec fn base_choice(has_main: bool, has_master: bool) -> Result<Seq<char>, Seq<char>> {
    if has_main {
        Ok("origin/main"@)
    } else if has_master {
        Ok("origin/master"@)
    } else {
        Err("neither origin/main nor origin/master exists"@)
    }
}

pub fn base_ref(has_main: bool, has_master: bool) -> (r: Result<String, String>)
    ensures
        crate::install::text_result(r) == base_choice(has_main, has_master),
{
    if has_main {
        Ok(string_of(&chars_of("origin/main")))
    } else if has_master {
        Ok(string_of(&chars_of("origin/master")))
    } else {
        Err(string_of(&chars_of("neither origin/main nor origin/master exists")))
    }
}

// ---------------------------------------------------------------- names

/// `hosts/<name>`.
pub open spec fn host_dir(name: Seq<char>) -> Seq<char> {
    "hosts/"@ + name
}

/// `host/<name>`: the branch a host is pushed on.
pub open spec fn host_branch(name: Seq<char>) -> Seq<char> {
    "host/"@ + name
}

pub fn host_dir_of(name: &str) -> (r: String)
    ensures
        r@ == host_dir(name@),
{
    let mut t = chars_of("hosts/");
    push_str(&mut t, name);
    string_of(&t)
}

pub fn host_branch_of(name: &str) -> (r: String)
    ensures
        r@ == host_branch(name@),
{
    let mut t = chars_of("host/");
    push_str(&mut t, name);
    string_of(&t)
}

/// The refspec that fetches the host branch by name, so the lease below has
/// something to compare against even in a shallow single-branch clone.
pub open spec fn branch_refspec(branch: Seq<char>) -> Seq<char> {
    "+refs/heads/"@ + branch + ":refs/remotes/origin/"@ + branch
}

pub fn branch_refspec_of(branch: &str) -> (r: String)
    ensures
        r@ == branch_refspec(branch@),
{
    let mut t = chars_of("+refs/heads/");
    push_str(&mut t, branch);
    push_str(&mut t, ":refs/remotes/origin/");
    push_str(&mut t, branch);
    string_of(&t)
}

/// The arguments of the push. The branch is regenerated each time, so it is
/// replaced rather than appended to - but only with a lease on the commit
/// just fetched, when there is one; a branch not on the remote is pushed
/// plainly, which still refuses a non-fast-forward.
pub open spec fn push_args_spec(branch: Seq<char>, lease: Option<Seq<char>>) -> Seq<Seq<char>> {
    let dest = "HEAD:refs/heads/"@ + branch;
    match lease {
        Some(sha) => seq!["push"@, "--force-with-lease=refs/heads/"@ + branch + ":"@ + trim(sha), "origin"@, dest],
        None => seq!["push"@, "origin"@, dest],
    }
}

pub fn push_args(branch: &str, lease: &Option<String>) -> (r: Vec<String>)
    ensures
        string_views(r@) == push_args_spec(branch@, opt_string(*lease)),
{
    let mut dest = chars_of("HEAD:refs/heads/");
    push_str(&mut dest, branch);
    let mut r: Vec<String> = Vec::new();
    r.push(string_of(&chars_of("push")));
    match lease {
        Some(sha) => {
            let mut l = chars_of("--force-with-lease=refs/heads/");
            push_str(&mut l, branch);
            push_str(&mut l, ":");
            push_all(&mut l, &trimmed(&chars_of(sha.as_str())));
            r.push(string_of(&l));
        },
        None => {},
    }
    r.push(string_of(&chars_of("origin")));
    r.push(string_of(&dest));
    assert(string_views(r@) =~= push_args_spec(branch@, opt_string(*lease)));
    r
}

/// The branch a pull request targets: the base without `origin/`.
pub open spec fn pr_target(base: Seq<char>) -> Seq<char> {
    if starts_with(base, "origin/"@) {
        base.skip(7)
    } else {
        base
    }
}

pub fn pr_target_of(base: &str) -> (r: String)
    ensures
        r@ == pr_target(base@),
{
    let v = chars_of(base);
    if has_prefix(&v, &chars_of("origin/")) {
        proof {
            reveal_strlit("origin/");
        }
        let t = slice_of(&v, 7, v.len());
        assert(t@ =~= base@.skip(7));
        string_of(&t)
    } else {
        string_of(&v)
    }
}

// ---------------------------------------------------------------- facts

/// The first line holding `p`.
pub open spec fn first_holding(ls: Seq<Seq<char>>, p: Seq<char>) -> Option<Seq<char>>
    decreases ls.len(),
{
    if ls.len() == 0 {
        None
    } else if contains(ls[0], p) {
        Some(ls[0])
    } else {
        first_holding(ls.drop_first(), p)
    }
}

/// The device a disk.nix names by id: the quoted text on the first line
/// mentioning /dev/disk/by-id/.
pub open spec fn disk_fact(disk_nix: Seq<char>) -> Option<Seq<char>> {
    match first_holding(lines(disk_nix), "/dev/disk/by-id/"@) {
        Some(l) => {
            let parts = split(l, '"');
            if parts.len() > 1 {
                Some(parts[1])
            } else {
                None
            }
        },
        None => None,
    }
}

/// The stable device named in a disk.nix.
pub fn disk_fact_of(disk_nix: &str) -> (r: Option<String>)
    ensures
        opt_string(r) == disk_fact(disk_nix@),
{
    let ls = lines_of(&chars_of(disk_nix));
    let p = chars_of("/dev/disk/by-id/");
    let mut i: usize = 0;
    assert(views(ls@).skip(0) =~= views(ls@));
    while i < ls.len()
        invariant
            i <= ls.len(),
            p@ == "/dev/disk/by-id/"@,
            views(ls@) == lines(disk_nix@),
            first_holding(lines(disk_nix@), p@) == first_holding(views(ls@).skip(i as int), p@),
        decreases ls.len() - i,
    {
        assert(views(ls@).skip(i as int)[0] == ls@[i as int]@);
        if has_sub(&ls[i], &p) {
            let parts = split_of(&ls[i], '"');
            if parts.len() > 1 {
                assert(views(parts@)[1] == parts@[1]@);
                return Some(string_of(&parts[1]));
            }
            return None;
        }
        assert(views(ls@).skip(i as int).drop_first() =~= views(ls@).skip(i + 1));
        i = i + 1;
    }
    assert(views(ls@).skip(i as int) =~= seq![]);
    None
}

/// What the machine is, so a pushed host can be reviewed without going to
/// look: its model when known, its architecture, and the disk its layout
/// names.
pub open spec fn facts(model: Option<Seq<char>>, arch: Seq<char>, disk_nix: Option<Seq<char>>) -> Seq<char> {
    let m = match model {
        Some(name) => seq!["- machine: "@ + name],
        None => seq![],
    };
    let d = match disk_nix {
        Some(text) => match disk_fact(text) {
            Some(dev) => seq!["- disk: "@ + dev],
            None => seq![],
        },
        None => seq![],
    };
    crate::text::join(m + seq!["- arch: "@ + arch] + d, "\n"@)
}

/// The facts line block for a commit message.
pub fn facts_of(model: &Option<String>, arch: &str, disk_nix: &Option<String>) -> (r: String)
    ensures
        r@ == facts(opt_string(*model), arch@, opt_string(*disk_nix)),
{
    let mut out: Vec<Vec<char>> = Vec::new();
    match model {
        Some(m) => {
            let mut l = chars_of("- machine: ");
            push_str(&mut l, m.as_str());
            out.push(l);
        },
        None => {},
    }
    let mut a = chars_of("- arch: ");
    push_str(&mut a, arch);
    out.push(a);
    match disk_nix {
        Some(text) => match disk_fact_of(text.as_str()) {
            Some(dev) => {
                let mut l = chars_of("- disk: ");
                push_str(&mut l, dev.as_str());
                out.push(l);
            },
            None => {},
        },
        None => {},
    }
    proof {
        let m = match opt_string(*model) {
            Some(name) => seq!["- machine: "@ + name],
            None => seq![],
        };
        let d = match opt_string(*disk_nix) {
            Some(text) => match disk_fact(text) {
                Some(dev) => seq!["- disk: "@ + dev],
                None => seq![],
            },
            None => seq![],
        };
        assert(views(out@) =~= m + seq!["- arch: "@ + arch@] + d);
    }
    string_of(&crate::text::joined(&out, &chars_of("\n")))
}

/// The commit message body of a pushed host.
pub open spec fn commit_body(facts: Seq<char>) -> Seq<char> {
    "Written by `kiwami install` on the machine itself and pushed with `kiwami host push`.\n\n"@ + facts
}

pub fn commit_body_of(facts: &str) -> (r: String)
    ensures
        r@ == commit_body(facts@),
{
    let mut t = chars_of(
        "Written by `kiwami install` on the machine itself and pushed with `kiwami host push`.\n\n",
    );
    push_str(&mut t, facts);
    string_of(&t)
}

// ---------------------------------------------------------------- push steps

/// Where a host push has got to.
#[derive(Clone, Copy, Debug)]
pub enum PushPhase {
    Start,
    Staging,
    Fetching,
    Committing,
    Pushing,
    Done,
}

/// What a host push knows between steps.
#[derive(Clone, Copy, Debug)]
pub struct PushState {
    pub phase: PushPhase,
    /// Stop after pushing, without opening a pull request.
    pub no_pr: bool,
    /// The host's branch already exists on origin.
    pub on_remote: bool,
}

/// What a push step found.
pub enum PushEvent {
    Began,
    /// The host directory was staged on a fresh tree from the base branch;
    /// whether that changed anything.
    Staged { changed: bool },
    /// The host's branch was fetched, if it exists on origin, and whether it
    /// already holds exactly what was staged.
    Fetched { on_remote: bool, same: bool },
    /// Committed; the commit origin's branch points at, when it was read.
    Committed { lease: Option<String> },
    Pushed,
}

/// Why a push stops before a pull request.
pub enum PushStop {
    /// The base branch already has exactly this.
    NothingToPush,
    /// The host's branch already carries exactly this: its pull request is
    /// open.
    BranchCarriesIt,
    /// Pushed, with no pull request asked for.
    PushedWithoutPr,
    OutOfStep,
}

/// The next thing a push does.
pub enum PushAction {
    /// Copy the host directory onto the fresh tree and stage it.
    Stage,
    /// Fetch the host's branch and compare it with what was staged.
    Fetch,
    /// Commit, reading the commit origin's branch points at when asked.
    Commit { read_lease: bool },
    /// Push the branch, with a lease on that commit when there is one.
    Push { lease: Option<String> },
    OpenPr,
    Stop(PushStop),
}

pub open spec fn push_start_state(no_pr: bool) -> PushState {
    PushState { phase: PushPhase::Start, no_pr, on_remote: false }
}

/// The step a push takes from `s` on `e`.
pub open spec fn push_next(s: PushState, e: PushEvent) -> (PushState, PushAction) {
    let done = PushState { phase: PushPhase::Done, ..s };
    match (s.phase, e) {
        (PushPhase::Start, PushEvent::Began) => (PushState { phase: PushPhase::Staging, ..s }, PushAction::Stage),
        (PushPhase::Staging, PushEvent::Staged { changed }) => if changed {
            (PushState { phase: PushPhase::Fetching, ..s }, PushAction::Fetch)
        } else {
            (done, PushAction::Stop(PushStop::NothingToPush))
        },
        (PushPhase::Fetching, PushEvent::Fetched { on_remote, same }) => if on_remote && same {
            (done, PushAction::Stop(PushStop::BranchCarriesIt))
        } else {
            (
                PushState { phase: PushPhase::Committing, on_remote, ..s },
                PushAction::Commit { read_lease: on_remote },
            )
        },
        (PushPhase::Committing, PushEvent::Committed { lease }) => (
            PushState { phase: PushPhase::Pushing, ..s },
            PushAction::Push { lease: if s.on_remote { lease } else { None } },
        ),
        (PushPhase::Pushing, PushEvent::Pushed) => if s.no_pr {
            (done, PushAction::Stop(PushStop::PushedWithoutPr))
        } else {
            (done, PushAction::OpenPr)
        },
        _ => (done, PushAction::Stop(PushStop::OutOfStep)),
    }
}

/// The state a push starts in.
pub fn push_start(no_pr: bool) -> (s: PushState)
    ensures
        s == push_start_state(no_pr),
{
    PushState { phase: PushPhase::Start, no_pr, on_remote: false }
}

/// One step of a host push. Nothing is pushed unless staging changed
/// something and the host's branch does not already carry it; the push
/// leases the branch only when it was fetched from origin; and a pull
/// request is opened only when one is wanted, after the push.
pub fn push_step(s: PushState, e: PushEvent) -> (r: (PushState, PushAction))
    ensures
        r == push_next(s, e),
        r.1 is Push ==> s.phase is Committing,
        (r.1 matches PushAction::Push { lease } && lease is Some) ==> s.on_remote,
        r.1 is OpenPr ==> !s.no_pr && s.phase is Pushing,
{
    let done = PushState { phase: PushPhase::Done, ..s };
    match s.phase {
        PushPhase::Start => match e {
            PushEvent::Began => (PushState { phase: PushPhase::Staging, ..s }, PushAction::Stage),
            _ => (done, PushAction::Stop(PushStop::OutOfStep)),
        },
        PushPhase::Staging => match e {
            PushEvent::Staged { changed } => {
                if changed {
                    (PushState { phase: PushPhase::Fetching, ..s }, PushAction::Fetch)
                } else {
                    (done, PushAction::Stop(PushStop::NothingToPush))
                }
            },
            _ => (done, PushAction::Stop(PushStop::OutOfStep)),
        },
        PushPhase::Fetching => match e {
            PushEvent::Fetched { on_remote, same } => {
                if on_remote && same {
                    (done, PushAction::Stop(PushStop::BranchCarriesIt))
                } else {
                    (
                        PushState { phase: PushPhase::Committing, on_remote, ..s },
                        PushAction::Commit { read_lease: on_remote },
                    )
                }
            },
            _ => (done, PushAction::Stop(PushStop::OutOfStep)),
        },
        PushPhase::Committing => match e {
            PushEvent::Committed { lease } => {
                let lease = if s.on_remote {
                    lease
                } else {
                    None
                };
                (PushState { phase: PushPhase::Pushing, ..s }, PushAction::Push { lease })
            },
            _ => (done, PushAction::Stop(PushStop::OutOfStep)),
        },
        PushPhase::Pushing => match e {
            PushEvent::Pushed => {
                if s.no_pr {
                    (done, PushAction::Stop(PushStop::PushedWithoutPr))
                } else {
                    (done, PushAction::OpenPr)
                }
            },
            _ => (done, PushAction::Stop(PushStop::OutOfStep)),
        },
        PushPhase::Done => (done, PushAction::Stop(PushStop::OutOfStep)),
    }
}

// ---------------------------------------------------------------- slug law

/// No `/` anywhere in `s`.
pub open spec fn slash_free(s: Seq<char>) -> bool {
    forall|i: int| 0 <= i < s.len() ==> s[i] != '/'
}

proof fn lemma_split_pair(o: Seq<char>, r: Seq<char>)
    requires
        slash_free(o),
        slash_free(r),
    ensures
        split(o + "/"@ + r, '/') == seq![o, r],
{
    reveal_strlit("/");
    let x = o + "/"@ + r;
    assert(x[o.len() as int] == '/');
    assert forall|j: int| 0 <= j < o.len() implies x[j] != '/' by {
        assert(x[j] == o[j]);
    }
    crate::text::lemma_find_char_is(x, '/', o.len() as int);
    assert(x.subrange(0, o.len() as int) =~= o);
    assert(x.subrange(o.len() as int + 1, x.len() as int) =~= r);
    crate::text::lemma_find_char_is(r, '/', r.len() as int);
    assert(split(r, '/') == seq![r]);
    assert(split(x, '/') =~= seq![o] + seq![r]);
}

proof fn lemma_count_pair(o: Seq<char>, r: Seq<char>)
    requires
        o.len() > 0,
        r.len() > 0,
    ensures
        nonempty_count(seq![o, r]) == 2,
{
    reveal_with_fuel(nonempty_count, 3);
    let p = seq![o, r];
    assert(p.drop_last() =~= seq![o]);
    assert(seq![o].drop_last() =~= Seq::<Seq<char>>::empty());
}

/// `o/r` does not end in `.git` when `r` does not and holds no `/`.
proof fn lemma_not_git(o: Seq<char>, r: Seq<char>)
    requires
        slash_free(r),
        !ends_with(r, ".git"@),
    ensures
        !ends_with(o + "/"@ + r, ".git"@),
{
    reveal_strlit(".git");
    reveal_strlit("/");
    let x = o + "/"@ + r;
    if ends_with(x, ".git"@) {
        if r.len() >= 4 {
            assert(r.subrange(r.len() - 4, r.len() as int) =~= x.subrange(x.len() - 4, x.len() as int));
        } else {
            let k = 3 - r.len();
            assert(x.subrange(x.len() - 4, x.len() as int)[k] == x[x.len() - 4 + k]);
            assert(x[o.len() as int] == '/');
            assert(".git"@[k] != '/');
        }
    }
}

proof fn lemma_after_https(t: Seq<char>)
    ensures
        after_github("https://github.com/"@ + t) == Some(t),
{
    reveal_strlit("https://github.com/");
    reveal_strlit("git@github.com:");
    let u = "https://github.com/"@ + t;
    assert(u[0] == 'h');
    assert(u.subrange(0, 19) =~= "https://github.com/"@);
    assert(u.skip(19) =~= t);
}

proof fn lemma_after_scp(t: Seq<char>)
    ensures
        after_github("git@github.com:"@ + t) == Some(t),
{
    reveal_strlit("git@github.com:");
    let u = "git@github.com:"@ + t;
    assert(u.subrange(0, 15) =~= "git@github.com:"@);
    assert(u.skip(15) =~= t);
}

proof fn lemma_after_ssh(t: Seq<char>)
    ensures
        after_github("ssh://git@github.com/"@ + t) == Some(t),
{
    reveal_strlit("https://github.com/");
    reveal_strlit("git@github.com:");
    reveal_strlit("ssh://git@github.com/");
    let u = "ssh://git@github.com/"@ + t;
    assert(u[0] == 's');
    assert(u.subrange(0, 21) =~= "ssh://git@github.com/"@);
    assert(u.skip(21) =~= t);
}

/// What is left of a remote's path once trailing slashes and `.git` go.
pub open spec fn cleaned(t: Seq<char>) -> Seq<char> {
    strip_git_suffix(strip_trailing_slashes(t))
}

proof fn lemma_cleaned(o: Seq<char>, r: Seq<char>)
    requires
        r.len() > 0,
        slash_free(r),
        !ends_with(r, ".git"@),
    ensures
        cleaned(o + "/"@ + r) == o + "/"@ + r,
        cleaned(o + "/"@ + r + ".git"@) == o + "/"@ + r,
        cleaned(o + "/"@ + r + "/"@) == o + "/"@ + r,
{
    reveal_strlit(".git");
    reveal_strlit("/");
    let x = o + "/"@ + r;
    lemma_not_git(o, r);
    assert(x.last() == r.last());
    assert(strip_trailing_slashes(x) == x);
    assert(strip_git_suffix(x) == x);
    let xg = x + ".git"@;
    assert(xg.last() == 't');
    assert(strip_trailing_slashes(xg) == xg);
    assert(xg.take(xg.len() - 4) =~= x);
    assert(xg.subrange(xg.len() - 4, xg.len() as int) =~= ".git"@);
    assert(strip_git_suffix(xg) == strip_git_suffix(x));
    let xs = x + "/"@;
    assert(xs.drop_last() =~= x);
    assert(strip_trailing_slashes(xs) == strip_trailing_slashes(x));
}

proof fn lemma_slug_from(url: Seq<char>, t: Seq<char>, x: Seq<char>)
    requires
        after_github(url) == Some(t),
        cleaned(t) == x,
        nonempty_count(split(x, '/')) == 2,
    ensures
        slug_of(url) == Some(x),
{
}

/// A GitHub remote naming exactly `owner/repo` gives the slug `owner/repo`:
/// the text after the GitHub host, with only trailing slashes and a trailing
/// `.git` taken off - everything else in the repository's name, dots
/// included, is kept. All three remote forms, with or without `.git`.
#[verifier::spinoff_prover]
pub proof fn law_slug_keeps_the_name(o: Seq<char>, r: Seq<char>)
    requires
        o.len() > 0,
        r.len() > 0,
        slash_free(o),
        slash_free(r),
        !ends_with(r, ".git"@),
    ensures
        slug_of("https://github.com/"@ + (o + "/"@ + r)) == Some(o + "/"@ + r),
        slug_of("https://github.com/"@ + (o + "/"@ + r + ".git"@)) == Some(o + "/"@ + r),
        slug_of("https://github.com/"@ + (o + "/"@ + r + "/"@)) == Some(o + "/"@ + r),
        slug_of("git@github.com:"@ + (o + "/"@ + r)) == Some(o + "/"@ + r),
        slug_of("git@github.com:"@ + (o + "/"@ + r + ".git"@)) == Some(o + "/"@ + r),
        slug_of("ssh://git@github.com/"@ + (o + "/"@ + r + ".git"@)) == Some(o + "/"@ + r),
{
    let x = o + "/"@ + r;
    lemma_split_pair(o, r);
    lemma_count_pair(o, r);
    lemma_cleaned(o, r);
    lemma_after_https(x);
    lemma_slug_from("https://github.com/"@ + x, x, x);
    lemma_after_https(x + ".git"@);
    lemma_slug_from("https://github.com/"@ + (x + ".git"@), x + ".git"@, x);
    lemma_after_https(x + "/"@);
    lemma_slug_from("https://github.com/"@ + (x + "/"@), x + "/"@, x);
    lemma_after_scp(x);
    lemma_slug_from("git@github.com:"@ + x, x, x);
    lemma_after_scp(x + ".git"@);
    lemma_slug_from("git@github.com:"@ + (x + ".git"@), x + ".git"@, x);
    lemma_after_ssh(x + ".git"@);
    lemma_slug_from("ssh://git@github.com/"@ + (x + ".git"@), x + ".git"@, x);
}

} // verus!
