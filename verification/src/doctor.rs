//! `kiwami doctor`: what drifted, and whether what is declared works.
//!
//! Each check reads something from the machine and then decides. The reading
//! is the command-line tool's business; the deciding lives here, as functions
//! from what was read to a [`Finding`].

use vstd::prelude::*;

use crate::order::{sort_texts, sorted_texts};
use crate::text::string_views;
use crate::text::{
    chars_of, copy_of, decimal, decimal_of, find, find_char, join, joined, lines, lines_of,
    push_all, push_str, rfind, rfind_char, slice_of, string_of, trim, trim_end, trimmed, views,
    words, words_of,
};

verus! {

/// How a check came out.
#[derive(PartialEq, Eq, Structural, Clone, Copy, Debug)]
pub enum Level {
    Pass,
    Warn,
    Fail,
    /// Not applicable here - e.g. a session check run over SSH. Skipped is not
    /// a failure; reporting it as one trains people to ignore the output.
    Skip,
}

/// The outcome of one check: a level, a one-line title, and optionally more
/// detail and what to do about it.
pub struct Finding {
    level: Level,
    title: String,
    detail: Option<String>,
    remedy: Option<String>,
}

/// A finding as text.
pub struct FindingView {
    pub level: Level,
    pub title: Seq<char>,
    pub detail: Option<Seq<char>>,
    pub remedy: Option<Seq<char>>,
}

pub open spec fn opt_view(o: Option<String>) -> Option<Seq<char>> {
    match o {
        Some(s) => Some(s@),
        None => None,
    }
}

impl View for Finding {
    type V = FindingView;

    closed spec fn view(&self) -> FindingView {
        FindingView {
            level: self.level,
            title: self.title@,
            detail: opt_view(self.detail),
            remedy: opt_view(self.remedy),
        }
    }
}

/// A finding with a title and nothing more.
pub open spec fn bare(level: Level, title: Seq<char>) -> FindingView {
    FindingView { level, title, detail: None, remedy: None }
}

/// A finding with detail and no remedy.
pub open spec fn with_detail(level: Level, title: Seq<char>, detail: Seq<char>) -> FindingView {
    FindingView { level, title, detail: Some(detail), remedy: None }
}

/// A finding with a remedy and no detail.
pub open spec fn with_remedy(level: Level, title: Seq<char>, remedy: Seq<char>) -> FindingView {
    FindingView { level, title, detail: None, remedy: Some(remedy) }
}

/// A finding with both.
pub open spec fn full(level: Level, title: Seq<char>, detail: Seq<char>, remedy: Seq<char>) -> FindingView {
    FindingView { level, title, detail: Some(detail), remedy: Some(remedy) }
}

impl Finding {
    pub fn new(level: Level, title: String) -> (f: Finding)
        ensures
            f@ == bare(level, title@),
    {
        Finding { level, title, detail: None, remedy: None }
    }

    /// The same finding, with this detail.
    pub fn detail(self, d: String) -> (f: Finding)
        ensures
            f@ == (FindingView { detail: Some(d@), ..self@ }),
    {
        Finding { detail: Some(d), ..self }
    }

    /// The same finding, with this remedy.
    pub fn remedy(self, r: String) -> (f: Finding)
        ensures
            f@ == (FindingView { remedy: Some(r@), ..self@ }),
    {
        Finding { remedy: Some(r), ..self }
    }

    pub fn level(&self) -> (l: Level)
        ensures
            l == self@.level,
    {
        self.level
    }
}

// ---------------------------------------------------------------- display

pub open spec fn mark(l: Level) -> Seq<char> {
    match l {
        Level::Pass => "\u{2714}"@,
        Level::Warn => "\u{26A0}"@,
        Level::Fail => "\u{2718}"@,
        Level::Skip => "\u{2013}"@,
    }
}

pub open spec fn colour(l: Level) -> Seq<char> {
    match l {
        Level::Pass => "\x1b[32m"@,
        Level::Warn => "\x1b[33m"@,
        Level::Fail => "\x1b[31m"@,
        Level::Skip => "\x1b[90m"@,
    }
}

/// Each line of the detail, indented and greyed, on a line of its own.
pub open spec fn detail_block(ls: Seq<Seq<char>>) -> Seq<char>
    decreases ls.len(),
{
    if ls.len() == 0 {
        seq![]
    } else {
        detail_block(ls.drop_last()) + "\n      \x1b[90m"@ + ls.last() + "\x1b[0m"@
    }
}

/// How a finding is shown: mark and title, the detail's lines, the remedy.
pub open spec fn rendered(f: FindingView) -> Seq<char> {
    "  "@ + colour(f.level) + mark(f.level) + "\x1b[0m "@ + f.title + match f.detail {
        Some(d) => detail_block(lines(d)),
        None => seq![],
    } + match f.remedy {
        Some(r) => "\n      \x1b[36m\u{2192} "@ + r + "\x1b[0m"@,
        None => seq![],
    }
}

fn mark_of(l: Level) -> (r: Vec<char>)
    ensures
        r@ == mark(l),
{
    match l {
        Level::Pass => chars_of("\u{2714}"),
        Level::Warn => chars_of("\u{26A0}"),
        Level::Fail => chars_of("\u{2718}"),
        Level::Skip => chars_of("\u{2013}"),
    }
}

fn colour_of(l: Level) -> (r: Vec<char>)
    ensures
        r@ == colour(l),
{
    match l {
        Level::Pass => chars_of("\x1b[32m"),
        Level::Warn => chars_of("\x1b[33m"),
        Level::Fail => chars_of("\x1b[31m"),
        Level::Skip => chars_of("\x1b[90m"),
    }
}

impl Finding {
    /// The finding as the report prints it: a coloured mark and the title,
    /// then each line of detail, then the remedy.
    pub fn render(&self) -> (s: String)
        ensures
            s@ == rendered(self@),
    {
        let mut out = chars_of("  ");
        push_all(&mut out, &colour_of(self.level));
        push_all(&mut out, &mark_of(self.level));
        push_str(&mut out, "\x1b[0m ");
        push_str(&mut out, self.title.as_str());
        let ghost head = out@;
        match &self.detail {
            Some(d) => {
                let ls = lines_of(&chars_of(d.as_str()));
                let mut i: usize = 0;
                assert(views(ls@).take(0) =~= seq![]);
                while i < ls.len()
                    invariant
                        i <= ls.len(),
                        out@ == head + detail_block(views(ls@).take(i as int)),
                    decreases ls.len() - i,
                {
                    push_str(&mut out, "\n      \x1b[90m");
                    push_all(&mut out, &ls[i]);
                    push_str(&mut out, "\x1b[0m");
                    assert(views(ls@).take(i + 1).drop_last() =~= views(ls@).take(i as int));
                    i = i + 1;
                }
                assert(views(ls@).take(ls.len() as int) =~= views(ls@));
            },
            None => {
                assert(out@ =~= head + seq![]);
            },
        }
        let ghost mid = out@;
        match &self.remedy {
            Some(r) => {
                push_str(&mut out, "\n      \x1b[36m\u{2192} ");
                push_str(&mut out, r.as_str());
                push_str(&mut out, "\x1b[0m");
            },
            None => {
                assert(out@ =~= mid + seq![]);
            },
        }
        string_of(&out)
    }
}


// ---------------------------------------------------------------- helpers

/// How many lines hold something other than whitespace.
pub open spec fn nonblank_count(ls: Seq<Seq<char>>) -> nat
    decreases ls.len(),
{
    if ls.len() == 0 {
        0
    } else {
        nonblank_count(ls.drop_last()) + if trim(ls.last()).len() > 0 {
            1nat
        } else {
            0nat
        }
    }
}

/// `text.lines().filter(|l| !l.trim().is_empty()).count()`.
pub fn count_nonblank_lines(text: &str) -> (n: usize)
    ensures
        n == nonblank_count(lines(text@)),
{
    let ls = lines_of(&chars_of(text));
    let mut n: usize = 0;
    let mut i: usize = 0;
    while i < ls.len()
        invariant
            i <= ls.len(),
            n <= i,
            n == nonblank_count(views(ls@).take(i as int)),
        decreases ls.len() - i,
    {
        assert(views(ls@).take(i + 1).drop_last() =~= views(ls@).take(i as int));
        if trimmed(&ls[i]).len() > 0 {
            n = n + 1;
        }
        i = i + 1;
    }
    assert(views(ls@).take(ls.len() as int) =~= views(ls@));
    n
}

fn text_from(v: Vec<char>) -> (s: String)
    ensures
        s@ == v@,
{
    string_of(&v)
}

fn owned(s: &str) -> (r: String)
    ensures
        r@ == s@,
{
    s.to_owned()
}

fn trimmed_string(s: &str) -> (r: String)
    ensures
        r@ == trim(s@),
{
    text_from(trimmed(&chars_of(s)))
}

// ---------------------------------------------------------------- drift

/// The shape shared by the checks that list what is wrong: nothing to ask,
/// nothing listed, or a listing.
pub open spec fn listing_outcome(
    reply: Option<Seq<char>>,
    skip: Seq<char>,
    ok: Seq<char>,
    fail: Seq<char>,
    remedy: Seq<char>,
) -> FindingView {
    match reply {
        None => bare(Level::Skip, skip),
        Some(o) => if trim(o).len() == 0 {
            bare(Level::Pass, ok)
        } else {
            full(Level::Fail, fail, trim(o), remedy)
        },
    }
}

fn listing_finding(reply: Option<String>, skip: &str, ok: &str, fail: &str, remedy: &str) -> (f:
    Finding)
    ensures
        f@ == listing_outcome(opt_view(reply), skip@, ok@, fail@, remedy@),
{
    match reply {
        None => Finding::new(Level::Skip, owned(skip)),
        Some(o) => {
            let t = trimmed_string(o.as_str());
            if t.as_str().is_empty() {
                Finding::new(Level::Pass, owned(ok))
            } else {
                Finding::new(Level::Fail, owned(fail)).detail(t).remedy(owned(remedy))
            }
        },
    }
}

pub open spec fn nix_profile_outcome(reply: Option<Seq<char>>) -> FindingView {
    match reply {
        None => bare(Level::Skip, "nix profile unavailable"@),
        Some(o) => if trim(o).len() == 0 {
            bare(Level::Pass, "no imperative nix profile installs"@)
        } else {
            full(
                Level::Fail,
                decimal(nonblank_count(lines(o))) + " package(s) installed imperatively"@,
                trim(o),
                "declare them in the flake, then: nix profile remove --all"@,
            )
        },
    }
}

/// Packages installed into a nix profile by hand, from `nix profile list`
/// (`None` when it could not be run).
pub fn nix_profile_finding(reply: Option<String>) -> (f: Finding)
    ensures
        f@ == nix_profile_outcome(opt_view(reply)),
{
    match reply {
        None => Finding::new(Level::Skip, owned("nix profile unavailable")),
        Some(o) => {
            let t = trimmed_string(o.as_str());
            if t.as_str().is_empty() {
                Finding::new(Level::Pass, owned("no imperative nix profile installs"))
            } else {
                let n = count_nonblank_lines(o.as_str());
                let mut title = decimal_of(n as u64);
                push_str(&mut title, " package(s) installed imperatively");
                Finding::new(Level::Fail, text_from(title)).detail(t).remedy(
                    owned("declare them in the flake, then: nix profile remove --all"),
                )
            }
        },
    }
}

/// Packages installed with `nix-env`, from `nix-env -q`.
pub fn nix_env_finding(reply: Option<String>) -> (f: Finding)
    ensures
        f@ == listing_outcome(
            opt_view(reply),
            "nix-env unavailable"@,
            "nix-env profile empty"@,
            "packages installed with nix-env"@,
            "nix-env -e '*' once they are in the flake"@,
        ),
{
    listing_finding(
        reply,
        "nix-env unavailable",
        "nix-env profile empty",
        "packages installed with nix-env",
        "nix-env -e '*' once they are in the flake",
    )
}

/// The lines a language package manager lists that are installs: not
/// blank, and not the `.../lib` prefix line npm always prints.
pub open spec fn manager_items(ls: Seq<Seq<char>>) -> Seq<Seq<char>>
    decreases ls.len(),
{
    if ls.len() == 0 {
        seq![]
    } else {
        let rest = manager_items(ls.drop_last());
        let l = ls.last();
        if trim(l).len() > 0 && !crate::text::ends_with(l, "/lib"@) {
            rest.push(l)
        } else {
            rest
        }
    }
}

pub open spec fn language_manager_outcome(label: Seq<char>, reply: Option<Seq<char>>) -> FindingView {
    match reply {
        None => bare(Level::Skip, label + " not queryable"@),
        Some(o) => {
            let items = manager_items(lines(o));
            if items.len() == 0 {
                bare(Level::Pass, "no "@ + label + " installs"@)
            } else {
                full(
                    Level::Warn,
                    decimal(items.len()) + " "@ + label + " install(s)"@,
                    crate::text::join(items, "\n"@),
                    "fine for throwaway tools; package anything you rely on"@,
                )
            }
        },
    }
}

/// Global installs of one language's package manager (`npm -g`, `cargo
/// install`, `pipx`), from its listing.
pub fn language_manager_finding(label: &str, reply: Option<String>) -> (f: Finding)
    ensures
        f@ == language_manager_outcome(label@, opt_view(reply)),
{
    let mut none_title = chars_of(label);
    match reply {
        None => {
            push_str(&mut none_title, " not queryable");
            Finding::new(Level::Skip, text_from(none_title))
        },
        Some(o) => {
            let ls = lines_of(&chars_of(o.as_str()));
            let lib = chars_of("/lib");
            let mut items: Vec<Vec<char>> = Vec::new();
            let mut i: usize = 0;
            assert(views(ls@).take(0) =~= seq![]);
            assert(views(items@) =~= seq![]);
            while i < ls.len()
                invariant
                    i <= ls.len(),
                    lib@ == "/lib"@,
                    views(items@) == manager_items(views(ls@).take(i as int)),
                decreases ls.len() - i,
            {
                assert(views(ls@).take(i + 1).drop_last() =~= views(ls@).take(i as int));
                let ghost before = views(items@);
                if trimmed(&ls[i]).len() > 0 && !crate::text::has_suffix(&ls[i], &lib) {
                    items.push(crate::text::copy_of(&ls[i]));
                    assert(views(items@) =~= before.push(views(ls@)[i as int]));
                }
                i = i + 1;
            }
            assert(views(ls@).take(ls.len() as int) =~= views(ls@));
            if items.len() == 0 {
                let mut title = chars_of("no ");
                push_str(&mut title, label);
                push_str(&mut title, " installs");
                Finding::new(Level::Pass, text_from(title))
            } else {
                let mut title = decimal_of(items.len() as u64);
                push_str(&mut title, " ");
                push_str(&mut title, label);
                push_str(&mut title, " install(s)");
                let detail = crate::text::joined(&items, &chars_of("\n"));
                Finding::new(Level::Warn, text_from(title)).detail(text_from(detail)).remedy(
                    owned("fine for throwaway tools; package anything you rely on"),
                )
            }
        },
    }
}

// ---------------------------------------------------------------- health

/// Failed system units, from `systemctl --failed`.
pub fn failed_units_finding(reply: Option<String>) -> (f: Finding)
    ensures
        f@ == listing_outcome(
            opt_view(reply),
            "systemctl unavailable"@,
            "no failed system units"@,
            "failed system units"@,
            "systemctl status <unit>"@,
        ),
{
    listing_finding(
        reply,
        "systemctl unavailable",
        "no failed system units",
        "failed system units",
        "systemctl status <unit>",
    )
}

/// Failed units of the user's manager.
pub fn failed_user_units_finding(reply: Option<String>) -> (f: Finding)
    ensures
        f@ == listing_outcome(
            opt_view(reply),
            "user manager unavailable"@,
            "no failed user units"@,
            "failed user units"@,
            "systemctl --user status <unit>"@,
        ),
{
    listing_finding(
        reply,
        "user manager unavailable",
        "no failed user units",
        "failed user units",
        "systemctl --user status <unit>",
    )
}

/// The user manager's environment names a Wayland display.
pub fn session_env_has_wayland(reply: Option<String>) -> (r: bool)
    ensures
        r == match reply {
            Some(e) => crate::text::contains(e@, "WAYLAND_DISPLAY="@),
            None => false,
        },
{
    match reply {
        Some(e) => crate::text::has_sub(&chars_of(e.as_str()), &chars_of("WAYLAND_DISPLAY=")),
        None => false,
    }
}

pub open spec fn graphical_session_outcome(
    active_reply: Option<Seq<char>>,
    display_set: bool,
    env_has_wayland: bool,
) -> FindingView {
    let active = match active_reply {
        Some(a) => trim(a) == "active"@,
        None => false,
    };
    if active {
        bare(Level::Pass, "graphical-session.target active"@)
    } else if !display_set && !env_has_wayland {
        bare(Level::Skip, "no graphical session here"@)
    } else {
        full(
            Level::Fail,
            "graphical-session.target inactive"@,
            "units bound to it never start, silently"@,
            "check that the session launches via uwsm"@,
        )
    }
}

/// Whether the graphical session target is up, from `systemctl --user
/// is-active graphical-session.target`, whether `WAYLAND_DISPLAY` is set, and
/// whether the user manager's environment has one.
pub fn graphical_session_finding(
    active_reply: Option<String>,
    display_set: bool,
    env_has_wayland: bool,
) -> (f: Finding)
    ensures
        f@ == graphical_session_outcome(opt_view(active_reply), display_set, env_has_wayland),
{
    let active = match &active_reply {
        Some(a) => crate::text::same(&trimmed(&chars_of(a.as_str())), &chars_of("active")),
        None => false,
    };
    if active {
        Finding::new(Level::Pass, owned("graphical-session.target active"))
    } else if !display_set && !env_has_wayland {
        Finding::new(Level::Skip, owned("no graphical session here"))
    } else {
        Finding::new(Level::Fail, owned("graphical-session.target inactive")).detail(
            owned("units bound to it never start, silently"),
        ).remedy(owned("check that the session launches via uwsm"))
    }
}

/// The shell unit's state: the trimmed reply of `systemctl --user is-active`,
/// or nothing.
pub fn shell_state(reply: Option<String>) -> (s: String)
    ensures
        s@ == match reply {
            Some(r) => trim(r@),
            None => seq![],
        },
{
    match reply {
        Some(r) => trimmed_string(r.as_str()),
        None => String::new(),
    }
}

/// The shell is not running at all.
pub fn shell_is_down(state: &str) -> (r: bool)
    ensures
        r == (state@.len() == 0 || state@ == "inactive"@),
{
    let v = chars_of(state);
    v.len() == 0 || crate::text::same(&v, &chars_of("inactive"))
}

/// What to say when the shell is not running.
pub fn shell_down_finding(env_has_wayland: bool) -> (f: Finding)
    ensures
        f@ == if !env_has_wayland {
            bare(Level::Skip, "shell not running (no graphical session)"@)
        } else {
            with_remedy(
                Level::Fail,
                "kiwami-shell is not running"@,
                "systemctl --user start kiwami-shell"@,
            )
        },
{
    if !env_has_wayland {
        Finding::new(Level::Skip, owned("shell not running (no graphical session)"))
    } else {
        Finding::new(Level::Fail, owned("kiwami-shell is not running")).remedy(
            owned("systemctl --user start kiwami-shell"),
        )
    }
}

/// The restart count `systemctl show -p NRestarts --value` reports, or 0.
pub fn restarts_of(reply: Option<String>) -> (n: u32)
    ensures
        n == match reply {
            Some(r) => match crate::text::parse_unsigned(trim(r@), u32::MAX as nat) {
                Some(v) => v,
                None => 0,
            },
            None => 0,
        },
{
    match reply {
        Some(r) => match crate::text::parse_unsigned_of(&trimmed(&chars_of(r.as_str())), 0xffff_ffff) {
            Some(v) => v as u32,
            None => 0,
        },
        None => 0,
    }
}

pub open spec fn shell_up_outcome(state: Seq<char>, restarts: u32) -> FindingView {
    if restarts > 5 {
        full(
            Level::Fail,
            "kiwami-shell has restarted "@ + decimal(restarts as nat) + " times"@,
            "it is running, but crashing and being restarted"@,
            "journalctl --user -u kiwami-shell -n 50"@,
        )
    } else if state == "active"@ {
        bare(Level::Pass, "kiwami-shell active ("@ + decimal(restarts as nat) + " restarts)"@)
    } else {
        bare(Level::Warn, "kiwami-shell is "@ + state)
    }
}

/// The shell is running: a flapping unit is active often enough to look fine,
/// so the restart count decides.
pub fn shell_up_finding(state: &str, restarts: u32) -> (f: Finding)
    ensures
        f@ == shell_up_outcome(state@, restarts),
{
    let n = decimal_of(restarts as u64);
    if restarts > 5 {
        let mut title = chars_of("kiwami-shell has restarted ");
        push_all(&mut title, &n);
        push_str(&mut title, " times");
        Finding::new(Level::Fail, text_from(title)).detail(
            owned("it is running, but crashing and being restarted"),
        ).remedy(owned("journalctl --user -u kiwami-shell -n 50"))
    } else if crate::text::same(&chars_of(state), &chars_of("active")) {
        let mut title = chars_of("kiwami-shell active (");
        push_all(&mut title, &n);
        push_str(&mut title, " restarts)");
        Finding::new(Level::Pass, text_from(title))
    } else {
        let mut title = chars_of("kiwami-shell is ");
        push_str(&mut title, state);
        Finding::new(Level::Warn, text_from(title))
    }
}

pub open spec fn theme_outcome(name: Option<Seq<char>>, generated: bool) -> FindingView {
    match name {
        Some(n) => if generated {
            bare(Level::Pass, "theme '"@ + n + "' applied"@)
        } else {
            with_remedy(
                Level::Fail,
                "theme '"@ + n + "' recorded but not generated"@,
                "kiwami theme set"@,
            )
        },
        None => full(
            Level::Fail,
            "no theme applied"@,
            "everything renders on fallback colours"@,
            "kiwami theme set kiwami"@,
        ),
    }
}

/// Whether a theme is applied: its recorded name, and whether its colours
/// were generated.
pub fn theme_finding(name: Option<String>, generated: bool) -> (f: Finding)
    ensures
        f@ == theme_outcome(opt_view(name), generated),
{
    match name {
        Some(n) => {
            let mut title = chars_of("theme '");
            push_str(&mut title, n.as_str());
            if generated {
                push_str(&mut title, "' applied");
                Finding::new(Level::Pass, text_from(title))
            } else {
                push_str(&mut title, "' recorded but not generated");
                Finding::new(Level::Fail, text_from(title)).remedy(owned("kiwami theme set"))
            }
        },
        None => Finding::new(Level::Fail, owned("no theme applied")).detail(
            owned("everything renders on fallback colours"),
        ).remedy(owned("kiwami theme set kiwami")),
    }
}

// ---------------------------------------------------------------- hygiene

pub open spec fn generations_outcome(reply: Option<Seq<char>>) -> FindingView {
    let count = match reply {
        Some(o) => nonblank_count(lines(o)),
        None => 0,
    };
    if count == 0 {
        bare(Level::Skip, "generations not readable (needs root)"@)
    } else if count > 10 {
        with_remedy(
            Level::Warn,
            decimal(count) + " system generations"@,
            "sudo nix-collect-garbage --delete-older-than 14d"@,
        )
    } else {
        bare(Level::Pass, decimal(count) + " system generations"@)
    }
}

/// How many system generations are kept, from `nix-env --list-generations`.
pub fn generations_finding(reply: Option<String>) -> (f: Finding)
    ensures
        f@ == generations_outcome(opt_view(reply)),
{
    let count = match &reply {
        Some(o) => count_nonblank_lines(o.as_str()),
        None => 0,
    };
    if count == 0 {
        return Finding::new(Level::Skip, owned("generations not readable (needs root)"));
    }
    let mut title = decimal_of(count as u64);
    push_str(&mut title, " system generations");
    if count > 10 {
        Finding::new(Level::Warn, text_from(title)).remedy(
            owned("sudo nix-collect-garbage --delete-older-than 14d"),
        )
    } else {
        Finding::new(Level::Pass, text_from(title))
    }
}

/// How old `flake.lock` is, in whole days.
pub fn lock_age_finding(days: u64) -> (f: Finding)
    ensures
        f@ == if days > 30 {
            with_remedy(
                Level::Warn,
                "flake.lock is "@ + decimal(days as nat) + " days old"@,
                "nix flake update"@,
            )
        } else {
            bare(Level::Pass, "flake.lock is "@ + decimal(days as nat) + " days old"@)
        },
{
    let mut title = chars_of("flake.lock is ");
    push_all(&mut title, &decimal_of(days));
    push_str(&mut title, " days old");
    if days > 30 {
        Finding::new(Level::Warn, text_from(title)).remedy(owned("nix flake update"))
    } else {
        Finding::new(Level::Pass, text_from(title))
    }
}


// ---------------------------------------------------------------- hardware

/// The `[ ... ]` of a line: where it opens and closes, when it does.
pub open spec fn brackets(line: Seq<char>) -> Option<(int, int)> {
    let open = find_char(line, '[');
    let close = rfind_char(line, ']');
    if open >= line.len() || close < 0 || close < open {
        None
    } else {
        Some((open, close))
    }
}

/// The elements of a `[ "a" "b" ]` literal, as written.
pub open spec fn list_items_spec(line: Seq<char>) -> Seq<Seq<char>> {
    match brackets(line) {
        None => seq![],
        Some((open, close)) => words(line.subrange(open + 1, close)),
    }
}

/// A line with the elements of its `[ ... ]` literal sorted.
pub open spec fn sorted_literal(line: Seq<char>) -> Seq<char> {
    match brackets(line) {
        None => line,
        Some((open, close)) => line.subrange(0, open) + "[ "@ + join(
            sorted_texts(words(line.subrange(open + 1, close))),
            " "@,
        ) + " ]"@ + line.subrange(close + 1, line.len() as int),
    }
}

/// The kernel lists modules in whatever order it found the devices: a list
/// literal holding the same elements in another order, on an otherwise
/// identical line, reads as the same line - so it is never reported as
/// drift.
pub proof fn law_list_order_is_not_drift(a: Seq<char>, b: Seq<char>)
    requires
        brackets(a) is Some,
        brackets(b) is Some,
        a.subrange(0, (brackets(a)->0).0) == b.subrange(0, (brackets(b)->0).0),
        a.subrange((brackets(a)->0).1 + 1, a.len() as int) == b.subrange((brackets(b)->0).1 + 1, b.len() as int),
        list_items_spec(a).to_multiset() == list_items_spec(b).to_multiset(),
    ensures
        sorted_literal(a) == sorted_literal(b),
{
    crate::order::lemma_sorted_texts_ignores_order(list_items_spec(a), list_items_spec(b));
}

/// Sorting a line's list literal once is enough: sorting the result again
/// gives it back unchanged.
pub proof fn law_sorted_literal_settles(l: Seq<char>)
    ensures
        sorted_literal(sorted_literal(l)) == sorted_literal(l),
{
    reveal_strlit("[ ");
    reveal_strlit(" ]");
    reveal_strlit(" ");
    match brackets(l) {
        None => {},
        Some((open, close)) => {
            crate::text::lemma_find_char(l, '[');
            crate::text::lemma_rfind_char(l, ']');
            let p = l.subrange(0, open);
            let sfx = l.subrange(close + 1, l.len() as int);
            let ws = words(l.subrange(open + 1, close));
            let sw = sorted_texts(ws);
            let j = join(sw, " "@);
            let n = sorted_literal(l);
            assert(n == p + "[ "@ + j + " ]"@ + sfx);
            let c2: int = (p.len() + 2 + j.len() + 1) as int;
            assert(n[p.len() as int] == '[');
            assert forall|k: int| 0 <= k < p.len() implies n[k] != '[' by {
                assert(n[k] == l[k]);
            }
            crate::text::lemma_find_char_is(n, '[', p.len() as int);
            assert(n[c2] == ']');
            assert forall|k: int| c2 < k < n.len() implies n[k] != ']' by {
                assert(n[k] == l[close + 1 + (k - c2 - 1)]);
            }
            crate::text::lemma_rfind_char_is(n, ']', c2);
            assert(brackets(n) == Some((p.len() as int, c2)));
            assert(n.subrange(p.len() as int + 1, c2) =~= " "@ + j + " "@);
            assert(n.subrange(0, p.len() as int) =~= p);
            assert(n.subrange(c2 + 1, n.len() as int) =~= sfx);
            crate::text::lemma_words_are_words(l.subrange(open + 1, close));
            crate::order::lemma_sorted_texts_settles(ws);
            assert forall|i: int| 0 <= i < sw.len() implies crate::text::word_like(#[trigger] sw[i]) by {
                assert(sw.contains(sw[i]));
                let k = choose|k: int| 0 <= k < ws.len() && ws[k] == sw[i];
            }
            crate::text::lemma_words_of_joined(sw);
            assert(sorted_literal(n) =~= p + "[ "@ + join(sorted_texts(sw), " "@) + " ]"@ + sfx);
        },
    }
}

/// The lines of a Nix file that carry meaning: no blank lines, no comments,
/// whitespace collapsed, list literals sorted.
pub open spec fn significant_lines(ls: Seq<Seq<char>>) -> Seq<Seq<char>>
    decreases ls.len(),
{
    if ls.len() == 0 {
        seq![]
    } else {
        let rest = significant_lines(ls.drop_last());
        let t = trim(ls.last());
        if t.len() > 0 && t[0] != '#' {
            rest.push(sorted_literal(join(words(t), " "@)))
        } else {
            rest
        }
    }
}

/// A line that carries a setting: not blank, not a comment.
pub open spec fn meaningful(l: Seq<char>) -> bool {
    trim(l).len() > 0 && trim(l)[0] != '#'
}

/// The lines that carry settings, in order.
pub open spec fn setting_lines(ls: Seq<Seq<char>>) -> Seq<Seq<char>> {
    ls.filter(|l: Seq<char>| meaningful(l))
}

/// What one setting line is compared as.
pub open spec fn setting_form(l: Seq<char>) -> Seq<char> {
    sorted_literal(join(words(trim(l)), " "@))
}

proof fn lemma_significant_lines(ls: Seq<Seq<char>>)
    ensures
        significant_lines(ls) == Seq::new(setting_lines(ls).len(), |i: int| setting_form(setting_lines(ls)[i])),
    decreases ls.len(),
{
    reveal(Seq::filter);
    if ls.len() > 0 {
        lemma_significant_lines(ls.drop_last());
        let k = setting_lines(ls.drop_last());
        assert(setting_lines(ls) == if meaningful(ls.last()) {
            k.push(ls.last())
        } else {
            k
        });
        assert(significant_lines(ls) =~= Seq::new(setting_lines(ls).len(), |i: int| setting_form(setting_lines(ls)[i])));
    }
}

/// Blank lines, comments and runs of whitespace are not drift: two files
/// whose setting lines hold the same words, line for line, have the same
/// significant lines. (The order inside a list literal is not drift either:
/// `law_list_order_is_not_drift`.)
pub proof fn law_layout_is_not_drift(a: Seq<Seq<char>>, b: Seq<Seq<char>>)
    requires
        setting_lines(a).len() == setting_lines(b).len(),
        forall|i: int| 0 <= i < setting_lines(a).len() ==> words(trim(#[trigger] setting_lines(a)[i])) == words(trim(setting_lines(b)[i])),
    ensures
        significant_lines(a) == significant_lines(b),
{
    lemma_significant_lines(a);
    lemma_significant_lines(b);
    assert(significant_lines(a) =~= significant_lines(b));
}

/// Two lines that are the same but for the order of the elements of their
/// `[ ... ]` literal.
pub open spec fn same_but_list_order(x: Seq<char>, y: Seq<char>) -> bool {
    &&& brackets(x) is Some
    &&& brackets(y) is Some
    &&& x.subrange(0, (brackets(x)->0).0) == y.subrange(0, (brackets(y)->0).0)
    &&& x.subrange((brackets(x)->0).1 + 1, x.len() as int) == y.subrange((brackets(y)->0).1 + 1, y.len() as int)
    &&& list_items_spec(x).to_multiset() == list_items_spec(y).to_multiset()
}

/// A setting line with its whitespace collapsed.
pub open spec fn collapsed(l: Seq<char>) -> Seq<char> {
    join(words(trim(l)), " "@)
}

/// Blank lines, comments, runs of whitespace and the order inside list
/// literals are not drift, all together: two files whose setting lines,
/// whitespace collapsed, are line for line the same or the same but for the
/// order of a list, have the same significant lines.
pub proof fn law_only_settings_are_drift(a: Seq<Seq<char>>, b: Seq<Seq<char>>)
    requires
        setting_lines(a).len() == setting_lines(b).len(),
        forall|i: int| 0 <= i < setting_lines(a).len() ==> {
            let x = collapsed(#[trigger] setting_lines(a)[i]);
            let y = collapsed(setting_lines(b)[i]);
            x == y || same_but_list_order(x, y)
        },
    ensures
        significant_lines(a) == significant_lines(b),
{
    lemma_significant_lines(a);
    lemma_significant_lines(b);
    assert forall|i: int| 0 <= i < setting_lines(a).len() implies setting_form(setting_lines(a)[i])
        == setting_form(setting_lines(b)[i]) by {
        let x = collapsed(setting_lines(a)[i]);
        let y = collapsed(setting_lines(b)[i]);
        if x != y {
            law_list_order_is_not_drift(x, y);
        }
    }
    assert(significant_lines(a) =~= significant_lines(b));
}

pub open spec fn significant_spec(nix: Seq<char>) -> Seq<Seq<char>> {
    significant_lines(lines(nix))
}

fn brackets_of(line: &Vec<char>) -> (r: Option<(usize, usize)>)
    ensures
        match r {
            Some((o, c)) => brackets(line@) == Some((o as int, c as int)) && o < c < line.len(),
            None => brackets(line@) is None,
        },
{
    let open = find(line, '[');
    let close = rfind(line, ']');
    proof {
        crate::text::lemma_find_char(line@, '[');
        crate::text::lemma_rfind_char(line@, ']');
    }
    match close {
        None => None,
        Some(c) => {
            if open >= line.len() || c < open {
                None
            } else {
                Some((open, c))
            }
        },
    }
}

/// The quoted items inside a `[ "a" "b" ]` literal.
pub fn list_items(line: &str) -> (r: Vec<String>)
    ensures
        string_views(r@) == list_items_spec(line@),
{
    let v = chars_of(line);
    let items = match brackets_of(&v) {
        None => Vec::new(),
        Some((open, close)) => words_of(&slice_of(&v, open + 1, close)),
    };
    let out = strings_of(&items);
    proof {
        if brackets(v@) is None {
            assert(views(items@) =~= seq![]);
        }
    }
    out
}

/// The characters of each string.
pub fn texts_of(v: &Vec<String>) -> (r: Vec<Vec<char>>)
    ensures
        views(r@) == string_views(v@),
{
    let mut r: Vec<Vec<char>> = Vec::new();
    let mut i: usize = 0;
    while i < v.len()
        invariant
            i <= v.len(),
            views(r@) =~= string_views(v@.take(i as int)),
        decreases v.len() - i,
    {
        let c = chars_of(v[i].as_str());
        let ghost before = views(r@);
        r.push(c);
        assert(views(r@) =~= before.push(c@));
        assert(string_views(v@.take(i + 1)) =~= string_views(v@.take(i as int)).push(v@[i as int]@));
        i = i + 1;
    }
    assert(v@.take(v.len() as int) =~= v@);
    assert(string_views(v@.take(v.len() as int)) =~= string_views(v@));
    r
}

/// A string for each character vector.
pub fn strings_of(v: &Vec<Vec<char>>) -> (r: Vec<String>)
    ensures
        string_views(r@) == views(v@),
{
    let mut r: Vec<String> = Vec::new();
    let mut i: usize = 0;
    while i < v.len()
        invariant
            i <= v.len(),
            string_views(r@) =~= views(v@).take(i as int),
        decreases v.len() - i,
    {
        let t = string_of(&v[i]);
        let ghost before = string_views(r@);
        r.push(t);
        assert(string_views(r@) =~= before.push(t@));
        assert(views(v@).take(i + 1) =~= views(v@).take(i as int).push(v@[i as int]@));
        i = i + 1;
    }
    assert(views(v@).take(v.len() as int) =~= views(v@));
    r
}

fn sorted_literal_of(line: &Vec<char>) -> (r: Vec<char>)
    ensures
        r@ == sorted_literal(line@),
{
    match brackets_of(line) {
        None => copy_of(line),
        Some((open, close)) => {
            let items = sort_texts(&words_of(&slice_of(line, open + 1, close)));
            let mut r = slice_of(line, 0, open);
            push_str(&mut r, "[ ");
            push_all(&mut r, &joined(&items, &chars_of(" ")));
            push_str(&mut r, " ]");
            push_all(&mut r, &slice_of(line, close + 1, line.len()));
            r
        },
    }
}

/// Sort the elements of a `[ "a" "b" ]` literal, leaving everything else be.
pub fn sort_list_literal(line: &str) -> (r: String)
    ensures
        r@ == sorted_literal(line@),
{
    string_of(&sorted_literal_of(&chars_of(line)))
}

fn significant_of(nix: &Vec<char>) -> (r: Vec<Vec<char>>)
    ensures
        views(r@) == significant_spec(nix@),
{
    let ls = lines_of(nix);
    let mut out: Vec<Vec<char>> = Vec::new();
    let mut i: usize = 0;
    assert(views(ls@).take(0) =~= seq![]);
    assert(views(out@) =~= seq![]);
    while i < ls.len()
        invariant
            i <= ls.len(),
            views(out@) == significant_lines(views(ls@).take(i as int)),
        decreases ls.len() - i,
    {
        assert(views(ls@).take(i + 1).drop_last() =~= views(ls@).take(i as int));
        let t = trimmed(&ls[i]);
        let ghost before = views(out@);
        if t.len() > 0 && t[0] != '#' {
            let collapsed = joined(&words_of(&t), &chars_of(" "));
            let line = sorted_literal_of(&collapsed);
            out.push(line);
            assert(views(out@) =~= before.push(line@));
        }
        i = i + 1;
    }
    assert(views(ls@).take(ls.len() as int) =~= views(ls@));
    out
}

/// Lines that carry meaning: no comments, no blank lines, whitespace
/// collapsed so reindentation is not drift, and list elements sorted, since
/// the kernel enumerates modules in whatever order it found the devices.
pub fn significant(nix: &str) -> (r: Vec<String>)
    ensures
        string_views(r@) == significant_spec(nix@),
{
    strings_of(&significant_of(&chars_of(nix)))
}


/// A line about kernel modules, whose lists are reported and not judged.
pub open spec fn is_modules_line(l: Seq<char>) -> bool {
    crate::text::contains(l, "KernelModules"@)
}

/// The lines that are (or are not) about kernel modules, in order.
pub open spec fn keep_modules(s: Seq<Seq<char>>, modules: bool) -> Seq<Seq<char>>
    decreases s.len(),
{
    if s.len() == 0 {
        seq![]
    } else if is_modules_line(s.last()) == modules {
        keep_modules(s.drop_last(), modules).push(s.last())
    } else {
        keep_modules(s.drop_last(), modules)
    }
}

/// Every list element of every line, in order.
pub open spec fn all_items(s: Seq<Seq<char>>) -> Seq<Seq<char>>
    decreases s.len(),
{
    if s.len() == 0 {
        seq![]
    } else {
        all_items(s.drop_last()) + list_items_spec(s.last())
    }
}

/// The entries of `s` that `other` does not have, in order.
pub open spec fn absent_from(s: Seq<Seq<char>>, other: Seq<Seq<char>>) -> Seq<Seq<char>>
    decreases s.len(),
{
    if s.len() == 0 {
        seq![]
    } else if other.contains(s.last()) {
        absent_from(s.drop_last(), other)
    } else {
        absent_from(s.drop_last(), other).push(s.last())
    }
}

/// At most the first `n` entries.
pub open spec fn first_n(s: Seq<Seq<char>>, n: nat) -> Seq<Seq<char>> {
    if s.len() <= n {
        s
    } else {
        s.take(n as int)
    }
}

/// One line per entry, each behind `prefix` and ended by a newline.
pub open spec fn bullets(prefix: Seq<char>, s: Seq<Seq<char>>) -> Seq<char>
    decreases s.len(),
{
    if s.len() == 0 {
        seq![]
    } else {
        bullets(prefix, s.drop_last()) + prefix + s.last() + "\n"@
    }
}

/// What comparing the committed hardware.nix with a fresh detection finds.
///
/// The settings are compared, not the bytes. The kernel module lists are
/// reported and not judged - they reflect what was plugged in when the tool
/// ran - while everything else has to match exactly.
pub open spec fn hardware_outcome(committed: Seq<char>, fresh: Seq<char>) -> FindingView {
    let a = significant_spec(committed);
    let b = significant_spec(fresh);
    let committed_modules = all_items(keep_modules(a, true));
    let detected_modules = all_items(keep_modules(b, true));
    let a_rest = keep_modules(a, false);
    let b_rest = keep_modules(b, false);
    let added = absent_from(b_rest, a_rest);
    let gone = absent_from(a_rest, b_rest);
    if a == b {
        bare(Level::Pass, "hardware.nix matches this machine"@)
    } else if added.len() == 0 && gone.len() == 0 {
        let only_here = absent_from(committed_modules, detected_modules).len();
        let only_now = absent_from(detected_modules, committed_modules).len();
        let note = if only_here == 0 && only_now == 0 {
            "initrd modules also match"@
        } else {
            "initrd modules differ ("@ + decimal(only_here) + " committed-only, "@ + decimal(only_now)
                + " detected-only), which reflects what was plugged in and is not checked"@
        };
        with_detail(Level::Pass, "hardware.nix matches this machine"@, note)
    } else {
        full(
            Level::Warn,
            "hardware.nix no longer matches this machine"@,
            trim_end(bullets("- "@, first_n(gone, 4)) + bullets("+ "@, first_n(added, 4))),
            "nixos-generate-config --show-hardware-config --no-filesystems > hosts/<name>/hardware.nix"@,
        )
    }
}

/// Whether a list holds this text.
pub fn holds(list: &Vec<Vec<char>>, x: &Vec<char>) -> (r: bool)
    ensures
        r == views(list@).contains(x@),
{
    let mut i: usize = 0;
    while i < list.len()
        invariant
            i <= list.len(),
            forall|j: int| 0 <= j < i ==> views(list@)[j] != x@,
        decreases list.len() - i,
    {
        if crate::text::same(&list[i], x) {
            assert(views(list@)[i as int] == x@);
            return true;
        }
        i = i + 1;
    }
    false
}

fn keep_modules_of(v: &Vec<Vec<char>>, modules: bool) -> (r: Vec<Vec<char>>)
    ensures
        views(r@) == keep_modules(views(v@), modules),
{
    let key = chars_of("KernelModules");
    let mut r: Vec<Vec<char>> = Vec::new();
    let mut i: usize = 0;
    assert(views(v@).take(0) =~= seq![]);
    assert(views(r@) =~= seq![]);
    while i < v.len()
        invariant
            i <= v.len(),
            key@ == "KernelModules"@,
            views(r@) == keep_modules(views(v@).take(i as int), modules),
        decreases v.len() - i,
    {
        assert(views(v@).take(i + 1).drop_last() =~= views(v@).take(i as int));
        let ghost before = views(r@);
        if crate::text::has_sub(&v[i], &key) == modules {
            r.push(copy_of(&v[i]));
            assert(views(r@) =~= before.push(views(v@)[i as int]));
        }
        i = i + 1;
    }
    assert(views(v@).take(v.len() as int) =~= views(v@));
    r
}

fn all_items_of(v: &Vec<Vec<char>>) -> (r: Vec<Vec<char>>)
    ensures
        views(r@) == all_items(views(v@)),
{
    let mut r: Vec<Vec<char>> = Vec::new();
    let mut i: usize = 0;
    assert(views(v@).take(0) =~= seq![]);
    assert(views(r@) =~= seq![]);
    while i < v.len()
        invariant
            i <= v.len(),
            views(r@) == all_items(views(v@).take(i as int)),
        decreases v.len() - i,
    {
        assert(views(v@).take(i + 1).drop_last() =~= views(v@).take(i as int));
        let items = match brackets_of(&v[i]) {
            None => Vec::new(),
            Some((open, close)) => words_of(&slice_of(&v[i], open + 1, close)),
        };
        assert(views(items@) == list_items_spec(views(v@)[i as int])) by {
            if brackets(v@[i as int]@) is None {
                assert(views(items@) =~= seq![]);
            }
        }
        let ghost before = views(r@);
        let mut k: usize = 0;
        while k < items.len()
            invariant
                k <= items.len(),
                views(r@) == before + views(items@).take(k as int),
            decreases items.len() - k,
        {
            let ghost mid = views(r@);
            r.push(copy_of(&items[k]));
            assert(views(r@) =~= mid.push(views(items@)[k as int]));
            assert(views(items@).take(k + 1) =~= views(items@).take(k as int).push(
                views(items@)[k as int],
            ));
            k = k + 1;
        }
        assert(views(items@).take(items.len() as int) =~= views(items@));
        i = i + 1;
    }
    assert(views(v@).take(v.len() as int) =~= views(v@));
    r
}

fn absent_from_of(v: &Vec<Vec<char>>, other: &Vec<Vec<char>>) -> (r: Vec<Vec<char>>)
    ensures
        views(r@) == absent_from(views(v@), views(other@)),
{
    let mut r: Vec<Vec<char>> = Vec::new();
    let mut i: usize = 0;
    assert(views(v@).take(0) =~= seq![]);
    assert(views(r@) =~= seq![]);
    while i < v.len()
        invariant
            i <= v.len(),
            views(r@) == absent_from(views(v@).take(i as int), views(other@)),
        decreases v.len() - i,
    {
        assert(views(v@).take(i + 1).drop_last() =~= views(v@).take(i as int));
        let ghost before = views(r@);
        if !holds(other, &v[i]) {
            r.push(copy_of(&v[i]));
            assert(views(r@) =~= before.push(views(v@)[i as int]));
        }
        i = i + 1;
    }
    assert(views(v@).take(v.len() as int) =~= views(v@));
    r
}

fn push_bullets(out: &mut Vec<char>, prefix: &str, v: &Vec<Vec<char>>, n: usize)
    ensures
        final(out)@ == old(out)@ + bullets(prefix@, first_n(views(v@), n as nat)),
{
    let m = if v.len() <= n {
        v.len()
    } else {
        n
    };
    let ghost s = first_n(views(v@), n as nat);
    assert(s =~= views(v@).take(m as int));
    let mut i: usize = 0;
    assert(s.take(0) =~= seq![]);
    while i < m
        invariant
            i <= m <= v.len(),
            s =~= views(v@).take(m as int),
            out@ == old(out)@ + bullets(prefix@, s.take(i as int)),
        decreases m - i,
    {
        assert(s.take(i + 1).drop_last() =~= s.take(i as int));
        push_str(out, prefix);
        push_all(out, &v[i]);
        push_str(out, "\n");
        i = i + 1;
    }
    assert(s.take(m as int) =~= s);
}

fn trim_end_of(v: &Vec<char>) -> (r: Vec<char>)
    ensures
        r@ == trim_end(v@),
{
    let mut k: usize = v.len();
    while k > 0 && crate::text::char_is_ws(v[k - 1])
        invariant
            k <= v.len(),
            forall|j: int| k <= j < v.len() ==> crate::text::is_ws(v@[j]),
        decreases k,
    {
        k = k - 1;
    }
    proof {
        crate::text::lemma_trim_end(v@, k as int);
    }
    slice_of(v, 0, k)
}

/// Compare the committed hardware.nix against what `nixos-generate-config
/// --show-hardware-config --no-filesystems` reports now.
pub fn hardware_finding(committed: &str, fresh: &str) -> (f: Finding)
    ensures
        f@ == hardware_outcome(committed@, fresh@),
{
    let a = significant_of(&chars_of(committed));
    let b = significant_of(&chars_of(fresh));
    let mut equal = a.len() == b.len();
    let mut i: usize = 0;
    while equal && i < a.len()
        invariant
            i <= a.len(),
            equal ==> a.len() == b.len(),
            equal ==> forall|j: int| 0 <= j < i ==> views(a@)[j] == views(b@)[j],
            !equal ==> views(a@) != views(b@),
        decreases a.len() - i,
    {
        if !crate::text::same(&a[i], &b[i]) {
            equal = false;
            assert(views(a@)[i as int] != views(b@)[i as int]);
        }
        i = i + 1;
    }
    if equal {
        assert(views(a@) =~= views(b@));
        return Finding::new(Level::Pass, owned("hardware.nix matches this machine"));
    }
    let a_mod = keep_modules_of(&a, true);
    let b_mod = keep_modules_of(&b, true);
    let committed_modules = all_items_of(&a_mod);
    let detected_modules = all_items_of(&b_mod);
    let a_rest = keep_modules_of(&a, false);
    let b_rest = keep_modules_of(&b, false);
    let added = absent_from_of(&b_rest, &a_rest);
    let gone = absent_from_of(&a_rest, &b_rest);
    if added.len() == 0 && gone.len() == 0 {
        let only_here = absent_from_of(&committed_modules, &detected_modules).len();
        let only_now = absent_from_of(&detected_modules, &committed_modules).len();
        let note = if only_here == 0 && only_now == 0 {
            chars_of("initrd modules also match")
        } else {
            let mut n = chars_of("initrd modules differ (");
            push_all(&mut n, &decimal_of(only_here as u64));
            push_str(&mut n, " committed-only, ");
            push_all(&mut n, &decimal_of(only_now as u64));
            push_str(
                &mut n,
                " detected-only), which reflects what was plugged in and is not checked",
            );
            n
        };
        return Finding::new(Level::Pass, owned("hardware.nix matches this machine")).detail(
            text_from(note),
        );
    }
    let mut detail: Vec<char> = Vec::new();
    push_bullets(&mut detail, "- ", &gone, 4);
    let ghost half = detail@;
    push_bullets(&mut detail, "+ ", &added, 4);
    assert(detail@ =~= bullets("- "@, first_n(views(gone@), 4)) + bullets(
        "+ "@,
        first_n(views(added@), 4),
    ));
    Finding::new(Level::Warn, owned("hardware.nix no longer matches this machine")).detail(
        text_from(trim_end_of(&detail)),
    ).remedy(
        owned(
            "nixos-generate-config --show-hardware-config --no-filesystems > hosts/<name>/hardware.nix",
        ),
    )
}


// ---------------------------------------------------------------- commit drift

/// A commit id as the report shows it: its first seven bytes.
pub open spec fn short_commit(c: Seq<char>) -> Seq<char> {
    crate::text::byte_take(c, crate::text::min_nat(crate::text::utf8_len(c), 7))
}

/// The first seven bytes of `c` end between two characters, so the report
/// can cut there.
pub open spec fn cuts_cleanly(c: Seq<char>) -> bool {
    crate::text::is_boundary(c, crate::text::min_nat(crate::text::utf8_len(c), 7))
}

/// The commit as the report shows it, or `None` when its seventh byte falls
/// inside a character, where cutting it would panic.
pub fn short_form(c: &str) -> (r: Option<String>)
    ensures
        match r {
            Some(s) => cuts_cleanly(c@) && s@ == short_commit(c@),
            None => !cuts_cleanly(c@),
        },
{
    let v = chars_of(c);
    let n = crate::text::utf8_len_capped(&v, 7);
    match crate::text::byte_prefix(&v, n) {
        Some(p) => {
            proof {
                crate::text::lemma_byte_take(v@, p@.len() as int, n as nat);
            }
            Some(string_of(&p))
        },
        None => None,
    }
}

/// This system predates `kiwami update`, which records the commit it built.
pub fn no_commit_finding() -> (f: Finding)
    ensures
        f@ == bare(Level::Skip, "no recorded commit - this system predates `kiwami update`"@),
{
    Finding::new(Level::Skip, owned("no recorded commit - this system predates `kiwami update`"))
}

/// The flake could not be asked what main points at.
pub fn unreachable_finding(current: &str) -> (f: Finding)
    requires
        cuts_cleanly(current@),
    ensures
        f@ == bare(Level::Pass, "running "@ + short_commit(current@) + " (cannot reach the flake)"@),
{
    let short = short_form(current).unwrap();
    let mut title = chars_of("running ");
    push_str(&mut title, short.as_str());
    push_str(&mut title, " (cannot reach the flake)");
    Finding::new(Level::Pass, text_from(title))
}

/// The `revision` that `nix flake metadata --json` reports.
pub fn revision_of(reply: &[u8]) -> (r: Option<String>)
    ensures
        match r {
            Some(s) => crate::json::json_field_bytes(reply@, "revision"@) == crate::json::JsonView::Text(s@),
            None => !(crate::json::json_field_bytes(reply@, "revision"@) is Text),
        },
{
    crate::json::text_in(crate::json::field_bytes(reply, "revision"))
}

pub open spec fn drift_outcome(current: Seq<char>, head: Option<Seq<char>>) -> FindingView {
    match head {
        Some(h) => if h == current {
            bare(Level::Pass, "up to date ("@ + short_commit(current) + ")"@)
        } else {
            with_remedy(
                Level::Warn,
                "running "@ + short_commit(current) + ", main is "@ + short_commit(h),
                "sudo kiwami update"@,
            )
        },
        None => bare(Level::Pass, "running "@ + short_commit(current)),
    }
}

/// How far behind main this machine is: the commit it was built from, and
/// the one main points at now (`None` when the reply named none).
pub fn drift_finding(current: &str, head: Option<String>) -> (f: Finding)
    requires
        cuts_cleanly(current@),
        head matches Some(h) ==> cuts_cleanly(h@),
    ensures
        f@ == drift_outcome(current@, opt_view(head)),
{
    let short = short_form(current).unwrap();
    match head {
        Some(h) => {
            if crate::text::same(&chars_of(h.as_str()), &chars_of(current)) {
                let mut title = chars_of("up to date (");
                push_str(&mut title, short.as_str());
                push_str(&mut title, ")");
                Finding::new(Level::Pass, text_from(title))
            } else {
                let head_short = short_form(h.as_str()).unwrap();
                let mut title = chars_of("running ");
                push_str(&mut title, short.as_str());
                push_str(&mut title, ", main is ");
                push_str(&mut title, head_short.as_str());
                Finding::new(Level::Warn, text_from(title)).remedy(owned("sudo kiwami update"))
            }
        },
        None => {
            let mut title = chars_of("running ");
            push_str(&mut title, short.as_str());
            Finding::new(Level::Pass, text_from(title))
        },
    }
}


// ---------------------------------------------------------------- host dir

/// A host's default.nix declares this hostname.
pub fn declares_host(default_nix: &str, hostname: &str) -> (r: bool)
    ensures
        r == crate::text::contains(default_nix@, "hostName = \""@ + hostname@ + "\""@),
{
    let mut needle = chars_of("hostName = \"");
    push_str(&mut needle, hostname);
    push_str(&mut needle, "\"");
    crate::text::has_sub(&chars_of(default_nix), &needle)
}

/// The positions that hold `true`, in order.
pub open spec fn true_positions(s: Seq<bool>) -> Seq<int>
    decreases s.len(),
{
    if s.len() == 0 {
        seq![]
    } else if s.last() {
        true_positions(s.drop_last()).push(s.len() - 1)
    } else {
        true_positions(s.drop_last())
    }
}

/// Which of the sorted host directories describes this machine, when its
/// name is not one of them: the only one that declares this hostname, or
/// else the only one there is.
pub open spec fn host_dir_choice(declaring: Seq<bool>) -> Option<int> {
    let m = true_positions(declaring);
    if m.len() == 1 {
        Some(m[0])
    } else if declaring.len() == 1 {
        Some(0)
    } else {
        None
    }
}

proof fn lemma_true_positions(s: Seq<bool>)
    ensures
        forall|i: int| 0 <= i < true_positions(s).len() ==> 0 <= #[trigger] true_positions(s)[i] < s.len(),
    decreases s.len(),
{
    if s.len() > 0 {
        lemma_true_positions(s.drop_last());
        let t = true_positions(s.drop_last());
        assert forall|i: int| 0 <= i < true_positions(s).len() implies 0 <= #[trigger] true_positions(
            s,
        )[i] < s.len() by {
            if i < t.len() {
                assert(true_positions(s)[i] == t[i]);
            }
        }
    }
}

/// `declaring[i]`: the i-th host directory's default.nix declares this
/// hostname.
pub fn pick_host_dir(declaring: &Vec<bool>) -> (r: Option<usize>)
    ensures
        match r {
            Some(i) => host_dir_choice(declaring@) == Some(i as int) && i < declaring.len(),
            None => host_dir_choice(declaring@) is None,
        },
{
    let mut count: usize = 0;
    let mut first: usize = 0;
    let mut i: usize = 0;
    assert(declaring@.take(0) =~= seq![]);
    while i < declaring.len()
        invariant
            i <= declaring.len(),
            count <= i,
            count == true_positions(declaring@.take(i as int)).len(),
            count >= 1 ==> first == true_positions(declaring@.take(i as int))[0],
            count >= 1 ==> first < i,
        decreases declaring.len() - i,
    {
        assert(declaring@.take(i + 1).drop_last() =~= declaring@.take(i as int));
        proof {
            lemma_true_positions(declaring@.take(i as int));
        }
        if declaring[i] {
            if count == 0 {
                first = i;
            }
            count = count + 1;
        }
        i = i + 1;
    }
    assert(declaring@.take(declaring.len() as int) =~= declaring@);
    if count == 1 {
        Some(first)
    } else if declaring.len() == 1 {
        Some(0)
    } else {
        None
    }
}

/// No directory under hosts/ describes this machine.
pub fn no_host_entry_finding(host: &str) -> (f: Finding)
    ensures
        f@ == bare(Level::Skip, "no hosts/ entry matching "@ + host@),
{
    let mut title = chars_of("no hosts/ entry matching ");
    push_str(&mut title, host);
    Finding::new(Level::Skip, text_from(title))
}

/// The host directory has no hardware.nix to compare.
pub fn no_hardware_file_finding(dir: &str) -> (f: Finding)
    ensures
        f@ == with_remedy(
            Level::Warn,
            dir@ + " has no hardware.nix"@,
            "kiwami install --regen-hardware, or generate it by hand"@,
        ),
{
    let mut title = chars_of(dir);
    push_str(&mut title, " has no hardware.nix");
    Finding::new(Level::Warn, text_from(title)).remedy(
        owned("kiwami install --regen-hardware, or generate it by hand"),
    )
}

// ---------------------------------------------------------------- passwords

/// The salt of a `$6$<salt>$<hash>` entry: the third `$`-separated field of
/// the trimmed text, when there are at least four.
pub open spec fn salt_spec(stored: Seq<char>) -> Option<Seq<char>> {
    let parts = crate::text::split(trim(stored), '$');
    if parts.len() < 4 {
        None
    } else {
        Some(parts[2])
    }
}

pub fn salt_of(stored: &str) -> (r: Option<String>)
    ensures
        opt_view(r) == salt_spec(stored@),
{
    let parts = crate::text::split_of(&trimmed(&chars_of(stored)), '$');
    if parts.len() < 4 {
        None
    } else {
        Some(string_of(&parts[2]))
    }
}

/// Re-hashing the default with the stored salt reproduced the stored hash,
/// so the password is unchanged.
pub fn rehash_matches(rehashed: &str, stored: &str) -> (r: bool)
    ensures
        r == (trim(rehashed@) == trim(stored@)),
{
    crate::text::same(&trimmed(&chars_of(rehashed)), &trimmed(&chars_of(stored)))
}

/// The directory passwords are kept in, from /etc/kiwami/password-dir:
/// nothing when it is absent or blank.
pub fn password_dir(contents: Option<String>) -> (r: Option<String>)
    ensures
        opt_view(r) == match contents {
            Some(c) => if trim(c@).len() == 0 {
                None
            } else {
                Some(trim(c@))
            },
            None => None,
        },
{
    match contents {
        Some(c) => {
            let t = trimmed_string(c.as_str());
            if t.as_str().is_empty() {
                None
            } else {
                Some(t)
            }
        },
        None => None,
    }
}

/// The desktop user named in persist.json.
pub fn persist_user(raw: &str) -> (r: Option<String>)
    ensures
        match r {
            Some(u) => crate::json::json_field(raw@, "user"@) == crate::json::JsonView::Text(u@),
            None => !(crate::json::json_field(raw@, "user"@) is Text),
        },
{
    crate::json::text_in(crate::json::field(raw, "user"))
}

pub open spec fn password_outcome(
    user: Seq<char>,
    has_file: bool,
    is_default: bool,
    file: Seq<char>,
) -> FindingView {
    if has_file && is_default {
        full(
            Level::Warn,
            user + " still has the install default"@,
            "anyone who has read the docs knows it"@,
            "sudo kiwami passwd"@,
        )
    } else if has_file {
        with_detail(Level::Pass, user + " has a password of their own"@, "hashed in "@ + file)
    } else {
        full(
            Level::Fail,
            user + " has no persistent password"@,
            "this machine wipes /etc/shadow at every boot, so `passwd` reports\n                 success and changes nothing that lasts"@,
            "sudo kiwami passwd"@,
        )
    }
}

/// Whether the user's password lasts: its hash file exists, and is or is not
/// still the install default.
pub fn password_finding(user: &str, has_file: bool, is_default: bool, file: &str) -> (f: Finding)
    ensures
        f@ == password_outcome(user@, has_file, is_default, file@),
{
    let mut title = chars_of(user);
    if has_file && is_default {
        push_str(&mut title, " still has the install default");
        Finding::new(Level::Warn, text_from(title)).detail(
            owned("anyone who has read the docs knows it"),
        ).remedy(owned("sudo kiwami passwd"))
    } else if has_file {
        push_str(&mut title, " has a password of their own");
        let mut d = chars_of("hashed in ");
        push_str(&mut d, file);
        Finding::new(Level::Pass, text_from(title)).detail(text_from(d))
    } else {
        push_str(&mut title, " has no persistent password");
        Finding::new(Level::Fail, text_from(title)).detail(
            owned(
                "this machine wipes /etc/shadow at every boot, so `passwd` reports\n                 success and changes nothing that lasts",
            ),
        ).remedy(owned("sudo kiwami passwd"))
    }
}

// ---------------------------------------------------------------- root wipe

/// The first line whose text begins with "Creation time:".
pub open spec fn creation_line(ls: Seq<Seq<char>>) -> Option<Seq<char>>
    decreases ls.len(),
{
    if ls.len() == 0 {
        None
    } else if crate::text::starts_with(crate::text::trim_start(ls[0]), "Creation time:"@) {
        Some(ls[0])
    } else {
        creation_line(ls.drop_first())
    }
}

/// When the root subvolume was made, from `btrfs subvolume show /`: what
/// follows the first `:` of its "Creation time:" line, trimmed.
pub open spec fn creation_time_spec(show: Seq<char>) -> Option<Seq<char>> {
    match creation_line(lines(show)) {
        None => None,
        Some(l) => {
            let i = find_char(l, ':');
            if i >= l.len() {
                None
            } else {
                Some(trim(l.subrange(i + 1, l.len() as int)))
            }
        },
    }
}

pub fn creation_time(show: &str) -> (r: Option<String>)
    ensures
        opt_view(r) == creation_time_spec(show@),
{
    let ls = lines_of(&chars_of(show));
    let key = chars_of("Creation time:");
    let mut i: usize = 0;
    assert(views(ls@).skip(0) =~= views(ls@));
    while i < ls.len()
        invariant
            i <= ls.len(),
            key@ == "Creation time:"@,
            views(ls@) == lines(show@),
            creation_line(views(ls@)) == creation_line(views(ls@).skip(i as int)),
        decreases ls.len() - i,
    {
        let start = crate::text::trim_start_of(&ls[i]);
        assert(views(ls@).skip(i as int)[0] == ls@[i as int]@);
        if crate::text::has_prefix(&start, &key) {
            assert(creation_line(views(ls@).skip(i as int)) == Some(ls@[i as int]@));
            let l = &ls[i];
            let k = find(l, ':');
            proof {
                crate::text::lemma_find_char(l@, ':');
            }
            if k >= l.len() {
                return None;
            }
            return Some(string_of(&trimmed(&slice_of(l, k + 1, l.len()))));
        }
        assert(views(ls@).skip(i as int).drop_first() =~= views(ls@).skip(i + 1));
        i = i + 1;
    }
    None
}

// ---------------------------------------------------------------- what a wipe loses

/// Written at every activation from the configuration, so losing it costs
/// nothing.
pub open spec fn written_by_activation_spec(path: Seq<char>) -> bool {
    ||| path == "/etc/passwd"@ || path == "/etc/group"@ || path == "/etc/shadow"@
    ||| path == "/etc/subuid"@ || path == "/etc/subgid"@ || path == "/etc/.clean"@
    ||| path == "/etc/.updated"@ || path == "/etc/NIXOS"@ || path == "/etc/mtab"@
    ||| path == "/etc/resolv.conf"@ || path == "/etc/machine-id"@
}

pub fn written_by_activation(path: &str) -> (r: bool)
    ensures
        r == written_by_activation_spec(path@),
{
    let p = chars_of(path);
    crate::text::same(&p, &chars_of("/etc/passwd")) || crate::text::same(&p, &chars_of("/etc/group"))
        || crate::text::same(&p, &chars_of("/etc/shadow")) || crate::text::same(
        &p,
        &chars_of("/etc/subuid"),
    ) || crate::text::same(&p, &chars_of("/etc/subgid")) || crate::text::same(
        &p,
        &chars_of("/etc/.clean"),
    ) || crate::text::same(&p, &chars_of("/etc/.updated")) || crate::text::same(
        &p,
        &chars_of("/etc/NIXOS"),
    ) || crate::text::same(&p, &chars_of("/etc/mtab")) || crate::text::same(
        &p,
        &chars_of("/etc/resolv.conf"),
    ) || crate::text::same(&p, &chars_of("/etc/machine-id"))
}

/// `path` is `under`, or inside it.
pub open spec fn at_or_under(path: Seq<char>, under: Seq<char>) -> bool {
    path == under || crate::text::starts_with(path, under + "/"@)
}

/// Some entry of `list` is `path` or contains it.
pub open spec fn covered(path: Seq<char>, list: Seq<Seq<char>>) -> bool {
    exists|i: int| 0 <= i < list.len() && at_or_under(path, list[i])
}

/// `path` is one of the listed paths or inside one: a declared (persisted)
/// path, or one systemd-tmpfiles recreates.
pub fn covered_by(path: &str, list: &Vec<String>) -> (r: bool)
    ensures
        r == covered(path@, string_views(list@)),
{
    let p = chars_of(path);
    let mut i: usize = 0;
    while i < list.len()
        invariant
            i <= list.len(),
            p@ == path@,
            forall|j: int| 0 <= j < i ==> !at_or_under(path@, string_views(list@)[j]),
        decreases list.len() - i,
    {
        let d = chars_of(list[i].as_str());
        let mut under = copy_of(&d);
        push_str(&mut under, "/");
        if crate::text::same(&p, &d) || crate::text::has_prefix(&p, &under) {
            assert(at_or_under(path@, string_views(list@)[i as int]));
            return true;
        }
        i = i + 1;
    }
    false
}

/// A tmpfiles type flag: what may follow the type letter.
pub open spec fn is_type_flag(c: char) -> bool {
    c == '!' || c == '-' || c == '=' || c == '+' || c == '^'
}

/// The type without its flags (`trim_end_matches` of them).
pub open spec fn type_letter(k: Seq<char>) -> Seq<char>
    decreases k.len(),
{
    if k.len() > 0 && is_type_flag(k.last()) {
        type_letter(k.drop_last())
    } else {
        k
    }
}

/// The tmpfiles types that bring a path into existence.
pub open spec fn creates_path(k: Seq<char>) -> bool {
    k == "d"@ || k == "D"@ || k == "v"@ || k == "f"@ || k == "F"@ || k == "L"@ || k == "C"@
}

/// The paths of the rules in `systemd-tmpfiles --cat-config` that create
/// them: not comments, not blank, a creating type, and a path after it.
pub open spec fn tmpfiles_spec(ls: Seq<Seq<char>>) -> Seq<Seq<char>>
    decreases ls.len(),
{
    if ls.len() == 0 {
        seq![]
    } else {
        let rest = tmpfiles_spec(ls.drop_last());
        let l = ls.last();
        let w = words(l);
        if !crate::text::starts_with(crate::text::trim_start(l), "#"@) && trim(l).len() > 0
            && w.len() >= 2 && creates_path(type_letter(w[0])) {
            rest.push(w[1])
        } else {
            rest
        }
    }
}

fn is_type_flag_of(c: char) -> (r: bool)
    ensures
        r == is_type_flag(c),
{
    c == '!' || c == '-' || c == '=' || c == '+' || c == '^'
}

fn type_letter_of(k: &Vec<char>) -> (r: Vec<char>)
    ensures
        r@ == type_letter(k@),
{
    let mut n = k.len();
    assert(k@.take(k.len() as int) =~= k@);
    while n > 0 && is_type_flag_of(k[n - 1])
        invariant
            n <= k.len(),
            type_letter(k@) == type_letter(k@.take(n as int)),
        decreases n,
    {
        assert(k@.take(n as int).drop_last() =~= k@.take(n - 1));
        n = n - 1;
    }
    assert(k@.take(k.len() as int) =~= k@);
    slice_of(k, 0, n)
}

fn creates_path_of(k: &Vec<char>) -> (r: bool)
    ensures
        r == creates_path(k@),
{
    crate::text::same(k, &chars_of("d")) || crate::text::same(k, &chars_of("D"))
        || crate::text::same(k, &chars_of("v")) || crate::text::same(k, &chars_of("f"))
        || crate::text::same(k, &chars_of("F")) || crate::text::same(k, &chars_of("L"))
        || crate::text::same(k, &chars_of("C"))
}

/// Paths systemd-tmpfiles will create, from its `--cat-config`.
pub fn tmpfiles_paths(config: &str) -> (r: Vec<String>)
    ensures
        string_views(r@) == tmpfiles_spec(lines(config@)),
{
    let ls = lines_of(&chars_of(config));
    let hash = chars_of("#");
    let mut out: Vec<Vec<char>> = Vec::new();
    let mut i: usize = 0;
    assert(views(ls@).take(0) =~= seq![]);
    assert(views(out@) =~= seq![]);
    while i < ls.len()
        invariant
            i <= ls.len(),
            hash@ == "#"@,
            views(out@) == tmpfiles_spec(views(ls@).take(i as int)),
        decreases ls.len() - i,
    {
        assert(views(ls@).take(i + 1).drop_last() =~= views(ls@).take(i as int));
        let l = &ls[i];
        let w = words_of(l);
        let ghost before = views(out@);
        if !crate::text::has_prefix(&crate::text::trim_start_of(l), &hash) && trimmed(l).len() > 0
            && w.len() >= 2 && creates_path_of(&type_letter_of(&w[0])) {
            out.push(copy_of(&w[1]));
            assert(views(out@) =~= before.push(views(w@)[1]));
        }
        i = i + 1;
    }
    assert(views(ls@).take(ls.len() as int) =~= views(ls@));
    strings_of(&out)
}

/// The strings among a JSON list's elements, in order.
pub open spec fn somes(s: Seq<Option<Seq<char>>>) -> Seq<Seq<char>>
    decreases s.len(),
{
    if s.len() == 0 {
        seq![]
    } else {
        match s.last() {
            Some(x) => somes(s.drop_last()).push(x),
            None => somes(s.drop_last()),
        }
    }
}

/// The strings under one key of a JSON document: an array's strings, or
/// nothing.
pub open spec fn listed(j: crate::json::JsonView) -> Seq<Seq<char>> {
    match j {
        crate::json::JsonView::List(items) => somes(items),
        _ => seq![],
    }
}

fn listed_of(j: crate::json::Json) -> (r: Vec<String>)
    ensures
        string_views(r@) == listed(j@),
{
    match j {
        crate::json::Json::List(items) => {
            let mut out: Vec<String> = Vec::new();
            let mut i: usize = 0;
            assert(crate::json::opt_views(items@).take(0) =~= seq![]);
            assert(string_views(out@) =~= seq![]);
            while i < items.len()
                invariant
                    i <= items.len(),
                    string_views(out@) == somes(crate::json::opt_views(items@).take(i as int)),
                decreases items.len() - i,
            {
                assert(crate::json::opt_views(items@).take(i + 1).drop_last() =~= crate::json::opt_views(
                    items@,
                ).take(i as int));
                let ghost before = string_views(out@);
                match &items[i] {
                    Some(x) => {
                        let c = owned(x.as_str());
                        out.push(c);
                        assert(string_views(out@) =~= before.push(c@));
                    },
                    None => {},
                }
                i = i + 1;
            }
            assert(crate::json::opt_views(items@).take(items.len() as int) =~= crate::json::opt_views(
                items@,
            ));
            out
        },
        _ => {
            let out: Vec<String> = Vec::new();
            assert(string_views(out@) =~= seq![]);
            out
        },
    }
}

/// The paths persist.json declares, from what serde_json found under its
/// "directories" and "files" keys: the directories, then the files; `None`
/// when the text was not JSON.
pub fn declared_from_fields(directories: crate::json::Json, files: crate::json::Json) -> (r: Option<Vec<String>>)
    ensures
        match r {
            None => directories@ is Invalid,
            Some(v) => !(directories@ is Invalid) && string_views(v@) == listed(directories@) + listed(files@),
        },
{
    let dirs = directories;
    if let crate::json::Json::Invalid(_) = dirs {
        return None;
    }
    let mut out = listed_of(dirs);
    let files = listed_of(files);
    let ghost before = string_views(out@);
    let mut i: usize = 0;
    while i < files.len()
        invariant
            i <= files.len(),
            string_views(out@) == before + string_views(files@).take(i as int),
        decreases files.len() - i,
    {
        let c = owned(files[i].as_str());
        let ghost mid = string_views(out@);
        out.push(c);
        assert(string_views(out@) =~= mid.push(c@));
        assert(string_views(files@).take(i + 1) =~= string_views(files@).take(i as int).push(
            files@[i as int]@,
        ));
        i = i + 1;
    }
    assert(string_views(files@).take(files.len() as int) =~= string_views(files@));
    Some(out)
}

/// The paths persist.json declares: its "directories" then its "files";
/// `None` when the text is not JSON.
pub fn declared_from(raw: &str) -> (r: Option<Vec<String>>)
    ensures
        match r {
            None => crate::json::json_field(raw@, "directories"@) is Invalid,
            Some(v) => !(crate::json::json_field(raw@, "directories"@) is Invalid) && string_views(
                v@,
            ) == listed(crate::json::json_field(raw@, "directories"@)) + listed(
                crate::json::json_field(raw@, "files"@),
            ),
        },
{
    declared_from_fields(crate::json::field(raw, "directories"), crate::json::field(raw, "files"))
}

pub open spec fn loss_outcome(unlisted: Seq<Seq<char>>) -> FindingView {
    let sorted = sorted_texts(unlisted);
    let shown = first_n(sorted, 12);
    let more = sorted.len() - shown.len();
    full(
        Level::Warn,
        decimal(unlisted.len()) + " paths on the root will not survive a reboot"@,
        join(shown, "\n"@) + if more > 0 {
            "\n... and "@ + decimal(more as nat) + " more"@
        } else {
            seq![]
        },
        "decide which matter and add them to kiwami.persist.directories"@,
    )
}

/// Everything on the root that will not survive the next boot, as a finding:
/// sorted, the first twelve shown, the rest counted.
pub fn loss_finding(unlisted: &Vec<String>) -> (f: Finding)
    ensures
        f@ == loss_outcome(string_views(unlisted@)),
{
    let texts = texts_of(unlisted);
    let sorted = sort_texts(&texts);
    proof {
        crate::order::lemma_text_order_total();
        views(texts@).lemma_sort_by_ensures(crate::order::text_order());
        vstd::seq_lib::to_multiset_len(views(texts@));
        vstd::seq_lib::to_multiset_len(sorted_texts(views(texts@)));
        assert(views(texts@).len() == unlisted.len());
    }
    let m: usize = if sorted.len() <= 12 {
        sorted.len()
    } else {
        12
    };
    let mut shown: Vec<Vec<char>> = Vec::new();
    let mut i: usize = 0;
    while i < m
        invariant
            i <= m <= sorted.len(),
            views(shown@) == views(sorted@).take(i as int),
        decreases m - i,
    {
        let ghost before = views(shown@);
        shown.push(copy_of(&sorted[i]));
        assert(views(shown@) =~= before.push(views(sorted@)[i as int]));
        assert(views(sorted@).take(i + 1) =~= views(sorted@).take(i as int).push(
            views(sorted@)[i as int],
        ));
        i = i + 1;
    }
    assert(views(shown@) =~= first_n(views(sorted@), 12)) by {
        if sorted.len() <= 12 {
            assert(views(sorted@).take(m as int) =~= views(sorted@));
        }
    }
    let more = sorted.len() - m;
    let mut detail = joined(&shown, &chars_of("\n"));
    if more > 0 {
        push_str(&mut detail, "\n... and ");
        push_all(&mut detail, &decimal_of(more as u64));
        push_str(&mut detail, " more");
    } else {
        assert(detail@ =~= detail@ + seq![]);
    }
    let mut title = decimal_of(unlisted.len() as u64);
    push_str(&mut title, " paths on the root will not survive a reboot");
    assert(views(sorted@) == sorted_texts(string_views(unlisted@)));
    assert(string_views(unlisted@).len() == unlisted.len());
    assert(detail@ == join(first_n(views(sorted@), 12), "\n"@) + if more > 0 {
        "\n... and "@ + decimal(more as nat) + " more"@
    } else {
        seq![]
    });
    Finding::new(Level::Warn, text_from(title)).detail(text_from(detail)).remedy(
        owned("decide which matter and add them to kiwami.persist.directories"),
    )
}

// ---------------------------------------------------------------- the report

/// How many findings failed, and how many warned.
pub open spec fn count_level(levels: Seq<Level>, l: Level) -> nat
    decreases levels.len(),
{
    if levels.len() == 0 {
        0
    } else {
        count_level(levels.drop_last(), l) + if levels.last() == l {
            1nat
        } else {
            0nat
        }
    }
}

/// The number of failures and of warnings among these levels.
pub fn tally(levels: &Vec<Level>) -> (r: (usize, usize))
    ensures
        r.0 == count_level(levels@, Level::Fail),
        r.1 == count_level(levels@, Level::Warn),
{
    let mut fails: usize = 0;
    let mut warns: usize = 0;
    let mut i: usize = 0;
    while i < levels.len()
        invariant
            i <= levels.len(),
            fails + warns <= i,
            fails == count_level(levels@.take(i as int), Level::Fail),
            warns == count_level(levels@.take(i as int), Level::Warn),
        decreases levels.len() - i,
    {
        assert(levels@.take(i + 1).drop_last() =~= levels@.take(i as int));
        match levels[i] {
            Level::Fail => fails = fails + 1,
            Level::Warn => warns = warns + 1,
            _ => {},
        }
        i = i + 1;
    }
    assert(levels@.take(levels.len() as int) =~= levels@);
    (fails, warns)
}

/// The report's last line.
pub fn closing_line(fails: usize, warns: usize) -> (s: String)
    ensures
        s@ == if fails == 0 && warns == 0 {
            "\x1b[32mno problems\x1b[0m"@
        } else {
            decimal(fails as nat) + " problem(s), "@ + decimal(warns as nat) + " warning(s)"@
        },
{
    if fails == 0 && warns == 0 {
        return owned("\x1b[32mno problems\x1b[0m");
    }
    let mut line = decimal_of(fails as u64);
    push_str(&mut line, " problem(s), ");
    push_all(&mut line, &decimal_of(warns as u64));
    push_str(&mut line, " warning(s)");
    text_from(line)
}

/// Doctor fails when anything failed; warnings alone do not.
pub fn verdict(fails: usize) -> (r: Result<(), ()>)
    ensures
        r is Err <==> fails > 0,
{
    if fails > 0 {
        Err(())
    } else {
        Ok(())
    }
}

/// The line that counts the tools still waiting for a login.
pub fn credentials_line(unauthenticated: usize) -> (s: String)
    ensures
        s@ == "  "@ + decimal(unauthenticated as nat)
            + " tool(s) not authenticated - run `kiwami auth`"@,
{
    let mut line = chars_of("  ");
    push_all(&mut line, &decimal_of(unauthenticated as u64));
    push_str(&mut line, " tool(s) not authenticated - run `kiwami auth`");
    text_from(line)
}

/// Executables in ~/.local/bin or ~/bin that are not symlinks into the
/// store, as a finding.
pub open spec fn stray_outcome(found: Seq<Seq<char>>) -> FindingView {
    if found.len() == 0 {
        bare(Level::Pass, "no stray executables in ~/.local/bin or ~/bin"@)
    } else {
        full(
            Level::Fail,
            decimal(found.len()) + " executable(s) not managed by nix"@,
            join(found, "\n"@),
            "package them in the flake, or delete them"@,
        )
    }
}

pub fn stray_finding(found: &Vec<String>) -> (f: Finding)
    ensures
        f@ == stray_outcome(string_views(found@)),
{
    if found.len() == 0 {
        return Finding::new(Level::Pass, owned("no stray executables in ~/.local/bin or ~/bin"));
    }
    let mut title = decimal_of(found.len() as u64);
    push_str(&mut title, " executable(s) not managed by nix");
    let detail = crate::text::joined(&texts_of(found), &chars_of("\n"));
    Finding::new(Level::Fail, text_from(title)).detail(text_from(detail)).remedy(
        owned("package them in the flake, or delete them"),
    )
}

/// The uid on the `Uid:` line of /proc/self/status, or 1000 when it cannot
/// be read.
pub open spec fn uid_spec(status: Seq<char>) -> nat {
    match crate::text::first_starting(lines(status), "Uid:"@) {
        Some(l) => if words(l).len() >= 2 {
            match crate::text::parse_unsigned(words(l)[1], u32::MAX as nat) {
                Some(n) => n,
                None => 1000,
            }
        } else {
            1000
        },
        None => 1000,
    }
}

pub fn uid_from(status: &str) -> (r: u32)
    ensures
        r == uid_spec(status@),
{
    let ls = lines_of(&chars_of(status));
    match crate::text::first_starting_of(&ls, "Uid:") {
        Some(l) => {
            let w = words_of(&l);
            if w.len() >= 2 {
                assert(views(w@)[1] == w@[1]@);
                match crate::text::parse_unsigned_of(&w[1], 0xffff_ffff) {
                    Some(n) => n as u32,
                    None => 1000,
                }
            } else {
                1000
            }
        },
        None => 1000,
    }
}

} // verus!
