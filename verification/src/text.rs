//! Characters and strings: the small toolkit every command shares.
//!
//! Text is handled as a sequence of `char`s. Each operation mirrors the
//! `str` method it stands for (`trim`, `lines`, `split_whitespace`, ...) and
//! says what it returns as a spec function over `Seq<char>`.

use vstd::prelude::*;

verus! {

// ---------------------------------------------------------------- specs

/// Rust's `char::is_whitespace`: the Unicode `White_Space` property.
pub open spec fn is_ws(c: char) -> bool {
    ||| c == ' ' || c == '\t' || c == '\n' || c == '\x0B' || c == '\x0C' || c == '\r'
    ||| c == '\u{85}' || c == '\u{A0}' || c == '\u{1680}'
    ||| ('\u{2000}' <= c && c <= '\u{200A}')
    ||| c == '\u{2028}' || c == '\u{2029}' || c == '\u{202F}' || c == '\u{205F}' || c == '\u{3000}'
}

/// The index of the first `c` in `s`, or `s.len()` when there is none.
pub open spec fn find_char(s: Seq<char>, c: char) -> int
    decreases s.len(),
{
    if s.len() == 0 {
        0
    } else if s[0] == c {
        0
    } else {
        1 + find_char(s.drop_first(), c)
    }
}

/// The index of the last `c` in `s`, or -1 when there is none.
pub open spec fn rfind_char(s: Seq<char>, c: char) -> int
    decreases s.len(),
{
    if s.len() == 0 {
        -1
    } else if s.last() == c {
        s.len() - 1
    } else {
        rfind_char(s.drop_last(), c)
    }
}

/// `s` without its leading whitespace.
pub open spec fn trim_start(s: Seq<char>) -> Seq<char>
    decreases s.len(),
{
    if s.len() > 0 && is_ws(s[0]) {
        trim_start(s.drop_first())
    } else {
        s
    }
}

/// `s` without its trailing whitespace.
pub open spec fn trim_end(s: Seq<char>) -> Seq<char>
    decreases s.len(),
{
    if s.len() > 0 && is_ws(s.last()) {
        trim_end(s.drop_last())
    } else {
        s
    }
}

/// `str::trim`.
pub open spec fn trim(s: Seq<char>) -> Seq<char> {
    trim_end(trim_start(s))
}

pub open spec fn starts_with(s: Seq<char>, p: Seq<char>) -> bool {
    p.len() <= s.len() && s.subrange(0, p.len() as int) == p
}

pub open spec fn ends_with(s: Seq<char>, p: Seq<char>) -> bool {
    p.len() <= s.len() && s.subrange(s.len() - p.len(), s.len() as int) == p
}

/// `p` occurs in `s` at `i`.
pub open spec fn occurs_at(s: Seq<char>, p: Seq<char>, i: int) -> bool {
    0 <= i && i + p.len() <= s.len() && s.subrange(i, i + p.len()) == p
}

/// `str::contains` with a string pattern.
pub open spec fn contains(s: Seq<char>, p: Seq<char>) -> bool {
    exists|i: int| occurs_at(s, p, i)
}

/// `str::contains` with a `char` pattern.
pub open spec fn has_char(s: Seq<char>, c: char) -> bool {
    exists|i: int| 0 <= i < s.len() && s[i] == c
}

/// The character sequences held by a list of character vectors.
pub open spec fn views(v: Seq<Vec<char>>) -> Seq<Seq<char>> {
    Seq::new(v.len(), |i: int| v[i]@)
}

/// The character sequences held by a list of strings.
pub open spec fn string_views(v: Seq<String>) -> Seq<Seq<char>> {
    Seq::new(v.len(), |i: int| v[i]@)
}

/// A line without the `\r` of a `\r\n` ending.
pub open spec fn strip_cr(s: Seq<char>) -> Seq<char> {
    if s.len() > 0 && s.last() == '\r' {
        s.drop_last()
    } else {
        s
    }
}

/// `str::lines`: split at `\n`, dropping a `\r` before it; a final line
/// ending yields no empty line after it.
pub open spec fn lines(s: Seq<char>) -> Seq<Seq<char>>
    decreases s.len(),
{
    if s.len() == 0 {
        seq![]
    } else {
        let i = find_char(s, '\n');
        if i >= s.len() {
            seq![s]
        } else {
            proof {
                lemma_find_char(s, '\n');
            }
            seq![strip_cr(s.subrange(0, i))] + lines(s.subrange(i + 1, s.len() as int))
        }
    }
}

/// The index of the first whitespace character, or `s.len()`.
pub open spec fn find_ws(s: Seq<char>) -> int
    decreases s.len(),
{
    if s.len() == 0 {
        0
    } else if is_ws(s[0]) {
        0
    } else {
        1 + find_ws(s.drop_first())
    }
}

/// `str::split_whitespace`: the maximal runs of non-whitespace.
pub open spec fn words(s: Seq<char>) -> Seq<Seq<char>>
    decreases s.len(),
{
    let t = trim_start(s);
    if t.len() == 0 {
        seq![]
    } else {
        proof {
            lemma_trim_start_len(s);
            lemma_find_ws(t);
        }
        let j = find_ws(t);
        seq![t.subrange(0, j)] + words(t.subrange(j, t.len() as int))
    }
}

/// `str::split` with a `char` pattern: every piece, empty ones included.
pub open spec fn split(s: Seq<char>, c: char) -> Seq<Seq<char>>
    decreases s.len(),
{
    let i = find_char(s, c);
    if i >= s.len() {
        seq![s]
    } else {
        proof {
            lemma_find_char(s, c);
        }
        seq![s.subrange(0, i)] + split(s.subrange(i + 1, s.len() as int), c)
    }
}

/// `[T]::join` for strings.
pub open spec fn join(parts: Seq<Seq<char>>, sep: Seq<char>) -> Seq<char>
    decreases parts.len(),
{
    if parts.len() == 0 {
        seq![]
    } else if parts.len() == 1 {
        parts[0]
    } else {
        join(parts.drop_last(), sep) + sep + parts.last()
    }
}

/// The decimal digit for `d < 10`.
pub open spec fn digit(d: nat) -> char {
    ((48 + d) as u8) as char
}

/// How `Display` writes an unsigned integer: decimal, no leading zeros.
pub open spec fn decimal(n: nat) -> Seq<char>
    decreases n,
{
    if n < 10 {
        seq![digit(n)]
    } else {
        decimal(n / 10).push(digit(n % 10))
    }
}

// ---------------------------------------------------------------- lemmas

pub proof fn lemma_find_char(s: Seq<char>, c: char)
    ensures
        0 <= find_char(s, c) <= s.len(),
        find_char(s, c) < s.len() ==> s[find_char(s, c)] == c,
        forall|j: int| 0 <= j < find_char(s, c) ==> s[j] != c,
    decreases s.len(),
{
    if s.len() > 0 && s[0] != c {
        lemma_find_char(s.drop_first(), c);
        assert forall|j: int| 0 <= j < find_char(s, c) implies s[j] != c by {
            if j > 0 {
                assert(s[j] == s.drop_first()[j - 1]);
            }
        }
    }
}

/// The first index is the only index with no `c` before it.
pub proof fn lemma_find_char_is(s: Seq<char>, c: char, i: int)
    requires
        0 <= i <= s.len(),
        i < s.len() ==> s[i] == c,
        forall|j: int| 0 <= j < i ==> s[j] != c,
    ensures
        find_char(s, c) == i,
{
    lemma_find_char(s, c);
    let f = find_char(s, c);
    if f < i {
        assert(s[f] != c);
    } else if f > i {
        assert(s[i] == c);
    }
}

pub proof fn lemma_rfind_char(s: Seq<char>, c: char)
    ensures
        -1 <= rfind_char(s, c) < s.len(),
        rfind_char(s, c) >= 0 ==> s[rfind_char(s, c)] == c,
        forall|j: int| rfind_char(s, c) < j < s.len() ==> s[j] != c,
    decreases s.len(),
{
    if s.len() > 0 && s.last() != c {
        lemma_rfind_char(s.drop_last(), c);
        assert forall|j: int| rfind_char(s, c) < j < s.len() implies s[j] != c by {
            if j < s.len() - 1 {
                assert(s[j] == s.drop_last()[j]);
            }
        }
    }
}

pub proof fn lemma_rfind_char_is(s: Seq<char>, c: char, i: int)
    requires
        -1 <= i < s.len(),
        i >= 0 ==> s[i] == c,
        forall|j: int| i < j < s.len() ==> s[j] != c,
    ensures
        rfind_char(s, c) == i,
{
    lemma_rfind_char(s, c);
    let f = rfind_char(s, c);
    if f < i {
        assert(s[i] == c);
    } else if f > i {
        assert(s[f] == c);
    }
}

/// `trim_start` drops exactly the leading whitespace.
pub proof fn lemma_trim_start(s: Seq<char>, i: int)
    requires
        0 <= i <= s.len(),
        i < s.len() ==> !is_ws(s[i]),
        forall|j: int| 0 <= j < i ==> is_ws(s[j]),
    ensures
        trim_start(s) == s.subrange(i, s.len() as int),
    decreases i,
{
    if i == 0 {
        assert(s.subrange(0, s.len() as int) =~= s);
    } else {
        lemma_trim_start(s.drop_first(), i - 1);
        assert(s.drop_first().subrange(i - 1, s.len() - 1) =~= s.subrange(i, s.len() as int));
    }
}

/// `trim_end` drops exactly the trailing whitespace.
pub proof fn lemma_trim_end(s: Seq<char>, k: int)
    requires
        0 <= k <= s.len(),
        k > 0 ==> !is_ws(s[k - 1]),
        forall|j: int| k <= j < s.len() ==> is_ws(s[j]),
    ensures
        trim_end(s) == s.subrange(0, k),
    decreases s.len() - k,
{
    if k == s.len() {
        assert(s.subrange(0, k) =~= s);
    } else {
        lemma_trim_end(s.drop_last(), k);
        assert(s.drop_last().subrange(0, k) =~= s.subrange(0, k));
    }
}

pub proof fn lemma_trim_start_len(s: Seq<char>)
    ensures
        trim_start(s).len() <= s.len(),
        trim_start(s).len() > 0 ==> !is_ws(trim_start(s)[0]),
        trim_start(s) == s.subrange(s.len() - trim_start(s).len(), s.len() as int),
    decreases s.len(),
{
    if s.len() > 0 && is_ws(s[0]) {
        lemma_trim_start_len(s.drop_first());
        assert(s.drop_first().subrange(
            s.len() - 1 - trim_start(s).len(),
            s.len() - 1,
        ) =~= s.subrange(s.len() - trim_start(s).len(), s.len() as int));
    } else {
        assert(s.subrange(0, s.len() as int) =~= s);
    }
}

pub proof fn lemma_find_ws(s: Seq<char>)
    ensures
        0 <= find_ws(s) <= s.len(),
        find_ws(s) < s.len() ==> is_ws(s[find_ws(s)]),
        forall|j: int| 0 <= j < find_ws(s) ==> !is_ws(s[j]),
        s.len() > 0 && !is_ws(s[0]) ==> find_ws(s) >= 1,
    decreases s.len(),
{
    if s.len() > 0 && !is_ws(s[0]) {
        lemma_find_ws(s.drop_first());
        assert forall|j: int| 0 <= j < find_ws(s) implies !is_ws(s[j]) by {
            if j > 0 {
                assert(s[j] == s.drop_first()[j - 1]);
            }
        }
    }
}

pub proof fn lemma_find_ws_is(s: Seq<char>, i: int)
    requires
        0 <= i <= s.len(),
        i < s.len() ==> is_ws(s[i]),
        forall|j: int| 0 <= j < i ==> !is_ws(s[j]),
    ensures
        find_ws(s) == i,
{
    lemma_find_ws(s);
    let f = find_ws(s);
    if f < i {
        assert(!is_ws(s[f]));
    } else if f > i {
        assert(is_ws(s[i]));
    }
}

// ---------------------------------------------------------------- exec

/// The characters of a string slice.
pub fn chars_of(s: &str) -> (v: Vec<char>)
    ensures
        v@ == s@,
{
    let mut v: Vec<char> = Vec::new();
    for c in it: s.chars()
        invariant
            v@ == it.seq().take(it.index() as int),
            it.seq() == s@,
    {
        v.push(c);
    }
    v
}

/// A `String` holding these characters, in order.
///
/// Trusted: wraps `Iterator::collect` into `String`, which std documents as
/// concatenating the characters it is given.
#[verifier::external_body]
pub(crate) fn string_of(v: &Vec<char>) -> (s: String)
    ensures
        s@ == v@,
{
    v.iter().collect()
}

pub fn char_is_ws(c: char) -> (r: bool)
    ensures
        r == is_ws(c),
{
    c == ' ' || c == '\t' || c == '\n' || c == '\x0B' || c == '\x0C' || c == '\r' || c == '\u{85}'
        || c == '\u{A0}' || c == '\u{1680}' || ('\u{2000}' <= c && c <= '\u{200A}') || c
        == '\u{2028}' || c == '\u{2029}' || c == '\u{202F}' || c == '\u{205F}' || c == '\u{3000}'
}

/// A copy of `v[lo..hi]`.
pub fn slice_of(v: &Vec<char>, lo: usize, hi: usize) -> (r: Vec<char>)
    requires
        lo <= hi <= v.len(),
    ensures
        r@ == v@.subrange(lo as int, hi as int),
{
    let mut r: Vec<char> = Vec::new();
    let mut i = lo;
    while i < hi
        invariant
            lo <= i <= hi <= v.len(),
            r@ == v@.subrange(lo as int, i as int),
        decreases hi - i,
    {
        r.push(v[i]);
        i = i + 1;
        assert(r@ =~= v@.subrange(lo as int, i as int));
    }
    r
}

/// A copy of `v`.
pub fn copy_of(v: &Vec<char>) -> (r: Vec<char>)
    ensures
        r@ == v@,
{
    let r = slice_of(v, 0, v.len());
    assert(r@ =~= v@);
    r
}

/// `a` followed by `b`.
pub fn cat(a: &Vec<char>, b: &Vec<char>) -> (r: Vec<char>)
    ensures
        r@ == a@ + b@,
{
    let mut r = a.clone();
    assert(r@ =~= a@);
    let mut i: usize = 0;
    while i < b.len()
        invariant
            i <= b.len(),
            r@ == a@ + b@.subrange(0, i as int),
        decreases b.len() - i,
    {
        r.push(b[i]);
        i = i + 1;
        assert(r@ =~= a@ + b@.subrange(0, i as int));
    }
    assert(b@.subrange(0, b.len() as int) =~= b@);
    r
}

/// Append `b` to `a` in place.
pub fn push_all(a: &mut Vec<char>, b: &Vec<char>)
    ensures
        final(a)@ == old(a)@ + b@,
{
    let mut i: usize = 0;
    while i < b.len()
        invariant
            i <= b.len(),
            a@ == old(a)@ + b@.subrange(0, i as int),
        decreases b.len() - i,
    {
        a.push(b[i]);
        i = i + 1;
        assert(a@ =~= old(a)@ + b@.subrange(0, i as int));
    }
    assert(b@.subrange(0, b.len() as int) =~= b@);
}

/// Append the characters of a string slice in place.
pub fn push_str(a: &mut Vec<char>, s: &str)
    ensures
        final(a)@ == old(a)@ + s@,
{
    let b = chars_of(s);
    push_all(a, &b);
}

/// `str::find` with a `char` pattern, as an index into the characters.
pub fn find(v: &Vec<char>, c: char) -> (r: usize)
    ensures
        r == find_char(v@, c),
{
    let mut i: usize = 0;
    while i < v.len() && v[i] != c
        invariant
            i <= v.len(),
            forall|j: int| 0 <= j < i ==> v@[j] != c,
        decreases v.len() - i,
    {
        i = i + 1;
    }
    proof {
        lemma_find_char_is(v@, c, i as int);
    }
    i
}

/// `str::rfind` with a `char` pattern.
pub fn rfind(v: &Vec<char>, c: char) -> (r: Option<usize>)
    ensures
        match r {
            Some(i) => i == rfind_char(v@, c),
            None => rfind_char(v@, c) == -1,
        },
{
    let mut k: usize = v.len();
    while k > 0 && v[k - 1] != c
        invariant
            k <= v.len(),
            forall|j: int| k <= j < v.len() ==> v@[j] != c,
        decreases k,
    {
        k = k - 1;
    }
    proof {
        lemma_rfind_char_is(v@, c, k - 1);
    }
    if k == 0 {
        None
    } else {
        Some(k - 1)
    }
}

/// `str::trim_start`.
pub fn trim_start_of(v: &Vec<char>) -> (r: Vec<char>)
    ensures
        r@ == trim_start(v@),
{
    let mut i: usize = 0;
    while i < v.len() && char_is_ws(v[i])
        invariant
            i <= v.len(),
            forall|j: int| 0 <= j < i ==> is_ws(v@[j]),
        decreases v.len() - i,
    {
        i = i + 1;
    }
    proof {
        lemma_trim_start(v@, i as int);
    }
    slice_of(v, i, v.len())
}

/// `str::trim`.
pub fn trimmed(v: &Vec<char>) -> (r: Vec<char>)
    ensures
        r@ == trim(v@),
{
    let mut i: usize = 0;
    while i < v.len() && char_is_ws(v[i])
        invariant
            i <= v.len(),
            forall|j: int| 0 <= j < i ==> is_ws(v@[j]),
        decreases v.len() - i,
    {
        i = i + 1;
    }
    let mut k: usize = v.len();
    while k > i && char_is_ws(v[k - 1])
        invariant
            i <= k <= v.len(),
            forall|j: int| k <= j < v.len() ==> is_ws(v@[j]),
        decreases k,
    {
        k = k - 1;
    }
    proof {
        lemma_trim_start(v@, i as int);
        let t = v@.subrange(i as int, v.len() as int);
        lemma_trim_end(t, k - i);
        assert(t.subrange(0, k - i) =~= v@.subrange(i as int, k as int));
    }
    slice_of(v, i, k)
}

/// `str::starts_with`.
pub fn has_prefix(v: &Vec<char>, p: &Vec<char>) -> (r: bool)
    ensures
        r == starts_with(v@, p@),
{
    if p.len() > v.len() {
        return false;
    }
    let mut i: usize = 0;
    while i < p.len()
        invariant
            p.len() <= v.len(),
            i <= p.len(),
            forall|j: int| 0 <= j < i ==> v@[j] == p@[j],
        decreases p.len() - i,
    {
        if v[i] != p[i] {
            assert(v@.subrange(0, p.len() as int)[i as int] != p@[i as int]);
            return false;
        }
        i = i + 1;
    }
    assert(v@.subrange(0, p.len() as int) =~= p@);
    true
}

/// Whether `p` occurs in `v` at `at`.
pub fn matches_at(v: &Vec<char>, p: &Vec<char>, at: usize) -> (r: bool)
    ensures
        r == occurs_at(v@, p@, at as int),
{
    if at > v.len() || p.len() > v.len() - at {
        return false;
    }
    let mut i: usize = 0;
    while i < p.len()
        invariant
            at + p.len() <= v.len(),
            i <= p.len(),
            forall|j: int| 0 <= j < i ==> v@[at + j] == p@[j],
        decreases p.len() - i,
    {
        if v[at + i] != p[i] {
            assert(v@.subrange(at as int, at + p.len())[i as int] != p@[i as int]);
            return false;
        }
        i = i + 1;
    }
    assert(v@.subrange(at as int, at + p.len()) =~= p@);
    true
}

/// `str::ends_with`.
pub fn has_suffix(v: &Vec<char>, p: &Vec<char>) -> (r: bool)
    ensures
        r == ends_with(v@, p@),
{
    if p.len() > v.len() {
        return false;
    }
    matches_at(v, p, v.len() - p.len())
}

/// `str::contains` with a string pattern.
pub fn has_sub(v: &Vec<char>, p: &Vec<char>) -> (r: bool)
    ensures
        r == contains(v@, p@),
{
    if p.len() > v.len() {
        return false;
    }
    let last = v.len() - p.len();
    let mut i: usize = 0;
    loop
        invariant
            p.len() <= v.len(),
            last == v.len() - p.len(),
            i <= last,
            forall|j: int| 0 <= j < i ==> !occurs_at(v@, p@, j),
        ensures
            forall|j: int| 0 <= j <= last ==> !occurs_at(v@, p@, j),
        decreases last - i,
    {
        if matches_at(v, p, i) {
            return true;
        }
        if i == last {
            break;
        }
        i = i + 1;
    }
    assert forall|j: int| !occurs_at(v@, p@, j) by {
        if 0 <= j && j + p.len() <= v.len() {
            assert(j <= last);
        }
    }
    false
}

/// `str::contains` with a `char` pattern.
pub fn has(v: &Vec<char>, c: char) -> (r: bool)
    ensures
        r == has_char(v@, c),
{
    let i = find(v, c);
    proof {
        lemma_find_char(v@, c);
    }
    i < v.len()
}

/// Character-wise equality.
pub fn same(a: &Vec<char>, b: &Vec<char>) -> (r: bool)
    ensures
        r == (a@ == b@),
{
    if a.len() != b.len() {
        return false;
    }
    let r = has_prefix(a, b);
    proof {
        assert(a@ =~= a@.subrange(0, b.len() as int));
    }
    r
}


fn strip_cr_of(v: Vec<char>) -> (r: Vec<char>)
    ensures
        r@ == strip_cr(v@),
{
    let mut v = v;
    if v.len() > 0 && v[v.len() - 1] == '\r' {
        v.pop();
    }
    v
}

/// `str::lines`.
pub fn lines_of(v: &Vec<char>) -> (r: Vec<Vec<char>>)
    ensures
        views(r@) == lines(v@),
{
    let mut out: Vec<Vec<char>> = Vec::new();
    let mut start: usize = 0;
    assert(v@.subrange(0, v.len() as int) =~= v@);
    assert(views(out@) =~= seq![]);
    while start < v.len()
        invariant
            start <= v.len(),
            lines(v@) == views(out@) + lines(v@.subrange(start as int, v.len() as int)),
        decreases v.len() - start,
    {
        let rest = slice_of(v, start, v.len());
        let i = find(&rest, '\n');
        proof {
            lemma_find_char(rest@, '\n');
        }
        let ghost before = views(out@);
        if i == rest.len() {
            out.push(rest);
            start = v.len();
            assert(views(out@) =~= before.push(rest@));
            assert(lines(v@.subrange(start as int, v.len() as int)) =~= seq![]);
        } else {
            let piece = strip_cr_of(slice_of(&rest, 0, i));
            out.push(piece);
            assert(views(out@) =~= before.push(piece@));
            assert(rest@.subrange(i + 1, rest.len() as int) =~= v@.subrange(
                start + i + 1,
                v.len() as int,
            ));
            start = start + i + 1;
        }
    }
    assert(lines(v@.subrange(start as int, v.len() as int)) =~= seq![]);
    out
}

/// `str::split_whitespace`.
pub fn words_of(v: &Vec<char>) -> (r: Vec<Vec<char>>)
    ensures
        views(r@) == words(v@),
{
    let mut out: Vec<Vec<char>> = Vec::new();
    let mut pos: usize = 0;
    assert(v@.subrange(0, v.len() as int) =~= v@);
    assert(views(out@) =~= seq![]);
    while pos < v.len()
        invariant
            pos <= v.len(),
            words(v@) == views(out@) + words(v@.subrange(pos as int, v.len() as int)),
        decreases v.len() - pos,
    {
        let ghost rest = v@.subrange(pos as int, v.len() as int);
        let mut i = pos;
        while i < v.len() && char_is_ws(v[i])
            invariant
                pos <= i <= v.len(),
                forall|j: int| pos <= j < i ==> is_ws(v@[j]),
            decreases v.len() - i,
        {
            i = i + 1;
        }
        proof {
            lemma_trim_start(rest, i - pos);
        }
        if i == v.len() {
            assert(words(rest) =~= seq![]);
            pos = v.len();
        } else {
            let mut k = i;
            while k < v.len() && !char_is_ws(v[k])
                invariant
                    i <= k <= v.len(),
                    forall|j: int| i <= j < k ==> !is_ws(v@[j]),
                decreases v.len() - k,
            {
                k = k + 1;
            }
            let ghost t = rest.subrange(i - pos, rest.len() as int);
            proof {
                lemma_find_ws_is(t, k - i);
                assert(t.subrange(0, k - i) =~= v@.subrange(i as int, k as int));
                assert(t.subrange(k - i, t.len() as int) =~= v@.subrange(k as int, v.len() as int));
            }
            let piece = slice_of(v, i, k);
            let ghost before = views(out@);
            out.push(piece);
            assert(views(out@) =~= before.push(piece@));
            pos = k;
        }
    }
    assert(words(v@.subrange(pos as int, v.len() as int)) =~= seq![]) by {
        assert(trim_start(v@.subrange(pos as int, v.len() as int)) =~= seq![]);
    }
    out
}

/// `str::split` with a `char` pattern.
pub fn split_of(v: &Vec<char>, c: char) -> (r: Vec<Vec<char>>)
    ensures
        views(r@) == split(v@, c),
{
    let mut out: Vec<Vec<char>> = Vec::new();
    let mut start: usize = 0;
    assert(v@.subrange(0, v.len() as int) =~= v@);
    assert(views(out@) =~= seq![]);
    loop
        invariant
            start <= v.len(),
            split(v@, c) == views(out@) + split(v@.subrange(start as int, v.len() as int), c),
        decreases v.len() - start,
    {
        let rest = slice_of(v, start, v.len());
        let i = find(&rest, c);
        proof {
            lemma_find_char(rest@, c);
        }
        let ghost before = views(out@);
        if i == rest.len() {
            out.push(rest);
            assert(views(out@) =~= before.push(rest@));
            return out;
        } else {
            let piece = slice_of(&rest, 0, i);
            out.push(piece);
            assert(views(out@) =~= before.push(piece@));
            assert(rest@.subrange(i + 1, rest.len() as int) =~= v@.subrange(
                start + i + 1,
                v.len() as int,
            ));
            start = start + i + 1;
        }
    }
}

/// `[T]::join` for strings.
pub fn joined(parts: &Vec<Vec<char>>, sep: &Vec<char>) -> (r: Vec<char>)
    ensures
        r@ == join(views(parts@), sep@),
{
    let mut r: Vec<char> = Vec::new();
    let mut i: usize = 0;
    while i < parts.len()
        invariant
            i <= parts.len(),
            r@ == join(views(parts@).take(i as int), sep@),
        decreases parts.len() - i,
    {
        let ghost p = views(parts@);
        if i > 0 {
            push_all(&mut r, sep);
        }
        push_all(&mut r, &parts[i]);
        proof {
            assert(p.take(i + 1).drop_last() =~= p.take(i as int));
            if i == 0 {
                assert(r@ =~= p[0]);
            }
        }
        i = i + 1;
    }
    assert(views(parts@).take(parts.len() as int) =~= views(parts@));
    r
}

fn digit_of(d: u64) -> (c: char)
    requires
        d < 10,
    ensures
        c == digit(d as nat),
{
    ((48 + d) as u8) as char
}

/// `n.to_string()`.
pub fn decimal_of(n: u64) -> (r: Vec<char>)
    ensures
        r@ == decimal(n as nat),
    decreases n,
{
    if n < 10 {
        let mut r = Vec::new();
        r.push(digit_of(n));
        assert(r@ =~= decimal(n as nat));
        r
    } else {
        let mut r = decimal_of(n / 10);
        r.push(digit_of(n % 10));
        r
    }
}


// ---------------------------------------------------------------- numbers

pub open spec fn is_digit(c: char) -> bool {
    '0' <= c && c <= '9'
}

pub open spec fn all_digits(s: Seq<char>) -> bool {
    forall|i: int| 0 <= i < s.len() ==> is_digit(s[i])
}

/// The number a string of decimal digits denotes.
pub open spec fn digits_value(s: Seq<char>) -> nat
    decreases s.len(),
{
    if s.len() == 0 {
        0
    } else {
        digits_value(s.drop_last()) * 10 + ((s.last() as int - '0' as int) as nat)
    }
}

/// `str::parse` for an unsigned integer type whose largest value is `max`:
/// an optional `+`, then one or more decimal digits, and no overflow.
pub open spec fn parse_unsigned(s: Seq<char>, max: nat) -> Option<nat> {
    let t = if s.len() > 0 && s[0] == '+' {
        s.drop_first()
    } else {
        s
    };
    if t.len() == 0 || !all_digits(t) || digits_value(t) > max {
        None
    } else {
        Some(digits_value(t))
    }
}

proof fn lemma_digits_value_grows(s: Seq<char>, i: int)
    requires
        0 <= i <= s.len(),
        all_digits(s),
    ensures
        digits_value(s.take(i)) <= digits_value(s),
    decreases s.len() - i,
{
    if i < s.len() {
        lemma_digits_value_grows(s, i + 1);
        assert(s.take(i + 1).drop_last() =~= s.take(i));
    } else {
        assert(s.take(i) =~= s);
    }
}

/// Parse an unsigned decimal no larger than `max`, as `str::parse` does.
pub fn parse_unsigned_of(v: &Vec<char>, max: u64) -> (r: Option<u64>)
    ensures
        match r {
            Some(n) => parse_unsigned(v@, max as nat) == Some(n as nat),
            None => parse_unsigned(v@, max as nat) is None,
        },
{
    let start: usize = if v.len() > 0 && v[0] == '+' {
        1
    } else {
        0
    };
    let ghost t = if v@.len() > 0 && v@[0] == '+' {
        v@.drop_first()
    } else {
        v@
    };
    assert(t =~= v@.subrange(start as int, v.len() as int));
    if start == v.len() {
        return None;
    }
    let mut acc: u64 = 0;
    let mut i = start;
    while i < v.len()
        invariant
            start <= i <= v.len(),
            t =~= v@.subrange(start as int, v.len() as int),
            t == (if v@.len() > 0 && v@[0] == '+' {
                v@.drop_first()
            } else {
                v@
            }),
            all_digits(t.take(i - start)),
            acc as nat == digits_value(t.take(i - start)),
            acc <= max,
        decreases v.len() - i,
    {
        let c = v[i];
        assert(t[i - start] == c);
        if !('0' <= c && c <= '9') {
            assert(!is_digit(t[i - start]));
            assert(!all_digits(t));
            return None;
        }
        let d = (c as u32 - '0' as u32) as u64;
        assert(d == (c as int - '0' as int));
        assert(t.take(i + 1 - start).last() == c);
        assert(t.take(i + 1 - start).drop_last() =~= t.take(i - start));
        if d > max || acc > (max - d) / 10 {
            proof {
                assert(all_digits(t.take(i + 1 - start)));
                assert(digits_value(t.take(i + 1 - start)) == acc * 10 + d);
                if d <= max {
                    assert(acc * 10 + d > max) by (nonlinear_arith)
                        requires
                            acc > (max - d) / 10,
                            d <= max,
                    ;
                }
                if all_digits(t) {
                    lemma_digits_value_grows(t, i + 1 - start);
                    assert(digits_value(t) > max);
                }
            }
            return None;
        }
        assert(acc * 10 + d <= max) by (nonlinear_arith)
            requires
                acc <= (max - d) / 10,
                d <= max,
        ;
        acc = acc * 10 + d;
        i = i + 1;
    }
    assert(t.take(v.len() - start) =~= t);
    Some(acc)
}

// ---------------------------------------------------------------- bytes

pub open spec fn min_nat(a: nat, b: nat) -> nat {
    if a <= b {
        a
    } else {
        b
    }
}

/// How many bytes UTF-8 spends on `c`.
pub open spec fn utf8_width(c: char) -> nat {
    if (c as int) < 0x80 {
        1
    } else if (c as int) < 0x800 {
        2
    } else if (c as int) < 0x10000 {
        3
    } else {
        4
    }
}

/// The UTF-8 length of a string, in bytes: what `str::len` returns.
pub open spec fn utf8_len(s: Seq<char>) -> nat
    decreases s.len(),
{
    if s.len() == 0 {
        0
    } else {
        utf8_len(s.drop_last()) + utf8_width(s.last())
    }
}

/// Byte `n` of the UTF-8 encoding falls between two characters.
pub open spec fn is_boundary(s: Seq<char>, n: nat) -> bool {
    exists|k: int| 0 <= k <= s.len() && utf8_len(s.take(k)) == n
}

pub fn utf8_width_of(c: char) -> (w: usize)
    ensures
        w == utf8_width(c),
{
    let n = c as u32;
    if n < 0x80 {
        1
    } else if n < 0x800 {
        2
    } else if n < 0x10000 {
        3
    } else {
        4
    }
}

pub proof fn lemma_utf8_len_grows(s: Seq<char>, j: int, k: int)
    requires
        0 <= j <= k <= s.len(),
    ensures
        utf8_len(s.take(j)) + (k - j) <= utf8_len(s.take(k)),
    decreases k - j,
{
    if j < k {
        lemma_utf8_len_grows(s, j, k - 1);
        assert(s.take(k).drop_last() =~= s.take(k - 1));
    }
}

/// `&s[..n]` for a byte index `n`, which Rust allows only on a character
/// boundary: the characters whose encoding is the first `n` bytes.
pub fn byte_prefix(v: &Vec<char>, n: usize) -> (r: Option<Vec<char>>)
    ensures
        match r {
            Some(p) => p@.len() <= v@.len() && p@ == v@.take(p@.len() as int) && utf8_len(p@)
                == n,
            None => !is_boundary(v@, n as nat),
        },
{
    let mut k: usize = 0;
    let mut bytes: usize = 0;
    while k < v.len() && bytes < n
        invariant
            k <= v.len(),
            bytes == utf8_len(v@.take(k as int)),
            bytes <= n || k == 0,
        decreases v.len() - k,
    {
        let w = utf8_width_of(v[k]);
        assert(v@.take(k + 1).drop_last() =~= v@.take(k as int));
        if w > n - bytes {
            proof {
                assert forall|j: int| 0 <= j <= v@.len() implies utf8_len(v@.take(j)) != n by {
                    if j <= k {
                        lemma_utf8_len_grows(v@, j, k as int);
                    } else {
                        lemma_utf8_len_grows(v@, k + 1, j);
                    }
                }
            }
            return None;
        }
        bytes = bytes + w;
        k = k + 1;
    }
    if bytes == n {
        Some(slice_of(v, 0, k))
    } else {
        proof {
            assert forall|j: int| 0 <= j <= v@.len() implies utf8_len(v@.take(j)) != n by {
                if j <= k {
                    lemma_utf8_len_grows(v@, j, k as int);
                }
            }
        }
        None
    }
}


/// The UTF-8 length of these characters, or `cap` if that is less.
pub fn utf8_len_capped(v: &Vec<char>, cap: usize) -> (n: usize)
    ensures
        n == min_nat(utf8_len(v@), cap as nat),
{
    let mut n: usize = 0;
    let mut i: usize = 0;
    while i < v.len() && n < cap
        invariant
            i <= v.len(),
            n == utf8_len(v@.take(i as int)),
            n <= cap,
        decreases v.len() - i,
    {
        assert(v@.take(i + 1).drop_last() =~= v@.take(i as int));
        let w = utf8_width_of(v[i]);
        if w > cap - n {
            proof {
                lemma_utf8_len_grows(v@, i + 1, v.len() as int);
                assert(v@.take(v.len() as int) =~= v@);
            }
            return cap;
        }
        n = n + w;
        i = i + 1;
    }
    proof {
        lemma_utf8_len_grows(v@, i as int, v.len() as int);
        assert(v@.take(v.len() as int) =~= v@);
    }
    n
}

/// Different prefixes have different UTF-8 lengths.
pub proof fn lemma_boundary_unique(s: Seq<char>, j: int, k: int)
    requires
        0 <= j <= s.len(),
        0 <= k <= s.len(),
        utf8_len(s.take(j)) == utf8_len(s.take(k)),
    ensures
        j == k,
{
    if j < k {
        lemma_utf8_len_grows(s, j, k);
    } else if k < j {
        lemma_utf8_len_grows(s, k, j);
    }
}

/// `&s[..n]` as characters, for a byte index `n` on a character boundary.
pub open spec fn byte_take(s: Seq<char>, n: nat) -> Seq<char> {
    s.take(choose|k: int| 0 <= k <= s.len() && utf8_len(s.take(k)) == n)
}

pub proof fn lemma_byte_take(s: Seq<char>, k: int, n: nat)
    requires
        0 <= k <= s.len(),
        utf8_len(s.take(k)) == n,
    ensures
        byte_take(s, n) == s.take(k),
{
    let c = choose|k: int| 0 <= k <= s.len() && utf8_len(s.take(k)) == n;
    lemma_boundary_unique(s, c, k);
}

// ---------------------------------------------------------------- lookups

/// The first line that starts with `p`: `lines.find(|l| l.starts_with(p))`.
pub open spec fn first_starting(ls: Seq<Seq<char>>, p: Seq<char>) -> Option<Seq<char>>
    decreases ls.len(),
{
    if ls.len() == 0 {
        None
    } else if starts_with(ls[0], p) {
        Some(ls[0])
    } else {
        first_starting(ls.drop_first(), p)
    }
}

/// The first line that starts with `p`.
pub fn first_starting_of(ls: &Vec<Vec<char>>, p: &str) -> (r: Option<Vec<char>>)
    ensures
        match r {
            Some(l) => first_starting(views(ls@), p@) == Some(l@),
            None => first_starting(views(ls@), p@) is None,
        },
{
    let pv = chars_of(p);
    let mut i: usize = 0;
    assert(views(ls@).skip(0) =~= views(ls@));
    while i < ls.len()
        invariant
            i <= ls.len(),
            pv@ == p@,
            first_starting(views(ls@), p@) == first_starting(views(ls@).skip(i as int), p@),
        decreases ls.len() - i,
    {
        let ghost rest = views(ls@).skip(i as int);
        assert(rest[0] == ls@[i as int]@);
        if has_prefix(&ls[i], &pv) {
            return Some(copy_of(&ls[i]));
        }
        assert(rest.drop_first() =~= views(ls@).skip(i + 1));
        i = i + 1;
    }
    assert(views(ls@).skip(i as int) =~= seq![]);
    None
}

/// `str::find` with a string pattern: where `p` first occurs in `s`.
pub closed spec fn first_occurrence(s: Seq<char>, p: Seq<char>) -> Option<int> {
    if contains(s, p) {
        Some(choose|i: int| occurs_at(s, p, i) && forall|j: int| 0 <= j < i ==> !occurs_at(s, p, j))
    } else {
        None
    }
}

/// The first occurrence is the one before which there is none.
pub proof fn lemma_first_occurrence(s: Seq<char>, p: Seq<char>, i: int)
    requires
        occurs_at(s, p, i),
        forall|j: int| 0 <= j < i ==> !occurs_at(s, p, j),
    ensures
        first_occurrence(s, p) == Some(i),
{
    assert(contains(s, p));
    assert(exists|k: int| occurs_at(s, p, k) && forall|j: int| 0 <= j < k ==> !occurs_at(s, p, j));
    let k = choose|k: int| occurs_at(s, p, k) && forall|j: int| 0 <= j < k ==> !occurs_at(s, p, j);
    if k < i {
        assert(!occurs_at(s, p, k));
    } else if i < k {
        assert(!occurs_at(s, p, i));
    }
}

/// `str::find` with a string pattern, as an index into the characters.
pub fn find_sub(v: &Vec<char>, p: &Vec<char>) -> (r: Option<usize>)
    ensures
        match r {
            Some(i) => first_occurrence(v@, p@) == Some(i as int) && occurs_at(v@, p@, i as int),
            None => first_occurrence(v@, p@) is None,
        },
{
    if p.len() > v.len() {
        assert forall|j: int| !occurs_at(v@, p@, j) by {}
        return None;
    }
    let last = v.len() - p.len();
    let mut i: usize = 0;
    loop
        invariant
            p.len() <= v.len(),
            last == v.len() - p.len(),
            i <= last,
            forall|j: int| 0 <= j < i ==> !occurs_at(v@, p@, j),
        decreases last - i,
    {
        if matches_at(v, p, i) {
            proof {
                lemma_first_occurrence(v@, p@, i as int);
            }
            return Some(i);
        }
        if i == last {
            assert forall|j: int| !occurs_at(v@, p@, j) by {
                if 0 <= j && j + p.len() <= v.len() {
                    assert(j <= last);
                }
            }
            return None;
        }
        i = i + 1;
    }
}

/// What `str::to_lowercase` gives for these characters: each one mapped to
/// its Unicode lowercase form.
pub uninterp spec fn lowercase(s: Seq<char>) -> Seq<char>;

/// Whether every character is ASCII.
pub open spec fn is_ascii_text(s: Seq<char>) -> bool {
    forall|i: int| 0 <= i < s.len() ==> (#[trigger] s[i] as u32) < 128
}

/// An ASCII letter's lowercase form: `A`-`Z` become `a`-`z`, anything else
/// is kept.
pub open spec fn ascii_lower_char(c: char) -> char {
    if 'A' <= c && c <= 'Z' {
        ((c as u32) + 32) as char
    } else {
        c
    }
}

pub open spec fn ascii_lower(s: Seq<char>) -> Seq<char> {
    Seq::new(s.len(), |i: int| ascii_lower_char(s[i]))
}

/// What lowercasing gives: spelled out for ASCII text, named otherwise.
pub open spec fn lower(s: Seq<char>) -> Seq<char> {
    if is_ascii_text(s) {
        ascii_lower(s)
    } else {
        lowercase(s)
    }
}

/// `str::to_lowercase`.
///
/// Trusted: std maps each character through the Unicode `Lowercase`
/// tables. The result is named, as a function of the characters alone; for
/// ASCII text the contract also states it: `A`-`Z` become `a`-`z` and every
/// other character is kept, one for one. Beyond ASCII nothing more is stated
/// (a character may lowercase to several).
#[verifier::external_body]
pub(crate) fn to_lower(s: &str) -> (r: String)
    ensures
        r@ == lowercase(s@),
        is_ascii_text(s@) ==> r@ == ascii_lower(s@),
{
    s.to_lowercase()
}

/// `str::split` always yields at least one piece.
pub proof fn lemma_split_nonempty(s: Seq<char>, c: char)
    ensures
        split(s, c).len() >= 1,
{
    lemma_find_char(s, c);
}

pub proof fn lemma_trim_end_len(s: Seq<char>)
    ensures
        trim_end(s).len() <= s.len(),
    decreases s.len(),
{
    if s.len() > 0 && is_ws(s.last()) {
        lemma_trim_end_len(s.drop_last());
    }
}

/// Text that is already trimmed comes back from `trim` unchanged when a
/// line ending is added to it.
pub proof fn lemma_trim_newline(s: Seq<char>)
    requires
        s.len() > 0,
        trim(s) == s,
    ensures
        trim(s + "\n"@) == s,
{
    reveal_strlit("\n");
    let t = trim_start(s);
    lemma_trim_start_len(s);
    lemma_trim_end_len(t);
    assert(t.len() == s.len());
    assert(t =~= s);
    if is_ws(s[0]) {
        lemma_trim_start_len(s.drop_first());
    }
    let u = s + "\n"@;
    assert(u[0] == s[0]);
    assert(trim_start(u) == u);
    assert(u.last() == '\n');
    assert(u.drop_last() =~= s);
    assert(trim_end(u) == trim_end(s));
}

/// A run of non-whitespace: what `words` yields.
pub open spec fn word_like(w: Seq<char>) -> bool {
    w.len() > 0 && forall|j: int| 0 <= j < w.len() ==> !is_ws(#[trigger] w[j])
}

/// Every word is a non-empty run of non-whitespace.
pub proof fn lemma_words_are_words(s: Seq<char>)
    ensures
        forall|i: int| 0 <= i < words(s).len() ==> word_like(#[trigger] words(s)[i]),
    decreases s.len(),
{
    let t = trim_start(s);
    lemma_trim_start_len(s);
    if t.len() > 0 {
        lemma_find_ws(t);
        let j = find_ws(t);
        lemma_words_are_words(t.subrange(j, t.len() as int));
        let w = t.subrange(0, j);
        assert(word_like(w));
        assert forall|i: int| 0 <= i < words(s).len() implies word_like(#[trigger] words(s)[i]) by {
            if i > 0 {
                assert(words(s)[i] == words(t.subrange(j, t.len() as int))[i - 1]);
            }
        }
    }
}

/// `join` read from the front.
pub proof fn lemma_join_front(ws: Seq<Seq<char>>, sep: Seq<char>)
    requires
        ws.len() >= 2,
    ensures
        join(ws, sep) == ws[0] + sep + join(ws.drop_first(), sep),
    decreases ws.len(),
{
    if ws.len() == 2 {
        assert(join(ws.drop_last(), sep) == ws.drop_last()[0]);
        assert(join(ws.drop_first(), sep) == ws.drop_first()[0]);
        assert(join(ws, sep) == join(ws.drop_last(), sep) + sep + ws.last());
    } else {
        let dl = ws.drop_last();
        let df = ws.drop_first();
        lemma_join_front(dl, sep);
        assert(dl.drop_first() =~= df.drop_last());
        assert(df.last() == ws.last());
        assert(dl[0] == ws[0]);
        assert(join(ws, sep) == join(dl, sep) + sep + ws.last());
        assert(join(df, sep) == join(df.drop_last(), sep) + sep + df.last());
        assert(join(ws, sep) =~= ws[0] + sep + (join(df.drop_last(), sep) + sep + df.last()));
    }
}

/// Words joined with single spaces, between spaces, split back into the
/// same words.
pub proof fn lemma_words_of_joined(ws: Seq<Seq<char>>)
    requires
        forall|i: int| 0 <= i < ws.len() ==> word_like(#[trigger] ws[i]),
    ensures
        words(" "@ + join(ws, " "@) + " "@) == ws,
    decreases ws.len(),
{
    reveal_strlit(" ");
    let sp = " "@;
    assert(is_ws(' '));
    if ws.len() == 0 {
        let s = sp + join(ws, sp) + sp;
        assert(s =~= seq![' ', ' ']);
        lemma_trim_start(s, 2);
        assert(trim_start(s).len() == 0);
    } else {
        let w0 = ws[0];
        assert(word_like(w0));
        let r = if ws.len() == 1 {
            sp
        } else {
            sp + join(ws.drop_first(), sp) + sp
        };
        let s = sp + join(ws, sp) + sp;
        if ws.len() >= 2 {
            lemma_join_front(ws, sp);
        }
        assert(s =~= sp + w0 + r);
        lemma_trim_start(s, 1);
        let t = trim_start(s);
        assert(t =~= w0 + r);
        assert(r[0] == ' ');
        lemma_find_ws_is(t, w0.len() as int);
        assert(t.subrange(0, w0.len() as int) =~= w0);
        assert(t.subrange(w0.len() as int, t.len() as int) =~= r);
        if ws.len() == 1 {
            lemma_trim_start(r, 1);
            assert(trim_start(r).len() == 0);
            assert(words(r) =~= seq![]);
            assert(ws =~= seq![w0]);
        } else {
            assert forall|i: int| 0 <= i < ws.drop_first().len() implies word_like(#[trigger] ws.drop_first()[i]) by {
                assert(ws.drop_first()[i] == ws[i + 1]);
            }
            lemma_words_of_joined(ws.drop_first());
            assert(ws =~= seq![w0] + ws.drop_first());
        }
    }
}

} // verus!
