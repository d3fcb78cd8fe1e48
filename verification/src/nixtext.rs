//! Writing Nix expressions as text.
//!
//! An attribute set is written one binding per line, each nested level two
//! spaces deeper than its parent; strings are double-quoted with `"`, `\`
//! and `$` escaped; a list of strings stays on one line. A binding may carry
//! a comment, written as `#` lines directly above it.
//!
//! Each spec function takes the indentation level of the binding or value it
//! renders, so a value nested at level `k` closes its braces at level `k`.

use vstd::prelude::*;
use crate::text::{chars_of, contains, join, joined, lines, lines_of, occurs_at, push_all, push_str, views};

verus! {

// ---------------------------------------------------------------- specs

/// `n` levels of two-space indentation.
pub open spec fn pad(n: nat) -> Seq<char> {
    Seq::new(2 * n, |i: int| ' ')
}

/// One character as it stands inside a double-quoted Nix string.
pub open spec fn esc_char(c: char) -> Seq<char> {
    if c == '"' || c == '\\' || c == '$' {
        seq!['\\', c]
    } else {
        seq![c]
    }
}

/// The characters of `s` as they stand inside a double-quoted Nix string.
pub open spec fn esc(s: Seq<char>) -> Seq<char>
    decreases s.len(),
{
    if s.len() == 0 {
        seq![]
    } else {
        esc(s.drop_last()) + esc_char(s.last())
    }
}

/// A Nix string literal holding `s`.
pub open spec fn quoted(s: Seq<char>) -> Seq<char> {
    "\""@ + esc(s) + "\""@
}

/// The pieces, one after another.
pub open spec fn concat(parts: Seq<Seq<char>>) -> Seq<char>
    decreases parts.len(),
{
    if parts.len() == 0 {
        seq![]
    } else {
        concat(parts.drop_last()) + parts.last()
    }
}

/// `key = value;` on its own line at level `ind`.
pub open spec fn entry(ind: nat, key: Seq<char>, val: Seq<char>) -> Seq<char> {
    pad(ind) + key + " = "@ + val + ";\n"@
}

/// An attribute set whose bindings were written at level `ind + 1`.
pub open spec fn attrs(ind: nat, entries: Seq<Seq<char>>) -> Seq<char> {
    "{\n"@ + concat(entries) + pad(ind) + "}"@
}

/// A list on one line.
pub open spec fn list(items: Seq<Seq<char>>) -> Seq<char> {
    "[ "@ + join(items, " "@) + " ]"@
}

/// Comment lines at level `ind`.
pub open spec fn comments(ind: nat, ls: Seq<Seq<char>>) -> Seq<char>
    decreases ls.len(),
{
    if ls.len() == 0 {
        seq![]
    } else {
        comments(ind, ls.drop_last()) + pad(ind) + "# "@ + ls.last() + "\n"@
    }
}

/// A binding with the lines of `note` written as a comment above it.
pub open spec fn noted(ind: nat, key: Seq<char>, note: Seq<char>, val: Seq<char>) -> Seq<char> {
    comments(ind, lines(note)) + entry(ind, key, val)
}

// ---------------------------------------------------------------- exec

/// `n` levels of indentation.
pub fn pad_of(n: usize) -> (r: Vec<char>)
    ensures
        r@ == pad(n as nat),
{
    let mut r: Vec<char> = Vec::new();
    let mut i: usize = 0;
    while i < n
        invariant
            i <= n,
            r@ == Seq::new(2 * i as nat, |k: int| ' '),
        decreases n - i,
    {
        r.push(' ');
        r.push(' ');
        i = i + 1;
        assert(r@ =~= Seq::new(2 * i as nat, |k: int| ' '));
    }
    r
}

/// A Nix string literal holding `s`.
pub fn quoted_of(s: &Vec<char>) -> (r: Vec<char>)
    ensures
        r@ == quoted(s@),
{
    let mut r: Vec<char> = Vec::new();
    r.push('"');
    assert(r@ =~= "\""@ + esc(s@.take(0))) by {
        reveal_strlit("\"");
        assert(s@.take(0) =~= seq![]);
    }
    let mut i: usize = 0;
    while i < s.len()
        invariant
            i <= s.len(),
            r@ == "\""@ + esc(s@.take(i as int)),
        decreases s.len() - i,
    {
        let c = s[i];
        let ghost before = r@;
        if c == '"' || c == '\\' || c == '$' {
            r.push('\\');
        }
        r.push(c);
        proof {
            assert(s@.take(i + 1).drop_last() =~= s@.take(i as int));
            assert(r@ =~= before + esc_char(c));
        }
        i = i + 1;
    }
    assert(s@.take(s.len() as int) =~= s@);
    push_str(&mut r, "\"");
    r
}

/// The pieces, one after another.
pub fn concat_of(parts: &Vec<Vec<char>>) -> (r: Vec<char>)
    ensures
        r@ == concat(views(parts@)),
{
    let mut r: Vec<char> = Vec::new();
    let mut i: usize = 0;
    while i < parts.len()
        invariant
            i <= parts.len(),
            r@ == concat(views(parts@).take(i as int)),
        decreases parts.len() - i,
    {
        push_all(&mut r, &parts[i]);
        proof {
            assert(views(parts@).take(i + 1).drop_last() =~= views(parts@).take(i as int));
        }
        i = i + 1;
    }
    assert(views(parts@).take(parts.len() as int) =~= views(parts@));
    r
}

/// `key = value;` at level `ind`.
pub fn entry_of(ind: usize, key: &str, val: &Vec<char>) -> (r: Vec<char>)
    ensures
        r@ == entry(ind as nat, key@, val@),
{
    let mut r = pad_of(ind);
    push_str(&mut r, key);
    push_str(&mut r, " = ");
    push_all(&mut r, val);
    push_str(&mut r, ";\n");
    r
}

/// An attribute set closing at level `ind`.
pub fn attrs_of(ind: usize, entries: &Vec<Vec<char>>) -> (r: Vec<char>)
    ensures
        r@ == attrs(ind as nat, views(entries@)),
{
    let mut r = chars_of("{\n");
    let body = concat_of(entries);
    push_all(&mut r, &body);
    let p = pad_of(ind);
    push_all(&mut r, &p);
    push_str(&mut r, "}");
    r
}

/// A list on one line.
pub fn list_of(items: &Vec<Vec<char>>) -> (r: Vec<char>)
    ensures
        r@ == list(views(items@)),
{
    let mut r = chars_of("[ ");
    let sep = chars_of(" ");
    let body = joined(items, &sep);
    push_all(&mut r, &body);
    push_str(&mut r, " ]");
    r
}

/// A binding with a comment above it.
pub fn noted_of(ind: usize, key: &str, note: &str, val: &Vec<char>) -> (r: Vec<char>)
    ensures
        r@ == noted(ind as nat, key@, note@, val@),
{
    let ls = lines_of(&chars_of(note));
    let mut r: Vec<char> = Vec::new();
    let mut i: usize = 0;
    while i < ls.len()
        invariant
            i <= ls.len(),
            r@ == comments(ind as nat, views(ls@).take(i as int)),
        decreases ls.len() - i,
    {
        let p = pad_of(ind);
        push_all(&mut r, &p);
        push_str(&mut r, "# ");
        push_all(&mut r, &ls[i]);
        push_str(&mut r, "\n");
        proof {
            assert(views(ls@).take(i + 1).drop_last() =~= views(ls@).take(i as int));
        }
        i = i + 1;
    }
    assert(views(ls@).take(ls.len() as int) =~= views(ls@));
    let e = entry_of(ind, key, val);
    push_all(&mut r, &e);
    r
}

/// A Nix string literal holding the characters of `s`.
pub fn quoted_str(s: &str) -> (r: Vec<char>)
    ensures
        r@ == quoted(s@),
{
    quoted_of(&chars_of(s))
}

// ---------------------------------------------------------------- lemmas

/// Text found in a piece is found in anything the piece is part of.
pub proof fn lemma_contains_within(a: Seq<char>, x: Seq<char>, b: Seq<char>, p: Seq<char>)
    requires
        contains(x, p),
    ensures
        contains(a + x + b, p),
{
    let i = choose|i: int| occurs_at(x, p, i);
    assert((a + x + b).subrange(a.len() + i, a.len() + i + p.len()) =~= x.subrange(i, i + p.len()));
    assert(occurs_at(a + x + b, p, a.len() + i));
}

/// Text found in one of the pieces is found in them all, one after another.
pub proof fn lemma_concat_contains(parts: Seq<Seq<char>>, k: int, p: Seq<char>)
    requires
        0 <= k < parts.len(),
        contains(parts[k], p),
    ensures
        contains(concat(parts), p),
    decreases parts.len(),
{
    if k == parts.len() - 1 {
        lemma_contains_within(concat(parts.drop_last()), parts.last(), seq![], p);
        assert(concat(parts.drop_last()) + parts.last() + seq![] =~= concat(parts));
    } else {
        lemma_concat_contains(parts.drop_last(), k, p);
        lemma_contains_within(seq![], concat(parts.drop_last()), parts.last(), p);
        assert(seq![] + concat(parts.drop_last()) + parts.last() =~= concat(parts));
    }
}

/// Text found in a binding is found in the attribute set holding it.
pub proof fn lemma_attrs_contains(ind: nat, es: Seq<Seq<char>>, k: int, p: Seq<char>)
    requires
        0 <= k < es.len(),
        contains(es[k], p),
    ensures
        contains(attrs(ind, es), p),
{
    lemma_concat_contains(es, k, p);
    lemma_contains_within("{\n"@, concat(es), pad(ind) + "}"@, p);
    assert("{\n"@ + concat(es) + (pad(ind) + "}"@) =~= attrs(ind, es));
}

/// Text found in a value is found in the binding of it.
pub proof fn lemma_entry_contains(ind: nat, key: Seq<char>, val: Seq<char>, p: Seq<char>)
    requires
        contains(val, p),
    ensures
        contains(entry(ind, key, val), p),
{
    lemma_contains_within(pad(ind) + key + " = "@, val, ";\n"@, p);
}

/// How Nix reads the rest of a double-quoted string from `t`: the text up to
/// the closing quote, with `\\x` read as `x`, and what follows the quote.
/// `None` where an unescaped `${` would start an interpolation instead.
pub open spec fn read_string(t: Seq<char>) -> Option<(Seq<char>, Seq<char>)>
    decreases t.len(),
{
    if t.len() == 0 {
        None
    } else if t[0] == '"' {
        Some((seq![], t.drop_first()))
    } else if t[0] == '\\' && t.len() >= 2 {
        match read_string(t.skip(2)) {
            Some((text, rest)) => Some((seq![t[1]] + text, rest)),
            None => None,
        }
    } else if t[0] == '$' && t.len() >= 2 && t[1] == '{' {
        None
    } else {
        match read_string(t.drop_first()) {
            Some((text, rest)) => Some((seq![t[0]] + text, rest)),
            None => None,
        }
    }
}

proof fn lemma_read_escaped(s: Seq<char>, tail: Seq<char>)
    ensures
        read_string(esc(s) + tail) == match read_string(tail) {
            Some((text, rest)) => Some((s + text, rest)),
            None => None::<(Seq<char>, Seq<char>)>,
        },
    decreases s.len(),
{
    if s.len() == 0 {
        assert(esc(s) + tail =~= tail);
        match read_string(tail) {
            Some((text, rest)) => {
                assert(s + text =~= text);
            },
            None => {},
        }
    } else {
        let d = s.drop_last();
        let c = s.last();
        let t = esc_char(c) + tail;
        lemma_read_escaped(d, t);
        assert(esc(s) + tail =~= esc(d) + t);
        if c == '"' || c == '\\' || c == '$' {
            assert(t[0] == '\\' && t[1] == c);
            assert(t.skip(2) =~= tail);
        } else {
            assert(t[0] == c);
            assert(t.drop_first() =~= tail);
        }
        match read_string(tail) {
            Some((text, rest)) => {
                assert(read_string(t) == Some((seq![c] + text, rest)));
                assert(d + (seq![c] + text) =~= s + text);
            },
            None => {
                assert(read_string(t) is None);
            },
        }
    }
}

/// A quoted string reads back as exactly the text that was quoted, and ends
/// at its own closing quote: no quote, backslash or `${` in a device name
/// can end the string early or splice Nix into the file.
pub proof fn law_quoted_reads_back(s: Seq<char>, rest: Seq<char>)
    ensures
        read_string((quoted(s) + rest).drop_first()) == Some((s, rest)),
{
    reveal_strlit("\"");
    let q = quoted(s) + rest;
    assert(q.drop_first() =~= esc(s) + (seq!['"'] + rest));
    lemma_read_escaped(s, seq!['"'] + rest);
    assert((seq!['"'] + rest)[0] == '"');
    assert((seq!['"'] + rest).drop_first() =~= rest);
    assert(s + seq![] =~= s);
}

} // verus!
