//! The binding-line grammar: an optional one-letter mode prefix, an optional
//! "nore" infix, the literal "map", whitespace, an optional "<silent>" token
//! with trailing whitespace, a non-empty shortcut token free of whitespace,
//! whitespace, and the remainder of the line as the command.

use vstd::prelude::*;

use crate::text::is_prefix;
use crate::text::is_ws;
use crate::text::is_ws_char;
use crate::text::str_eq;
use crate::text::str_starts_with;

verus! {

/// The letters that may stand before "map" or "noremap" to select an editor
/// mode.
pub open spec fn is_mode_letter(c: char) -> bool {
    c == 'n' || c == 'v' || c == 's' || c == 'x' || c == 'o' || c == 'm' || c == 'i' || c == 'l'
        || c == 'c' || c == 't'
}

/// Executable form of [`is_mode_letter`].
pub fn is_mode_letter_char(c: char) -> (r: bool)
    ensures
        r == is_mode_letter(c),
{
    c == 'n' || c == 'v' || c == 's' || c == 'x' || c == 'o' || c == 'm' || c == 'i' || c == 'l'
        || c == 'c' || c == 't'
}

pub open spec fn map_word() -> Seq<char> {
    seq!['m', 'a', 'p']
}

pub open spec fn noremap_word() -> Seq<char> {
    seq!['n', 'o', 'r', 'e', 'm', 'a', 'p']
}

pub open spec fn silent_word() -> Seq<char> {
    seq!['<', 's', 'i', 'l', 'e', 'n', 't', '>']
}

/// How many characters the map keyword (with its optional mode letter and
/// "nore" infix) occupies at the start of `s`, if it stands there.  The four
/// admissible shapes never prefix one another on the same line, so the
/// choice is unambiguous.
pub open spec fn head_len(s: Seq<char>) -> Option<int> {
    if is_prefix(map_word(), s) {
        Some(3int)
    } else if is_prefix(noremap_word(), s) {
        Some(7int)
    } else if s.len() > 0 && is_mode_letter(s[0]) && is_prefix(map_word(), s.skip(1)) {
        Some(4int)
    } else if s.len() > 0 && is_mode_letter(s[0]) && is_prefix(noremap_word(), s.skip(1)) {
        Some(8int)
    } else {
        None
    }
}

/// The index of the first non-whitespace character at or after `p`, or the
/// length of `s` when only whitespace remains.
pub open spec fn ws_run_end(s: Seq<char>, p: int) -> int
    decreases s.len() - p,
{
    if p < 0 || p >= s.len() {
        s.len() as int
    } else if is_ws(s[p]) {
        ws_run_end(s, p + 1)
    } else {
        p
    }
}

/// The index of the first whitespace character at or after `p`, or the
/// length of `s` when none follows.
pub open spec fn token_end(s: Seq<char>, p: int) -> int
    decreases s.len() - p,
{
    if p < 0 || p >= s.len() {
        s.len() as int
    } else if !is_ws(s[p]) {
        token_end(s, p + 1)
    } else {
        p
    }
}

pub proof fn lemma_ws_run_end(s: Seq<char>, p: int)
    requires
        0 <= p <= s.len(),
    ensures
        p <= ws_run_end(s, p) <= s.len(),
        forall|i: int| p <= i < ws_run_end(s, p) ==> is_ws(s[i]),
        ws_run_end(s, p) < s.len() ==> !is_ws(s[ws_run_end(s, p)]),
    decreases s.len() - p,
{
    if p < s.len() && is_ws(s[p]) {
        lemma_ws_run_end(s, p + 1);
    }
}

pub proof fn lemma_token_end(s: Seq<char>, p: int)
    requires
        0 <= p <= s.len(),
    ensures
        p <= token_end(s, p) <= s.len(),
        forall|i: int| p <= i < token_end(s, p) ==> !is_ws(s[i]),
        token_end(s, p) < s.len() ==> is_ws(s[token_end(s, p)]),
    decreases s.len() - p,
{
    if p < s.len() && !is_ws(s[p]) {
        lemma_token_end(s, p + 1);
    }
}

/// Where the optional "<silent>" token ends: if it stands at `p` and is
/// followed by whitespace, the first non-whitespace index after that run;
/// otherwise `p` itself.
pub open spec fn after_silent(s: Seq<char>, p: int) -> int {
    if p + 8 < s.len() && s.subrange(p, p + 8) == silent_word() && is_ws(s[p + 8]) {
        ws_run_end(s, p + 8)
    } else {
        p
    }
}

/// The grammar's captured groups on an already-trimmed line: the shortcut
/// token and the command remainder, or nothing when the line is not a
/// well-formed binding.
pub open spec fn binding_parts(t: Seq<char>) -> Option<(Seq<char>, Seq<char>)> {
    match head_len(t) {
        None => None,
        Some(h) => if h < t.len() && is_ws(t[h]) {
            let p = ws_run_end(t, h);
            let q = after_silent(t, p);
            let e = token_end(t, q);
            if q < t.len() && e < t.len() && ws_run_end(t, e) < t.len() {
                Some((t.subrange(q, e), t.subrange(ws_run_end(t, e), t.len() as int)))
            } else {
                None
            }
        } else {
            None
        },
    }
}

/// Whether the characters of `p` stand in `s` at position `at`.
fn has_word_at(s: &str, n: usize, at: usize, p: &str) -> (r: bool)
    requires
        n == s@.len(),
        at <= n,
    ensures
        r == is_prefix(p@, s@.skip(at as int)),
{
    let sub = s.substring_char(at, n);
    proof {
        assert(s@.subrange(at as int, n as int) =~= s@.skip(at as int));
    }
    str_starts_with(sub, p)
}

/// Executable form of [`head_len`].
fn find_head(s: &str, n: usize) -> (r: Option<usize>)
    requires
        n == s@.len(),
    ensures
        match r {
            Some(h) => head_len(s@) == Some(h as int),
            None => head_len(s@) is None,
        },
{
    proof {
        reveal_strlit("map");
        reveal_strlit("noremap");
        assert("map"@ =~= map_word());
        assert("noremap"@ =~= noremap_word());
    }
    if str_starts_with(s, "map") {
        Some(3)
    } else if str_starts_with(s, "noremap") {
        Some(7)
    } else if n > 0 && is_mode_letter_char(s.get_char(0)) && has_word_at(s, n, 1, "map") {
        Some(4)
    } else if n > 0 && is_mode_letter_char(s.get_char(0)) && has_word_at(s, n, 1, "noremap") {
        Some(8)
    } else {
        None
    }
}

/// Executable form of [`ws_run_end`].
fn skip_ws(s: &str, n: usize, p: usize) -> (r: usize)
    requires
        n == s@.len(),
        p <= n,
    ensures
        r as int == ws_run_end(s@, p as int),
        p <= r <= n,
{
    let mut i = p;
    while i < n && is_ws_char(s.get_char(i))
        invariant
            p <= i <= n,
            n == s@.len(),
            ws_run_end(s@, p as int) == ws_run_end(s@, i as int),
        decreases n - i,
    {
        i = i + 1;
    }
    i
}

/// Executable form of [`token_end`].
fn skip_token(s: &str, n: usize, p: usize) -> (r: usize)
    requires
        n == s@.len(),
        p <= n,
    ensures
        r as int == token_end(s@, p as int),
        p <= r <= n,
{
    let mut i = p;
    while i < n && !is_ws_char(s.get_char(i))
        invariant
            p <= i <= n,
            n == s@.len(),
            token_end(s@, p as int) == token_end(s@, i as int),
        decreases n - i,
    {
        i = i + 1;
    }
    i
}

/// Matches an already-trimmed line against the binding grammar and returns
/// the captured shortcut and command.
pub fn match_binding(t: &str) -> (r: Option<(String, String)>)
    ensures
        match r {
            Some(p) => binding_parts(t@) == Some((p.0@, p.1@)),
            None => binding_parts(t@) is None,
        },
{
    let n = t.unicode_len();
    let h = match find_head(t, n) {
        Some(h) => h,
        None => {
            return None;
        },
    };
    if !(h < n && is_ws_char(t.get_char(h))) {
        return None;
    }
    let p = skip_ws(t, n, h);
    let q = if n - p > 8 && str_eq(t.substring_char(p, p + 8), "<silent>") && is_ws_char(
        t.get_char(p + 8),
    ) {
        proof {
            reveal_strlit("<silent>");
            assert("<silent>"@ =~= silent_word());
        }
        skip_ws(t, n, p + 8)
    } else {
        proof {
            reveal_strlit("<silent>");
            assert("<silent>"@ =~= silent_word());
        }
        p
    };
    assert(q as int == after_silent(t@, p as int));
    let e = skip_token(t, n, q);
    if !(q < n && e < n) {
        return None;
    }
    let c = skip_ws(t, n, e);
    if !(c < n) {
        return None;
    }
    let shortcut = t.substring_char(q, e);
    let command = t.substring_char(c, n);
    Some((String::from_str(shortcut), String::from_str(command)))
}

/// The captured shortcut of a well-formed binding line is never empty and
/// never holds whitespace, and the command is never empty: the scanner's
/// output keeps the well-formedness invariant through this.
pub proof fn lemma_binding_parts_wf(t: Seq<char>)
    requires
        binding_parts(t) is Some,
    ensures
        binding_parts(t).unwrap().0.len() > 0,
        binding_parts(t).unwrap().1.len() > 0,
        forall|i: int|
            0 <= i < binding_parts(t).unwrap().0.len() ==> !is_ws(
                #[trigger] binding_parts(t).unwrap().0[i],
            ),
{
    let h = head_len(t).unwrap();
    assert(0 <= h <= t.len()) by {
        if is_prefix(map_word(), t) {
        }
    }
    let p = ws_run_end(t, h);
    lemma_ws_run_end(t, h);
    let q = after_silent(t, p);
    if p + 8 < t.len() && t.subrange(p, p + 8) == silent_word() && is_ws(t[p + 8]) {
        lemma_ws_run_end(t, p + 8);
    }
    let e = token_end(t, q);
    lemma_token_end(t, q);
    lemma_ws_run_end(t, e);
}

} // verus!
