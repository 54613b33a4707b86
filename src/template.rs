//! Which template texts the service accepts: plain text with `{{ name }}`
//! placeholders, and nothing else of the template language. Such a template
//! has no tags (no macros, includes, inheritance or loops), no function
//! calls, filters or operators, so rendering it is a finite substitution.
use vstd::prelude::*;

verus! {

/// A character that may stand inside a placeholder: a letter, a digit, '_',
/// '.' or a space.
pub open spec fn name_char(c: char) -> bool {
    ('a' <= c && c <= 'z') || ('A' <= c && c <= 'Z') || ('0' <= c && c <= '9') || c == '_' || c == '.'
        || c == ' '
}

/// Reads `s` as template text (`inside` false) or as the rest of a
/// placeholder after its "{{" (`inside` true): text may hold "{{", which opens
/// a placeholder, but never "{%" or "{#"; a placeholder holds name characters
/// up to its "}}".
pub open spec fn scan(s: Seq<char>, inside: bool) -> bool
    decreases s.len(),
{
    if !inside {
        if s.len() == 0 {
            true
        } else if s.len() >= 2 && s[0] == '{' && s[1] == '{' {
            scan(s.skip(2), true)
        } else if s.len() >= 2 && s[0] == '{' && (s[1] == '%' || s[1] == '#') {
            false
        } else {
            scan(s.drop_first(), false)
        }
    } else {
        if s.len() < 2 {
            false
        } else if s[0] == '}' && s[1] == '}' {
            scan(s.skip(2), false)
        } else if name_char(s[0]) {
            scan(s.drop_first(), true)
        } else {
            false
        }
    }
}

/// A template text of plain text and placeholders only.
pub open spec fn plain(s: Seq<char>) -> bool {
    scan(s, false)
}

fn is_name_char(c: char) -> (r: bool)
    ensures
        r == name_char(c),
{
    ('a' <= c && c <= 'z') || ('A' <= c && c <= 'Z') || ('0' <= c && c <= '9') || c == '_' || c == '.'
        || c == ' '
}

/// Whether `s` is plain text with `{{ name }}` placeholders only.
pub fn is_plain(s: &str) -> (r: bool)
    ensures
        r == plain(s@),
{
    let n = s.unicode_len();
    let mut i: usize = 0;
    let mut inside = false;
    assert(s@.skip(0) =~= s@);
    while i < n
        invariant
            n == s@.len(),
            i <= n,
            plain(s@) == scan(s@.skip(i as int), inside),
        decreases n - i,
    {
        let ghost t = s@.skip(i as int);
        let c = s.get_char(i);
        assert(t[0] == c);
        let has_next = i + 1 < n;
        let d = if has_next { s.get_char(i + 1) } else { ' ' };
        proof {
            if has_next {
                assert(t[1] == d);
            }
        }
        assert(t.drop_first() =~= s@.skip(i + 1));
        if !inside {
            if has_next && c == '{' && d == '{' {
                assert(t.skip(2) =~= s@.skip(i + 2));
                inside = true;
                i = i + 2;
            } else if has_next && c == '{' && (d == '%' || d == '#') {
                return false;
            } else {
                i = i + 1;
            }
        } else {
            if !has_next {
                return false;
            } else if c == '}' && d == '}' {
                assert(t.skip(2) =~= s@.skip(i + 2));
                inside = false;
                i = i + 2;
            } else if is_name_char(c) {
                i = i + 1;
            } else {
                return false;
            }
        }
    }
    assert(s@.skip(n as int).len() == 0);
    !inside
}

} // verus!
