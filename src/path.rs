//! Splitting request paths and route patterns into segments.
use vstd::prelude::*;

verus! {

/// The pieces of `s` between its '/' separators, in order. A string without
/// any separator is one piece; every separator starts a new, possibly empty, piece.
pub open spec fn split_spec(s: Seq<char>) -> Seq<Seq<char>>
    decreases s.len(),
{
    if s.len() == 0 {
        seq![Seq::<char>::empty()]
    } else {
        let init = split_spec(s.drop_last());
        if s.last() == '/' {
            init.push(Seq::<char>::empty())
        } else {
            init.update(init.len() - 1, init.last().push(s.last()))
        }
    }
}

/// A path is well formed when it begins with '/'; its segments are the pieces
/// of what follows that first '/'.
pub open spec fn path_ok(p: Seq<char>) -> bool {
    p.len() > 0 && p[0] == '/'
}

/// The segments of a well-formed path.
pub open spec fn path_segments(p: Seq<char>) -> Seq<Seq<char>> {
    split_spec(p.drop_first())
}

/// The texts of a sequence of strings.
pub open spec fn strings_view(v: Seq<String>) -> Seq<Seq<char>> {
    v.map_values(|s: String| s@)
}

/// `t` holds no separator.
pub open spec fn no_separator(t: Seq<char>) -> bool {
    forall|k: int| 0 <= k < t.len() ==> t[k] != '/'
}

/// A text without separators is one piece.
pub proof fn lemma_split_single(t: Seq<char>)
    requires
        no_separator(t),
    ensures
        split_spec(t) == seq![t],
    decreases t.len(),
{
    if t.len() == 0 {
        assert(t =~= Seq::<char>::empty());
    } else {
        let u = t.drop_last();
        assert(t.last() == t[t.len() - 1]);
        assert(no_separator(u)) by {
            assert forall|k: int| 0 <= k < u.len() implies u[k] != '/' by {
                assert(u[k] == t[k]);
            };
        };
        lemma_split_single(u);
        assert(u.push(t.last()) =~= t);
        assert(seq![u].update(0, u.push(t.last())) =~= seq![t]);
    }
}

/// Appending a separator and a text without separators adds that text as
/// one more piece.
pub proof fn lemma_split_append(x: Seq<char>, t: Seq<char>)
    requires
        no_separator(t),
    ensures
        split_spec(x + seq!['/'] + t) == split_spec(x).push(t),
    decreases t.len(),
{
    let s = x + seq!['/'] + t;
    if t.len() == 0 {
        assert(s.drop_last() =~= x);
        assert(s.last() == '/');
        assert(t =~= Seq::<char>::empty());
    } else {
        let u = t.drop_last();
        assert(no_separator(u)) by {
            assert forall|k: int| 0 <= k < u.len() implies u[k] != '/' by {
                assert(u[k] == t[k]);
            };
        };
        assert(t[t.len() - 1] != '/');
        lemma_split_append(x, u);
        assert(s.drop_last() =~= x + seq!['/'] + u);
        assert(s.last() == t[t.len() - 1]);
        assert(u.push(t.last()) =~= t);
        let init = split_spec(x).push(u);
        assert(s.last() != '/');
        assert(split_spec(s) == init.update(init.len() - 1, init.last().push(s.last())));
        assert(init.update(init.len() - 1, t) =~= split_spec(x).push(t));
    }
}

/// Splits a path into its segments; `None` when it does not begin with '/'.
pub fn split_path(p: &str) -> (r: Option<Vec<String>>)
    ensures
        r.is_none() <==> !path_ok(p@),
        r matches Some(v) ==> strings_view(v@) == path_segments(p@),
{
    let n = p.unicode_len();
    if n == 0 || p.get_char(0) != '/' {
        return None;
    }
    let ghost body = p@.drop_first();
    let mut done: Vec<String> = Vec::new();
    let mut start: usize = 1;
    let mut i: usize = 1;
    assert(p@.subrange(1, 1) =~= Seq::<char>::empty());
    assert(strings_view(done@) =~= Seq::<Seq<char>>::empty());
    assert(split_spec(Seq::<char>::empty()) =~= Seq::<Seq<char>>::empty().push(Seq::<char>::empty()));
    while i < n
        invariant
            n == p@.len(),
            body == p@.drop_first(),
            1 <= start <= i <= n,
            split_spec(p@.subrange(1, i as int)) == strings_view(done@).push(
                p@.subrange(start as int, i as int),
            ),
        decreases n - i,
    {
        let c = p.get_char(i);
        let ghost pre = p@.subrange(1, i as int);
        let ghost old_done = strings_view(done@);
        assert(p@.subrange(1, i + 1).drop_last() =~= pre);
        assert(p@.subrange(1, i + 1).last() == c);
        if c == '/' {
            let piece = p.substring_char(start, i).to_owned();
            done.push(piece);
            assert(strings_view(done@) =~= old_done.push(p@.subrange(start as int, i as int)));
            start = i + 1;
            assert(p@.subrange(start as int, i + 1) =~= Seq::<char>::empty());
        } else {
            assert(p@.subrange(start as int, i + 1) =~= p@.subrange(start as int, i as int).push(c));
        }
        i = i + 1;
    }
    assert(p@.subrange(1, n as int) =~= body);
    let last = p.substring_char(start, n).to_owned();
    done.push(last);
    assert(strings_view(done@) =~= split_spec(body));
    Some(done)
}

/// The text that percent-decoding `s` gives, or `None` where the decoded
/// bytes are not UTF-8.
pub uninterp spec fn percent_decoded(s: Seq<char>) -> Option<Seq<char>>;

/// `t` holds no '%'.
pub open spec fn no_percent(t: Seq<char>) -> bool {
    forall|k: int| 0 <= k < t.len() ==> t[k] != '%'
}

/// The text of an optional string.
pub open spec fn opt_view(r: Option<String>) -> Option<Seq<char>> {
    match r {
        Some(v) => Some(v@),
        None => None,
    }
}

/// Relies on percent_encoding's `percent_decode_str` followed by
/// `PercentDecode::decode_utf8`, as axum decodes path parameters: each '%'
/// and two hex digits becomes that byte, and the bytes must form UTF-8.
/// Where `s` holds no '%', no byte changes and the text comes back as it is.
#[verifier::external_body]
pub(crate) fn percent_decode(s: &str) -> (r: Option<String>)
    ensures
        opt_view(r) == percent_decoded(s@),
        no_percent(s@) ==> opt_view(r) == Some(s@),
{
    percent_encoding::percent_decode_str(s).decode_utf8().ok().map(|c| c.into_owned())
}

} // verus!
