//! Routes: methods, pattern segments, matching and precedence.
use vstd::prelude::*;
use crate::path::{split_spec, strings_view};

verus! {

/// The request methods that a route can be registered for.
#[derive(Clone, Copy, Debug, PartialEq, Eq, Structural)]
pub enum Method {
    Get,
    Head,
    Post,
    Put,
    Patch,
    Delete,
    Options,
    Other,
}

/// The handlers that a route can lead to.
#[derive(Clone, Copy, Debug, PartialEq, Eq, Structural)]
pub enum Handler {
    Greeting,
    ViewUser,
    CreateUser,
}

/// One segment of a route pattern: a literal, or a named parameter written
/// with a leading ':'.
#[derive(Debug)]
pub enum Segment {
    Literal(String),
    Param(String),
}

/// The mathematical value of a segment.
pub enum SegView {
    Lit(Seq<char>),
    Par(Seq<char>),
}

impl SegView {
    /// The segment is a parameter.
    pub open spec fn is_par(self) -> bool {
        self is Par
    }
}

impl View for Segment {
    type V = SegView;

    open spec fn view(&self) -> SegView {
        match self {
            Segment::Literal(t) => SegView::Lit(t@),
            Segment::Param(n) => SegView::Par(n@),
        }
    }
}

/// The mathematical value of a pattern.
pub open spec fn pattern_view(p: Seq<Segment>) -> Seq<SegView> {
    p.map_values(|s: Segment| s@)
}

/// How one piece of a pattern's text reads: ":name" is a parameter, anything
/// else a literal.
pub open spec fn parse_segment(t: Seq<char>) -> SegView {
    if t.len() > 0 && t[0] == ':' {
        SegView::Par(t.drop_first())
    } else {
        SegView::Lit(t)
    }
}

/// The segments of a pattern text that begins with '/'.
pub open spec fn pattern_of(p: Seq<char>) -> Seq<SegView> {
    split_spec(p.drop_first()).map_values(|t: Seq<char>| parse_segment(t))
}

/// A literal matches the identical text; a parameter any non-empty text.
pub open spec fn segment_matches(s: SegView, t: Seq<char>) -> bool {
    match s {
        SegView::Lit(x) => x == t,
        SegView::Par(_) => t.len() > 0,
    }
}

/// A pattern matches the segments of a path when it has as many segments and
/// each of them matches.
pub open spec fn pattern_matches(p: Seq<SegView>, segs: Seq<Seq<char>>) -> bool {
    &&& p.len() == segs.len()
    &&& forall|k: int| 0 <= k < p.len() ==> #[trigger] segment_matches(p[k], segs[k])
}

/// Two segments that would claim the same path segments: equal literals, or
/// two parameters whatever their names.
pub open spec fn segments_conflict(a: SegView, b: SegView) -> bool {
    match (a, b) {
        (SegView::Lit(x), SegView::Lit(y)) => x == y,
        (SegView::Par(_), SegView::Par(_)) => true,
        _ => false,
    }
}

/// Two patterns that match exactly the same paths.
pub open spec fn same_shape(a: Seq<SegView>, b: Seq<SegView>) -> bool {
    &&& a.len() == b.len()
    &&& forall|k: int| 0 <= k < a.len() ==> #[trigger] segments_conflict(a[k], b[k])
}

/// `a` takes precedence over `b`: at the first position where one has a
/// literal and the other a parameter, `a` has the literal.
pub open spec fn precedes(a: Seq<SegView>, b: Seq<SegView>) -> bool
    decreases a.len(),
{
    if a.len() == 0 || b.len() == 0 {
        false
    } else if a[0].is_par() == b[0].is_par() {
        precedes(a.drop_first(), b.drop_first())
    } else {
        !a[0].is_par()
    }
}

/// The parameters that matching `p` against `segs` binds, as (name, value)
/// pairs in the order of the pattern.
pub open spec fn bindings(p: Seq<SegView>, segs: Seq<Seq<char>>) -> Seq<(Seq<char>, Seq<char>)>
    decreases p.len(),
{
    if p.len() == 0 || segs.len() == 0 {
        Seq::empty()
    } else {
        let rest = bindings(p.drop_last(), segs.drop_last());
        match p.last() {
            SegView::Par(n) => rest.push((n, segs.last())),
            SegView::Lit(_) => rest,
        }
    }
}

/// The texts of (name, value) pairs.
pub open spec fn pairs_view(v: Seq<(String, String)>) -> Seq<(Seq<char>, Seq<char>)> {
    v.map_values(|e: (String, String)| (e.0@, e.1@))
}

/// Precedence never holds both ways.
pub proof fn lemma_precedes_asymmetric(a: Seq<SegView>, b: Seq<SegView>)
    ensures
        !(precedes(a, b) && precedes(b, a)),
    decreases a.len(),
{
    if a.len() > 0 && b.len() > 0 && a[0].is_par() == b[0].is_par() {
        lemma_precedes_asymmetric(a.drop_first(), b.drop_first());
    }
}

/// Precedence is transitive.
pub proof fn lemma_precedes_transitive(a: Seq<SegView>, b: Seq<SegView>, c: Seq<SegView>)
    requires
        precedes(a, b),
        precedes(b, c),
    ensures
        precedes(a, c),
    decreases a.len(),
{
    if a[0].is_par() == b[0].is_par() && b[0].is_par() == c[0].is_par() {
        lemma_precedes_transitive(a.drop_first(), b.drop_first(), c.drop_first());
    }
}

/// Of two patterns of one length that both match the same segments and are
/// not of the same shape, one takes precedence over the other.
pub proof fn lemma_precedes_total(a: Seq<SegView>, b: Seq<SegView>, segs: Seq<Seq<char>>)
    requires
        pattern_matches(a, segs),
        pattern_matches(b, segs),
        !same_shape(a, b),
    ensures
        precedes(a, b) || precedes(b, a),
    decreases a.len(),
{
    assert(a.len() > 0) by {
        if a.len() == 0 {
            assert(same_shape(a, b));
        }
    };
    assert(segment_matches(a[0], segs[0]) && segment_matches(b[0], segs[0]));
    if a[0].is_par() == b[0].is_par() {
        let (a1, b1, s1) = (a.drop_first(), b.drop_first(), segs.drop_first());
        assert forall|k: int| 0 <= k < a1.len() implies #[trigger] segment_matches(a1[k], s1[k]) by {
            assert(segment_matches(a[k + 1], segs[k + 1]));
        };
        assert forall|k: int| 0 <= k < b1.len() implies #[trigger] segment_matches(b1[k], s1[k]) by {
            assert(segment_matches(b[k + 1], segs[k + 1]));
        };
        if same_shape(a1, b1) {
            assert forall|k: int| 0 <= k < a.len() implies #[trigger] segments_conflict(a[k], b[k]) by {
                if k > 0 {
                    assert(segments_conflict(a1[k - 1], b1[k - 1]));
                }
            };
        }
        lemma_precedes_total(a1, b1, s1);
    }
}

/// Whether the segment `s` matches the text `t`.
pub fn segment_matches_exec(s: &Segment, t: &String) -> (r: bool)
    ensures
        r == segment_matches(s@, t@),
{
    match s {
        Segment::Literal(x) => *x == *t,
        Segment::Param(_) => t.unicode_len() > 0,
    }
}

/// Whether `p` matches `segs` segment by segment.
pub fn pattern_matches_exec(p: &Vec<Segment>, segs: &Vec<String>) -> (r: bool)
    ensures
        r == pattern_matches(pattern_view(p@), strings_view(segs@)),
{
    if p.len() != segs.len() {
        return false;
    }
    let mut i: usize = 0;
    while i < p.len()
        invariant
            p.len() == segs.len(),
            i <= p.len(),
            forall|k: int| 0 <= k < i ==> #[trigger] segment_matches(
                pattern_view(p@)[k],
                strings_view(segs@)[k],
            ),
        decreases p.len() - i,
    {
        if !segment_matches_exec(&p[i], &segs[i]) {
            assert(!segment_matches(pattern_view(p@)[i as int], strings_view(segs@)[i as int]));
            return false;
        }
        i = i + 1;
    }
    true
}

/// Whether `a` takes precedence over `b`.
pub fn precedes_exec(a: &Vec<Segment>, b: &Vec<Segment>) -> (r: bool)
    ensures
        r == precedes(pattern_view(a@), pattern_view(b@)),
{
    let ghost av = pattern_view(a@);
    let ghost bv = pattern_view(b@);
    let mut i: usize = 0;
    assert(av.skip(0) =~= av);
    assert(bv.skip(0) =~= bv);
    while i < a.len() && i < b.len()
        invariant
            i <= a.len(),
            i <= b.len(),
            av == pattern_view(a@),
            bv == pattern_view(b@),
            precedes(av, bv) == precedes(av.skip(i as int), bv.skip(i as int)),
        decreases a.len() - i,
    {
        let pa = matches!(a[i], Segment::Param(_));
        let pb = matches!(b[i], Segment::Param(_));
        assert(av.skip(i as int)[0] == av[i as int]);
        assert(bv.skip(i as int)[0] == bv[i as int]);
        if pa != pb {
            return !pa;
        }
        assert(av.skip(i as int).drop_first() =~= av.skip(i + 1));
        assert(bv.skip(i as int).drop_first() =~= bv.skip(i + 1));
        i = i + 1;
    }
    false
}

/// The parameters that matching `p` against `segs` binds.
pub fn bind_params(p: &Vec<Segment>, segs: &Vec<String>) -> (r: Vec<(String, String)>)
    requires
        p.len() == segs.len(),
    ensures
        pairs_view(r@) == bindings(pattern_view(p@), strings_view(segs@)),
{
    let ghost pv = pattern_view(p@);
    let ghost sv = strings_view(segs@);
    let mut out: Vec<(String, String)> = Vec::new();
    let mut i: usize = 0;
    while i < p.len()
        invariant
            p.len() == segs.len(),
            i <= p.len(),
            pv == pattern_view(p@),
            sv == strings_view(segs@),
            pairs_view(out@) == bindings(pv.take(i as int), sv.take(i as int)),
        decreases p.len() - i,
    {
        let ghost before = pairs_view(out@);
        assert(pv.take(i + 1).drop_last() =~= pv.take(i as int));
        assert(sv.take(i + 1).drop_last() =~= sv.take(i as int));
        match &p[i] {
            Segment::Param(n) => {
                out.push((n.clone(), segs[i].clone()));
                assert(pairs_view(out@) =~= before.push((n@, segs[i as int]@)));
            },
            Segment::Literal(_) => {},
        }
        i = i + 1;
    }
    assert(pv.take(p.len() as int) =~= pv);
    assert(sv.take(p.len() as int) =~= sv);
    out
}

} // verus!
