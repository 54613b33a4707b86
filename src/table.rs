//! The route table: registration, nesting of groups, and resolution.
use vstd::prelude::*;
use crate::path::{path_ok, path_segments, split_path, strings_view};
use crate::route::{
    bind_params, bindings, lemma_precedes_asymmetric, lemma_precedes_total,
    lemma_precedes_transitive, pairs_view, parse_segment, pattern_matches, pattern_matches_exec,
    pattern_of, pattern_view, precedes, precedes_exec, same_shape, segment_matches, segments_conflict, Handler,
    Method, SegView, Segment,
};

verus! {

/// A method and a pattern bound to a handler.
pub struct Route {
    pub method: Method,
    pub pattern: Vec<Segment>,
    pub handler: Handler,
}

/// The mathematical value of a route.
pub struct RouteView {
    pub method: Method,
    pub pattern: Seq<SegView>,
    pub handler: Handler,
}

impl View for Route {
    type V = RouteView;

    open spec fn view(&self) -> RouteView {
        RouteView { method: self.method, pattern: pattern_view(self.pattern@), handler: self.handler }
    }
}

/// The mathematical value of a sequence of routes.
pub open spec fn routes_view(v: Seq<Route>) -> Seq<RouteView> {
    v.map_values(|r: Route| r@)
}

/// Why a route could not be added.
#[derive(Clone, Copy, Debug, PartialEq, Eq, Structural)]
pub enum RouteError {
    /// The pattern or prefix does not begin with '/'.
    Malformed,
    /// A route of the same method and shape is already registered.
    Duplicate,
}

/// What resolution found: the route's position, its handler and the bound
/// path parameters.
pub struct RouteMatch {
    pub index: usize,
    pub handler: Handler,
    pub params: Vec<(String, String)>,
}

/// No two routes of one method claim the same paths.
pub open spec fn table_wf(rs: Seq<RouteView>) -> bool {
    forall|i: int, j: int|
        0 <= i < rs.len() && 0 <= j < rs.len() && i != j && rs[i].method == rs[j].method
            ==> !same_shape(#[trigger] rs[i].pattern, #[trigger] rs[j].pattern)
}

/// Route `i` is a candidate for `(m, segs)`.
pub open spec fn candidate(rs: Seq<RouteView>, m: Method, segs: Seq<Seq<char>>, i: int) -> bool {
    &&& 0 <= i < rs.len()
    &&& rs[i].method == m
    &&& pattern_matches(rs[i].pattern, segs)
}

/// Route `i` is a candidate and takes precedence over every other candidate.
pub open spec fn is_best(rs: Seq<RouteView>, m: Method, segs: Seq<Seq<char>>, i: int) -> bool {
    &&& candidate(rs, m, segs, i)
    &&& forall|j: int|
        j != i && #[trigger] candidate(rs, m, segs, j) ==> precedes(rs[i].pattern, rs[j].pattern)
}

/// Some route is a candidate for `(m, segs)`.
pub open spec fn any_candidate(rs: Seq<RouteView>, m: Method, segs: Seq<Seq<char>>) -> bool {
    exists|i: int| #[trigger] candidate(rs, m, segs, i)
}

/// A route with a conflicting shape is already in `rs`.
pub open spec fn conflicts(rs: Seq<RouteView>, m: Method, p: Seq<SegView>) -> bool {
    exists|i: int| 0 <= i < rs.len() && rs[i].method == m && #[trigger] same_shape(rs[i].pattern, p)
}

/// The routes of `sub` with `prefix` put before each pattern.
pub open spec fn prefixed(prefix: Seq<SegView>, sub: Seq<RouteView>) -> Seq<RouteView> {
    sub.map_values(|r: RouteView| RouteView { method: r.method, pattern: prefix + r.pattern, handler: r.handler })
}

/// Some route of `sub`, once prefixed, conflicts with a route of `rs`.
pub open spec fn nest_conflicts(rs: Seq<RouteView>, prefix: Seq<SegView>, sub: Seq<RouteView>) -> bool {
    exists|j: int| 0 <= j < sub.len() && #[trigger] conflicts(rs, sub[j].method, prefix + sub[j].pattern)
}

/// At most one route is best for any method and segments.
pub proof fn lemma_best_unique(rs: Seq<RouteView>, m: Method, segs: Seq<Seq<char>>, i: int, j: int)
    requires
        table_wf(rs),
        is_best(rs, m, segs, i),
        is_best(rs, m, segs, j),
    ensures
        i == j,
{
    if i != j {
        assert(candidate(rs, m, segs, j));
        assert(candidate(rs, m, segs, i));
        lemma_precedes_asymmetric(rs[i].pattern, rs[j].pattern);
    }
}

/// A pattern made of literals only.
pub open spec fn all_literal(p: Seq<SegView>) -> bool {
    forall|k: int| 0 <= k < p.len() ==> !(#[trigger] p[k]).is_par()
}

/// The text of each segment of a pattern, which for a literal pattern is the
/// one path that it matches.
pub open spec fn literal_path(p: Seq<SegView>) -> Seq<Seq<char>> {
    p.map_values(|s: SegView| match s {
        SegView::Lit(t) => t,
        SegView::Par(n) => n,
    })
}

proof fn lemma_nothing_precedes_literal(a: Seq<SegView>, b: Seq<SegView>)
    requires
        all_literal(a),
    ensures
        !precedes(b, a),
    decreases a.len(),
{
    if a.len() > 0 && b.len() > 0 {
        assert(!a[0].is_par());
        assert forall|k: int| 0 <= k < a.drop_first().len() implies !(#[trigger] a.drop_first()[k]).is_par() by {
            assert(!a[k + 1].is_par());
        };
        lemma_nothing_precedes_literal(a.drop_first(), b.drop_first());
    }
}

/// A pattern of literals binds no parameters.
pub proof fn lemma_literal_binds_nothing(p: Seq<SegView>, segs: Seq<Seq<char>>)
    requires
        all_literal(p),
    ensures
        bindings(p, segs) == Seq::<(Seq<char>, Seq<char>)>::empty(),
    decreases p.len(),
{
    if p.len() > 0 && segs.len() > 0 {
        assert(!p[p.len() - 1].is_par());
        assert forall|k: int| 0 <= k < p.drop_last().len() implies !(#[trigger] p.drop_last()[k]).is_par() by {
            assert(!p[k].is_par());
        };
        lemma_literal_binds_nothing(p.drop_last(), segs.drop_last());
    }
}

/// A route whose pattern has only literals is the one that resolution finds
/// for its method and its literal path, and it binds no parameters.
pub proof fn lemma_literal_route_resolves(rs: Seq<RouteView>, i: int)
    requires
        table_wf(rs),
        0 <= i < rs.len(),
        all_literal(rs[i].pattern),
    ensures
        is_best(rs, rs[i].method, literal_path(rs[i].pattern), i),
        bindings(rs[i].pattern, literal_path(rs[i].pattern)) == Seq::<(Seq<char>, Seq<char>)>::empty(),
{
    let p = rs[i].pattern;
    let segs = literal_path(p);
    let m = rs[i].method;
    assert forall|k: int| 0 <= k < p.len() implies #[trigger] segment_matches(p[k], segs[k]) by {
        assert(!p[k].is_par());
    };
    assert(candidate(rs, m, segs, i));
    assert forall|j: int| j != i && #[trigger] candidate(rs, m, segs, j) implies precedes(p, rs[j].pattern) by {
        assert(!same_shape(rs[i].pattern, rs[j].pattern));
        lemma_precedes_total(p, rs[j].pattern, segs);
        lemma_nothing_precedes_literal(p, rs[j].pattern);
    };
    lemma_literal_binds_nothing(p, segs);
}

proof fn lemma_prefix_matches(x: Seq<char>, y: Seq<char>, p: Seq<SegView>, rest: Seq<Seq<char>>)
    ensures
        pattern_matches(seq![SegView::Lit(x)] + p, seq![y] + rest) <==> (x == y && pattern_matches(p, rest)),
{
    let pp = seq![SegView::Lit(x)] + p;
    let ss = seq![y] + rest;
    if pattern_matches(pp, ss) {
        assert(segment_matches(pp[0], ss[0]));
        assert forall|k: int| 0 <= k < p.len() implies #[trigger] segment_matches(p[k], rest[k]) by {
            assert(segment_matches(pp[k + 1], ss[k + 1]));
        };
    }
    if x == y && pattern_matches(p, rest) {
        assert forall|k: int| 0 <= k < pp.len() implies #[trigger] segment_matches(pp[k], ss[k]) by {
            if k > 0 {
                assert(segment_matches(p[k - 1], rest[k - 1]));
            }
        };
    }
}

proof fn lemma_prefix_precedes(x: Seq<char>, p: Seq<SegView>, q: Seq<SegView>)
    ensures
        precedes(seq![SegView::Lit(x)] + p, seq![SegView::Lit(x)] + q) == precedes(p, q),
{
    assert((seq![SegView::Lit(x)] + p).drop_first() =~= p);
    assert((seq![SegView::Lit(x)] + q).drop_first() =~= q);
}

proof fn lemma_prefix_bindings(x: Seq<char>, p: Seq<SegView>, rest: Seq<Seq<char>>)
    requires
        p.len() == rest.len(),
    ensures
        bindings(seq![SegView::Lit(x)] + p, seq![x] + rest) == bindings(p, rest),
    decreases p.len(),
{
    let pp = seq![SegView::Lit(x)] + p;
    let ss = seq![x] + rest;
    if p.len() > 0 {
        assert(pp.drop_last() =~= seq![SegView::Lit(x)] + p.drop_last());
        assert(ss.drop_last() =~= seq![x] + rest.drop_last());
        lemma_prefix_bindings(x, p.drop_last(), rest.drop_last());
        assert(pp.last() == p.last());
        assert(ss.last() == rest.last());
    } else {
        assert(pp.drop_last() =~= Seq::<SegView>::empty());
        assert(bindings(pp.drop_last(), ss.drop_last()) == Seq::<(Seq<char>, Seq<char>)>::empty());
        assert(bindings(p, rest) == Seq::<(Seq<char>, Seq<char>)>::empty());
    }
}

/// The route `r` with the literal `x` put before its pattern.
pub open spec fn under(x: Seq<char>, r: RouteView) -> RouteView {
    RouteView { method: r.method, pattern: seq![SegView::Lit(x)] + r.pattern, handler: r.handler }
}

/// Resolving within one group nested under the literal prefix `x`, beside
/// routes under any other first literal: the path `x` then `rest` reaches
/// exactly what `rest` reaches in the group.
proof fn lemma_group_under_prefix(
    rs: Seq<RouteView>,
    off: int,
    t: Seq<RouteView>,
    x: Seq<char>,
    m: Method,
    rest: Seq<Seq<char>>,
    i: int,
)
    requires
        0 <= off,
        off + t.len() <= rs.len(),
        forall|j: int| 0 <= j < t.len() ==> (#[trigger] rs[off + j] == under(x, t[j])),
        forall|j: int|
            0 <= j < rs.len() && !(off <= j < off + t.len()) ==> !#[trigger] candidate(rs, m, seq![x] + rest, j),
    ensures
        is_best(t, m, rest, i) <==> is_best(rs, m, seq![x] + rest, off + i),
{
    let segs = seq![x] + rest;
    assert forall|j: int| 0 <= j < t.len() implies (#[trigger] candidate(t, m, rest, j) <==> candidate(rs, m, segs, off + j)) by {
        assert(rs[off + j].pattern == seq![SegView::Lit(x)] + t[j].pattern);
        lemma_prefix_matches(x, x, t[j].pattern, rest);
    };
    if is_best(t, m, rest, i) {
        assert(candidate(rs, m, segs, off + i));
        assert forall|j: int| j != off + i && #[trigger] candidate(rs, m, segs, j)
            implies precedes(rs[off + i].pattern, rs[j].pattern) by {
            let jj = j - off;
            assert(rs[off + jj] == rs[j]);
            assert(candidate(t, m, rest, jj));
            lemma_prefix_precedes(x, t[i].pattern, t[jj].pattern);
        };
    }
    if is_best(rs, m, segs, off + i) {
        if !(0 <= i < t.len()) {
            assert(!candidate(rs, m, segs, off + i));
        }
        assert(candidate(t, m, rest, i));
        assert forall|j: int| j != i && #[trigger] candidate(t, m, rest, j)
            implies precedes(t[i].pattern, t[j].pattern) by {
            assert(candidate(rs, m, segs, off + j));
            lemma_prefix_precedes(x, t[i].pattern, t[j].pattern);
        };
    }
}

/// Two groups nested under different literal prefixes do not shadow each
/// other: a path under either prefix resolves to the route that the rest of
/// the path resolves to within that group, with the same parameters.
pub proof fn lemma_nested_groups_independent(
    t1: Seq<RouteView>,
    t2: Seq<RouteView>,
    a: Seq<char>,
    b: Seq<char>,
    m: Method,
    rest: Seq<Seq<char>>,
    i: int,
)
    requires
        a != b,
    ensures
        ({
            let rs = prefixed(seq![SegView::Lit(a)], t1) + prefixed(seq![SegView::Lit(b)], t2);
            &&& is_best(t1, m, rest, i) <==> is_best(rs, m, seq![a] + rest, i)
            &&& is_best(t2, m, rest, i) <==> is_best(rs, m, seq![b] + rest, t1.len() + i)
            &&& 0 <= i < t1.len() && pattern_matches(t1[i].pattern, rest) ==>
                bindings(rs[i].pattern, seq![a] + rest) == bindings(t1[i].pattern, rest)
            &&& 0 <= i < t2.len() && pattern_matches(t2[i].pattern, rest) ==>
                bindings(rs[t1.len() + i].pattern, seq![b] + rest) == bindings(t2[i].pattern, rest)
        }),
{
    let rs = prefixed(seq![SegView::Lit(a)], t1) + prefixed(seq![SegView::Lit(b)], t2);
    let n = t1.len() as int;
    assert forall|j: int| 0 <= j < t1.len() implies (#[trigger] rs[0 + j] == under(a, t1[j])) by {
        assert(rs[0 + j] == rs[j]);
    };
    assert forall|j: int| 0 <= j < t2.len() implies (#[trigger] rs[n + j] == under(b, t2[j])) by {};
    assert forall|j: int| 0 <= j < rs.len() && !(0 <= j < 0 + t1.len()) implies !#[trigger] candidate(rs, m, seq![a] + rest, j) by {
        assert(rs[n + (j - n)] == rs[j]);
        lemma_prefix_matches(b, a, t2[j - n].pattern, rest);
    };
    assert forall|j: int| 0 <= j < rs.len() && !(n <= j < n + t2.len()) implies !#[trigger] candidate(rs, m, seq![b] + rest, j) by {
        assert(rs[0 + j] == rs[j]);
        lemma_prefix_matches(a, b, t1[j].pattern, rest);
    };
    lemma_group_under_prefix(rs, 0, t1, a, m, rest, i);
    assert(rs.len() == n + t2.len());
    lemma_group_under_prefix(rs, n, t2, b, m, rest, i);
    if 0 <= i < t1.len() && pattern_matches(t1[i].pattern, rest) {
        assert(rs[0 + i] == rs[i]);
        lemma_prefix_bindings(a, t1[i].pattern, rest);
    }
    if 0 <= i < t2.len() && pattern_matches(t2[i].pattern, rest) {
        lemma_prefix_bindings(b, t2[i].pattern, rest);
    }
}

/// Copies a segment.
pub fn copy_segment(s: &Segment) -> (r: Segment)
    ensures
        r@ == s@,
{
    match s {
        Segment::Literal(t) => Segment::Literal(t.clone()),
        Segment::Param(n) => Segment::Param(n.clone()),
    }
}

/// Parses a pattern text such as "/view_users/:name" into its segments;
/// `None` when it does not begin with '/'.
pub fn parse_pattern(p: &str) -> (r: Option<Vec<Segment>>)
    ensures
        r.is_none() <==> !path_ok(p@),
        r matches Some(v) ==> pattern_view(v@) == pattern_of(p@),
{
    let pieces = match split_path(p) {
        None => return None,
        Some(v) => v,
    };
    let ghost target = pattern_of(p@);
    assert(target =~= strings_view(pieces@).map_values(|t: Seq<char>| parse_segment(t)));
    let mut out: Vec<Segment> = Vec::new();
    let mut i: usize = 0;
    while i < pieces.len()
        invariant
            i <= pieces.len(),
            target == strings_view(pieces@).map_values(|t: Seq<char>| parse_segment(t)),
            pattern_view(out@) =~= target.take(i as int),
        decreases pieces.len() - i,
    {
        let t = &pieces[i];
        let n = t.as_str().unicode_len();
        let seg = if n > 0 && t.as_str().get_char(0) == ':' {
            Segment::Param(t.as_str().substring_char(1, n).to_owned())
        } else {
            Segment::Literal(t.clone())
        };
        assert(t@ == strings_view(pieces@)[i as int]);
        proof {
            if n > 0 && t@[0] == ':' {
                assert(t@.subrange(1, n as int) =~= t@.drop_first());
            }
        }
        assert(seg@ == parse_segment(t@));
        assert(target[i as int] == parse_segment(t@));
        let ghost before = out@;
        out.push(seg);
        assert(pattern_view(out@) =~= pattern_view(before).push(seg@));
        assert(pattern_view(out@) =~= target.take(i + 1));
        i = i + 1;
    }
    Some(out)
}

/// Whether two patterns claim the same paths.
pub fn same_shape_exec(a: &Vec<Segment>, b: &Vec<Segment>) -> (r: bool)
    ensures
        r == same_shape(pattern_view(a@), pattern_view(b@)),
{
    if a.len() != b.len() {
        return false;
    }
    let mut i: usize = 0;
    while i < a.len()
        invariant
            a.len() == b.len(),
            i <= a.len(),
            forall|k: int| 0 <= k < i ==> #[trigger] segments_conflict(pattern_view(a@)[k], pattern_view(b@)[k]),
        decreases a.len() - i,
    {
        let c = match (&a[i], &b[i]) {
            (Segment::Literal(x), Segment::Literal(y)) => *x == *y,
            (Segment::Param(_), Segment::Param(_)) => true,
            _ => false,
        };
        assert(pattern_view(a@)[i as int] == a@[i as int]@);
        assert(pattern_view(b@)[i as int] == b@[i as int]@);
        if !c {
            assert(!segments_conflict(pattern_view(a@)[i as int], pattern_view(b@)[i as int]));
            return false;
        }
        i = i + 1;
    }
    true
}

/// `prefix` followed by `p`.
pub fn join_patterns(prefix: &Vec<Segment>, p: &Vec<Segment>) -> (r: Vec<Segment>)
    ensures
        pattern_view(r@) == pattern_view(prefix@) + pattern_view(p@),
{
    let mut out: Vec<Segment> = Vec::new();
    let mut i: usize = 0;
    while i < prefix.len()
        invariant
            i <= prefix.len(),
            pattern_view(out@) =~= pattern_view(prefix@).take(i as int),
        decreases prefix.len() - i,
    {
        let ghost before = out@;
        out.push(copy_segment(&prefix[i]));
        assert(pattern_view(out@) =~= pattern_view(before).push(prefix@[i as int]@));
        i = i + 1;
    }
    let mut k: usize = 0;
    while k < p.len()
        invariant
            k <= p.len(),
            pattern_view(out@) =~= pattern_view(prefix@) + pattern_view(p@).take(k as int),
        decreases p.len() - k,
    {
        let ghost before = out@;
        out.push(copy_segment(&p[k]));
        assert(pattern_view(out@) =~= pattern_view(before).push(p@[k as int]@));
        k = k + 1;
    }
    assert(pattern_view(p@).take(p.len() as int) =~= pattern_view(p@));
    out
}

proof fn lemma_same_shape_symmetric(a: Seq<SegView>, b: Seq<SegView>)
    requires
        same_shape(a, b),
    ensures
        same_shape(b, a),
{
    assert forall|k: int| 0 <= k < b.len() implies #[trigger] segments_conflict(b[k], a[k]) by {
        assert(segments_conflict(a[k], b[k]));
    };
}

proof fn lemma_same_shape_unprefix(p: Seq<SegView>, a: Seq<SegView>, b: Seq<SegView>)
    requires
        same_shape(p + a, p + b),
    ensures
        same_shape(a, b),
{
    assert forall|k: int| 0 <= k < a.len() implies #[trigger] segments_conflict(a[k], b[k]) by {
        assert(segments_conflict((p + a)[p.len() + k], (p + b)[p.len() + k]));
    };
}

/// A table of routes in which no two routes of one method claim the same paths.
pub struct RouteTable {
    routes: Vec<Route>,
}

impl View for RouteTable {
    type V = Seq<RouteView>;

    closed spec fn view(&self) -> Seq<RouteView> {
        routes_view(self.routes@)
    }
}

impl RouteTable {
    /// Every table that this type's operations build is well formed.
    pub open spec fn wf(&self) -> bool {
        table_wf(self@)
    }

    /// An empty table.
    pub fn new() -> (r: RouteTable)
        ensures
            r@ == Seq::<RouteView>::empty(),
            r.wf(),
    {
        let r = RouteTable { routes: Vec::new() };
        assert(r@ =~= Seq::<RouteView>::empty());
        r
    }

    /// The number of routes.
    pub fn len(&self) -> (r: usize)
        ensures
            r == self@.len(),
    {
        self.routes.len()
    }

    /// Finds the route for `method` and the path segments `segs`: among the
    /// routes whose method is `method` and whose pattern matches, the one that
    /// takes precedence over all others.
    pub fn resolve_segments(&self, method: Method, segs: &Vec<String>) -> (r: Option<RouteMatch>)
        requires
            self.wf(),
        ensures
            r.is_none() <==> !any_candidate(self@, method, strings_view(segs@)),
            r matches Some(x) ==> {
                &&& is_best(self@, method, strings_view(segs@), x.index as int)
                &&& x.handler == self@[x.index as int].handler
                &&& pairs_view(x.params@) == bindings(self@[x.index as int].pattern, strings_view(segs@))
            },
    {
        let ghost rs = self@;
        let ghost sv = strings_view(segs@);
        let mut best: Option<usize> = None;
        let mut i: usize = 0;
        while i < self.routes.len()
            invariant
                rs == self@,
                sv == strings_view(segs@),
                table_wf(rs),
                i <= rs.len(),
                rs.len() == self.routes@.len(),
                best is None ==> forall|j: int| 0 <= j < i ==> !#[trigger] candidate(rs, method, sv, j),
                best matches Some(b) ==> {
                    &&& b < i
                    &&& candidate(rs, method, sv, b as int)
                    &&& forall|j: int| 0 <= j < i && j != b && #[trigger] candidate(rs, method, sv, j)
                        ==> precedes(rs[b as int].pattern, rs[j].pattern)
                },
            decreases self.routes.len() - i,
        {
            let route = &self.routes[i];
            assert(rs[i as int] == route@);
            if route.method == method && pattern_matches_exec(&route.pattern, segs) {
                assert(candidate(rs, method, sv, i as int));
                match best {
                    None => {
                        best = Some(i);
                    },
                    Some(b) => {
                        assert(rs[b as int] == self.routes@[b as int]@);
                        if precedes_exec(&route.pattern, &self.routes[b].pattern) {
                            proof {
                                assert forall|j: int| 0 <= j < i + 1 && j != i && #[trigger] candidate(rs, method, sv, j)
                                    implies precedes(rs[i as int].pattern, rs[j].pattern) by {
                                    if j != b {
                                        lemma_precedes_transitive(rs[i as int].pattern, rs[b as int].pattern, rs[j].pattern);
                                    }
                                };
                            }
                            best = Some(i);
                        } else {
                            proof {
                                assert(!same_shape(rs[b as int].pattern, rs[i as int].pattern));
                                lemma_precedes_total(rs[b as int].pattern, rs[i as int].pattern, sv);
                            }
                        }
                    },
                }
            }
            i = i + 1;
        }
        match best {
            None => None,
            Some(b) => {
                let route = &self.routes[b];
                assert(rs[b as int] == route@);
                let params = bind_params(&route.pattern, segs);
                Some(RouteMatch { index: b, handler: route.handler, params })
            },
        }
    }

    /// Resolves a request path: no match when it does not begin with '/',
    /// else as `resolve_segments` on its segments.
    pub fn resolve(&self, method: Method, path: &str) -> (r: Option<RouteMatch>)
        requires
            self.wf(),
        ensures
            !path_ok(path@) ==> r.is_none(),
            path_ok(path@) ==> (r.is_none() <==> !any_candidate(self@, method, path_segments(path@))),
            r matches Some(x) ==> {
                &&& is_best(self@, method, path_segments(path@), x.index as int)
                &&& x.handler == self@[x.index as int].handler
                &&& pairs_view(x.params@) == bindings(self@[x.index as int].pattern, path_segments(path@))
            },
    {
        match split_path(path) {
            None => None,
            Some(segs) => self.resolve_segments(method, &segs),
        }
    }

    /// Whether a route of `m` with the shape of `p` is registered.
    fn has_conflict(&self, m: Method, p: &Vec<Segment>) -> (r: bool)
        ensures
            r == conflicts(self@, m, pattern_view(p@)),
    {
        let mut i: usize = 0;
        while i < self.routes.len()
            invariant
                i <= self@.len(),
                self@.len() == self.routes@.len(),
                forall|j: int| 0 <= j < i ==> !(self@[j].method == m && #[trigger] same_shape(self@[j].pattern, pattern_view(p@))),
            decreases self.routes.len() - i,
        {
            assert(self@[i as int] == self.routes@[i as int]@);
            if self.routes[i].method == m && same_shape_exec(&self.routes[i].pattern, p) {
                assert(same_shape(self@[i as int].pattern, pattern_view(p@)));
                return true;
            }
            i = i + 1;
        }
        false
    }

    /// Adds a route for `method` and the pattern text `pattern` (such as
    /// "/view_users/:name"), unless the pattern is malformed or a route of the
    /// same method and shape is already registered.
    pub fn register(&mut self, method: Method, pattern: &str, handler: Handler) -> (r: Result<(), RouteError>)
        requires
            old(self).wf(),
        ensures
            final(self).wf(),
            r == Err::<(), RouteError>(RouteError::Malformed) <==> !path_ok(pattern@),
            r == Err::<(), RouteError>(RouteError::Duplicate) <==> path_ok(pattern@) && conflicts(
                old(self)@,
                method,
                pattern_of(pattern@),
            ),
            r is Ok <==> path_ok(pattern@) && !conflicts(old(self)@, method, pattern_of(pattern@)),
            r is Ok ==> final(self)@ == old(self)@.push(
                RouteView { method, pattern: pattern_of(pattern@), handler },
            ),
            r is Err ==> final(self)@ == old(self)@,
    {
        match parse_pattern(pattern) {
            None => Err(RouteError::Malformed),
            Some(p) => self.add_route(method, p, handler),
        }
    }

    /// Adds a route for `method` and the pattern `p`, unless a route of the
    /// same method and shape is already registered.
    pub fn add_route(&mut self, method: Method, p: Vec<Segment>, handler: Handler) -> (r: Result<(), RouteError>)
        requires
            old(self).wf(),
        ensures
            final(self).wf(),
            r is Ok <==> !conflicts(old(self)@, method, pattern_view(p@)),
            r is Err ==> r == Err::<(), RouteError>(RouteError::Duplicate),
            r is Ok ==> final(self)@ == old(self)@.push(RouteView { method, pattern: pattern_view(p@), handler }),
            r is Err ==> final(self)@ == old(self)@,
    {
        if self.has_conflict(method, &p) {
            return Err(RouteError::Duplicate);
        }
        let ghost before = self@;
        let route = Route { method, pattern: p, handler };
        self.routes.push(route);
        assert(self@ =~= before.push(route@));
        proof {
            let rs = self@;
            assert forall|i: int, j: int|
                0 <= i < rs.len() && 0 <= j < rs.len() && i != j && rs[i].method == rs[j].method
                    implies !same_shape(#[trigger] rs[i].pattern, #[trigger] rs[j].pattern) by {
                if i == rs.len() - 1 {
                    if same_shape(rs[i].pattern, rs[j].pattern) {
                        lemma_same_shape_symmetric(rs[i].pattern, rs[j].pattern);
                        assert(same_shape(before[j].pattern, pattern_view(p@)));
                    }
                } else if j == rs.len() - 1 {
                    assert(!same_shape(before[i].pattern, pattern_view(p@)));
                } else {
                    assert(rs[i] == before[i] && rs[j] == before[j]);
                }
            };
        }
        Ok(())
    }

    /// Adds every route of `sub` with the prefix text `prefix` (such as
    /// "/users") put before its pattern, unless the prefix is malformed or one
    /// of them conflicts with a route already here; then nothing is added.
    pub fn nest(&mut self, prefix: &str, sub: &RouteTable) -> (r: Result<(), RouteError>)
        requires
            old(self).wf(),
            sub.wf(),
        ensures
            final(self).wf(),
            r == Err::<(), RouteError>(RouteError::Malformed) <==> !path_ok(prefix@),
            r == Err::<(), RouteError>(RouteError::Duplicate) <==> path_ok(prefix@) && nest_conflicts(
                old(self)@,
                pattern_of(prefix@),
                sub@,
            ),
            r is Ok <==> path_ok(prefix@) && !nest_conflicts(old(self)@, pattern_of(prefix@), sub@),
            r is Ok ==> final(self)@ == old(self)@ + prefixed(pattern_of(prefix@), sub@),
            r is Err ==> final(self)@ == old(self)@,
    {
        match parse_pattern(prefix) {
            None => Err(RouteError::Malformed),
            Some(pre) => self.nest_pattern(&pre, sub),
        }
    }

    /// Adds every route of `sub` with the segments `pre` put before its
    /// pattern, unless one of them conflicts with a route already here; then
    /// nothing is added.
    pub fn nest_pattern(&mut self, pre: &Vec<Segment>, sub: &RouteTable) -> (r: Result<(), RouteError>)
        requires
            old(self).wf(),
            sub.wf(),
        ensures
            final(self).wf(),
            r is Ok <==> !nest_conflicts(old(self)@, pattern_view(pre@), sub@),
            r is Err ==> r == Err::<(), RouteError>(RouteError::Duplicate),
            r is Ok ==> final(self)@ == old(self)@ + prefixed(pattern_view(pre@), sub@),
            r is Err ==> final(self)@ == old(self)@,
    {
        let ghost pv = pattern_view(pre@);
        let ghost subv = sub@;
        let mut added: Vec<Route> = Vec::new();
        let mut j: usize = 0;
        while j < sub.routes.len()
            invariant
                pattern_view(pre@) == pv,
                self@ == old(self)@,
                table_wf(self@),
                subv == sub@,
                subv.len() == sub.routes@.len(),
                j <= subv.len(),
                routes_view(added@) =~= prefixed(pv, subv).take(j as int),
                forall|k: int| 0 <= k < j ==> !#[trigger] conflicts(self@, subv[k].method, pv + subv[k].pattern),
            decreases sub.routes.len() - j,
        {
            let sr = &sub.routes[j];
            assert(subv[j as int] == sr@);
            let full = join_patterns(pre, &sr.pattern);
            if self.has_conflict(sr.method, &full) {
                assert(conflicts(self@, subv[j as int].method, pv + subv[j as int].pattern));
                return Err(RouteError::Duplicate);
            }
            let ghost before = added@;
            let route = Route { method: sr.method, pattern: full, handler: sr.handler };
            added.push(route);
            assert(routes_view(added@) =~= routes_view(before).push(route@));
            j = j + 1;
        }
        assert(prefixed(pv, subv).take(subv.len() as int) =~= prefixed(pv, subv));
        let ghost old_rs = self@;
        let ghost new_routes = added@;
        self.routes.append(&mut added);
        assert(self@ =~= old_rs + routes_view(new_routes));
        proof {
            let rs = self@;
            let ps = prefixed(pv, subv);
            let n = old_rs.len();
            assert(rs =~= old_rs + ps);
            assert forall|i: int, j: int|
                0 <= i < rs.len() && 0 <= j < rs.len() && i != j && rs[i].method == rs[j].method
                    implies !same_shape(#[trigger] rs[i].pattern, #[trigger] rs[j].pattern) by {
                if i < n && j < n {
                    assert(rs[i] == old_rs[i] && rs[j] == old_rs[j]);
                } else if i >= n && j >= n {
                    assert(rs[i] == ps[i - n] && rs[j] == ps[j - n]);
                    if same_shape(rs[i].pattern, rs[j].pattern) {
                        lemma_same_shape_unprefix(pv, subv[i - n].pattern, subv[j - n].pattern);
                    }
                } else if i < n {
                    assert(rs[j] == ps[j - n]);
                    assert(!conflicts(old_rs, subv[j - n].method, pv + subv[j - n].pattern));
                    if same_shape(rs[i].pattern, rs[j].pattern) {
                        assert(same_shape(old_rs[i].pattern, pv + subv[j - n].pattern));
                    }
                } else {
                    assert(rs[i] == ps[i - n]);
                    assert(!conflicts(old_rs, subv[i - n].method, pv + subv[i - n].pattern));
                    if same_shape(rs[i].pattern, rs[j].pattern) {
                        lemma_same_shape_symmetric(rs[i].pattern, rs[j].pattern);
                        assert(same_shape(old_rs[j].pattern, pv + subv[i - n].pattern));
                    }
                }
            };
        }
        Ok(())
    }
}

} // verus!
