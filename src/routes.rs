//! The service's routes: a "users" group and a "home" group, nested under
//! their prefixes.
use vstd::prelude::*;
use crate::path::{lemma_split_append, lemma_split_single, no_separator, path_ok, path_segments};
use crate::route::{bindings, parse_segment, pattern_of, precedes, segment_matches, segments_conflict, Handler, Method, SegView, Segment};
use crate::table::{
    all_literal, any_candidate, candidate, is_best, lemma_literal_binds_nothing, lemma_literal_route_resolves, literal_path, prefixed,
    table_wf, RouteTable, RouteView,
};

verus! {

/// The literal segment with the text of `t`.
pub open spec fn lit(t: &str) -> SegView {
    SegView::Lit(t@)
}

/// GET /view_users/:name and POST /create_users.
pub open spec fn user_routes_view() -> Seq<RouteView> {
    seq![
        RouteView { method: Method::Get, pattern: seq![lit("view_users"), SegView::Par("name"@)], handler: Handler::ViewUser },
        RouteView { method: Method::Post, pattern: seq![lit("create_users")], handler: Handler::CreateUser },
    ]
}

/// GET /main.
pub open spec fn home_routes_view() -> Seq<RouteView> {
    seq![RouteView { method: Method::Get, pattern: seq![lit("main")], handler: Handler::Greeting }]
}

/// The users group under /users, then the home group under /home.
pub open spec fn app_routes_view() -> Seq<RouteView> {
    prefixed(seq![lit("users")], user_routes_view()) + prefixed(seq![lit("home")], home_routes_view())
}

proof fn lemma_one_piece_pattern(p: Seq<char>, a: Seq<char>)
    requires
        no_separator(a),
        p == seq!['/'] + a,
    ensures
        path_ok(p),
        pattern_of(p) == seq![parse_segment(a)],
{
    assert(p.drop_first() =~= a);
    lemma_split_single(a);
    assert(seq![a].map_values(|t: Seq<char>| parse_segment(t)) =~= seq![parse_segment(a)]);
}

/// "/a/b" for two segments without separators splits into `a` and `b`.
proof fn lemma_two_segment_path(p: Seq<char>, a: Seq<char>, b: Seq<char>)
    requires
        no_separator(a),
        no_separator(b),
        p == seq!['/'] + a + seq!['/'] + b,
    ensures
        path_ok(p),
        path_segments(p) == seq![a, b],
{
    assert(p[0] == '/');
    assert(p.drop_first() =~= a + seq!['/'] + b);
    lemma_split_append(a, b);
    lemma_split_single(a);
    assert(seq![a].push(b) =~= seq![a, b]);
}

proof fn lemma_two_piece_pattern(p: Seq<char>, a: Seq<char>, b: Seq<char>)
    requires
        no_separator(a),
        no_separator(b),
        p == seq!['/'] + a + seq!['/'] + b,
    ensures
        path_ok(p),
        pattern_of(p) == seq![parse_segment(a), parse_segment(b)],
{
    lemma_two_segment_path(p, a, b);
    assert(seq![a, b].map_values(|t: Seq<char>| parse_segment(t)) =~= seq![parse_segment(a), parse_segment(b)]);
}

/// The users group: GET /view_users/:name and POST /create_users.
pub fn user_routes() -> (r: RouteTable)
    ensures
        r.wf(),
        r@ == user_routes_view(),
{
    let mut t = RouteTable::new();
    proof {
        reveal_strlit("/view_users/:name");
        reveal_strlit("view_users");
        reveal_strlit(":name");
        reveal_strlit("name");
        reveal_strlit("/create_users");
        reveal_strlit("create_users");
        assert(no_separator("view_users"@));
        assert(no_separator(":name"@));
        assert(no_separator("create_users"@));
        assert("/view_users/:name"@ =~= seq!['/'] + "view_users"@ + seq!['/'] + ":name"@);
        assert("/create_users"@ =~= seq!['/'] + "create_users"@);
        assert(":name"@.drop_first() =~= "name"@);
        lemma_two_piece_pattern("/view_users/:name"@, "view_users"@, ":name"@);
        lemma_one_piece_pattern("/create_users"@, "create_users"@);
    }
    let a = t.register(Method::Get, "/view_users/:name", Handler::ViewUser);
    assert(a is Ok);
    let b = t.register(Method::Post, "/create_users", Handler::CreateUser);
    assert(b is Ok);
    assert(t@ =~= user_routes_view());
    t
}

/// The home group: GET /main.
pub fn home_routes() -> (r: RouteTable)
    ensures
        r.wf(),
        r@ == home_routes_view(),
{
    let mut t = RouteTable::new();
    proof {
        reveal_strlit("/main");
        reveal_strlit("main");
        assert(no_separator("main"@));
        assert("/main"@ =~= seq!['/'] + "main"@);
        lemma_one_piece_pattern("/main"@, "main"@);
    }
    let a = t.register(Method::Get, "/main", Handler::Greeting);
    assert(a is Ok);
    assert(t@ =~= home_routes_view());
    t
}

/// The service's table: the users group under /users, the home group under
/// /home.
pub fn app_routes() -> (r: RouteTable)
    ensures
        r.wf(),
        r@ == app_routes_view(),
{
    let users = user_routes();
    let home = home_routes();
    let mut t = RouteTable::new();
    proof {
        reveal_strlit("/users");
        reveal_strlit("users");
        reveal_strlit("/home");
        reveal_strlit("home");
        assert(no_separator("users"@));
        assert(no_separator("home"@));
        assert("/users"@ =~= seq!['/'] + "users"@);
        assert("/home"@ =~= seq!['/'] + "home"@);
        lemma_one_piece_pattern("/users"@, "users"@);
        lemma_one_piece_pattern("/home"@, "home"@);
    }
    let a = t.nest("/users", &users);
    assert(a is Ok);
    let b = t.nest("/home", &home);
    assert(b is Ok);
    assert(t@ =~= app_routes_view());
    t
}

/// A path under /users/view_users/ with one more non-empty segment reaches
/// the view route, which binds "name" to that segment.
pub proof fn lemma_view_route(name: Seq<char>)
    requires
        name.len() > 0,
    ensures
        is_best(app_routes_view(), Method::Get, seq!["users"@, "view_users"@, name], 0),
        bindings(app_routes_view()[0].pattern, seq!["users"@, "view_users"@, name]) == seq![("name"@, name)],
{
    let rs = app_routes_view();
    let segs = seq!["users"@, "view_users"@, name];
    assert(rs[0].pattern =~= seq![lit("users"), lit("view_users"), SegView::Par("name"@)]);
    assert(rs[2].pattern =~= seq![lit("home"), lit("main")]);
    assert(segment_matches(rs[0].pattern[2], segs[2]));
    assert(candidate(rs, Method::Get, segs, 0));
    assert forall|j: int| j != 0 && #[trigger] candidate(rs, Method::Get, segs, j) implies precedes(rs[0].pattern, rs[j].pattern) by {
        assert(j == 1 || j == 2);
    };
    let p = rs[0].pattern;
    assert(all_literal(p.drop_last()));
    lemma_literal_binds_nothing(p.drop_last(), segs.drop_last());
}

/// The path of the view route, written out: "/users/view_users/" then a
/// segment without separators, splits into the three segments above.
pub proof fn lemma_view_path(name: Seq<char>)
    requires
        no_separator(name),
    ensures
        path_ok("/users/view_users/"@ + name),
        path_segments("/users/view_users/"@ + name) == seq!["users"@, "view_users"@, name],
{
    reveal_strlit("/users/view_users/");
    reveal_strlit("users");
    reveal_strlit("view_users");
    let p = "/users/view_users/"@ + name;
    assert(p[0] == '/');
    let first = "users"@;
    let second = "view_users"@;
    assert(no_separator(first));
    assert(no_separator(second));
    assert(p.drop_first() =~= (first + seq!['/'] + second) + seq!['/'] + name);
    lemma_split_append(first + seq!['/'] + second, name);
    lemma_split_append(first, second);
    lemma_split_single(first);
    assert(seq![first].push(second).push(name) =~= seq![first, second, name]);
}

/// POST /users/create_users reaches the create route.
pub proof fn lemma_create_route()
    ensures
        is_best(app_routes_view(), Method::Post, seq!["users"@, "create_users"@], 1),
        app_routes_view()[1].handler == Handler::CreateUser,
{
    let rs = app_routes_view();
    assert(rs[1].pattern =~= seq![lit("users"), lit("create_users")]);
    assert(all_literal(rs[1].pattern));
    assert(literal_path(rs[1].pattern) =~= seq!["users"@, "create_users"@]);
    lemma_app_routes_wf();
    lemma_literal_route_resolves(rs, 1);
}

/// GET /home/main reaches the greeting route.
pub proof fn lemma_home_route()
    ensures
        is_best(app_routes_view(), Method::Get, seq!["home"@, "main"@], 2),
        app_routes_view()[2].handler == Handler::Greeting,
{
    let rs = app_routes_view();
    assert(rs[2].pattern =~= seq![lit("home"), lit("main")]);
    assert(all_literal(rs[2].pattern));
    assert(literal_path(rs[2].pattern) =~= seq!["home"@, "main"@]);
    lemma_app_routes_wf();
    lemma_literal_route_resolves(rs, 2);
}

proof fn lemma_app_routes_wf()
    ensures
        table_wf(app_routes_view()),
{
    let rs = app_routes_view();
    reveal_strlit("users");
    reveal_strlit("home");
    assert(rs[0].pattern =~= seq![lit("users"), lit("view_users"), SegView::Par("name"@)]);
    assert(rs[1].pattern =~= seq![lit("users"), lit("create_users")]);
    assert(rs[2].pattern =~= seq![lit("home"), lit("main")]);
    assert("users"@.len() == 5 && "home"@.len() == 4);
    assert(!segments_conflict(rs[1].pattern[0], rs[2].pattern[0]));
}

/// Whatever the method, a path whose first segment is neither "users" nor
/// "home", or that has neither two nor three segments, reaches no route.
pub proof fn lemma_unregistered_path(m: Method, segs: Seq<Seq<char>>)
    requires
        (segs.len() != 2 && segs.len() != 3) || (segs[0] != "users"@ && segs[0] != "home"@),
    ensures
        !any_candidate(app_routes_view(), m, segs),
{
    let rs = app_routes_view();
    assert(rs[0].pattern =~= seq![lit("users"), lit("view_users"), SegView::Par("name"@)]);
    assert(rs[1].pattern =~= seq![lit("users"), lit("create_users")]);
    assert(rs[2].pattern =~= seq![lit("home"), lit("main")]);
    assert forall|j: int| !#[trigger] candidate(rs, m, segs, j) by {
        if candidate(rs, m, segs, j) {
            assert(segment_matches(rs[j].pattern[0], segs[0]));
        }
    };
}

/// The request paths of the two literal routes split as expected.
pub proof fn lemma_literal_paths()
    ensures
        path_ok("/users/create_users"@),
        path_segments("/users/create_users"@) == seq!["users"@, "create_users"@],
        path_ok("/home/main"@),
        path_segments("/home/main"@) == seq!["home"@, "main"@],
{
    reveal_strlit("/users/create_users");
    reveal_strlit("users");
    reveal_strlit("create_users");
    reveal_strlit("/home/main");
    reveal_strlit("home");
    reveal_strlit("main");
    assert(no_separator("users"@));
    assert(no_separator("create_users"@));
    assert(no_separator("home"@));
    assert(no_separator("main"@));
    assert("/users/create_users"@ =~= seq!['/'] + "users"@ + seq!['/'] + "create_users"@);
    assert("/home/main"@ =~= seq!['/'] + "home"@ + seq!['/'] + "main"@);
    lemma_two_segment_path("/users/create_users"@, "users"@, "create_users"@);
    lemma_two_segment_path("/home/main"@, "home"@, "main"@);
}

/// A path of one segment, such as "/unknown", reaches no route whatever the
/// method.
pub proof fn lemma_single_segment_path(m: Method, seg: Seq<char>)
    requires
        no_separator(seg),
    ensures
        path_ok(seq!['/'] + seg),
        !any_candidate(app_routes_view(), m, path_segments(seq!['/'] + seg)),
{
    let p = seq!['/'] + seg;
    assert(p.drop_first() =~= seg);
    lemma_split_single(seg);
    lemma_unregistered_path(m, path_segments(p));
}

} // verus!
