use route_table::path::split_path;
use route_table::route::{Handler, Method, Segment};
use route_table::routes::{app_routes, home_routes, user_routes};
use route_table::table::{parse_pattern, RouteError, RouteTable};

fn texts(v: &[&str]) -> Vec<String> {
    v.iter().map(|s| s.to_string()).collect()
}

#[test]
fn split_path_pieces() {
    assert_eq!(split_path("/users/view_users/bob"), Some(texts(&["users", "view_users", "bob"])));
    assert_eq!(split_path("/"), Some(texts(&[""])));
    assert_eq!(split_path("/home/main/"), Some(texts(&["home", "main", ""])));
    assert_eq!(split_path("home"), None);
    assert_eq!(split_path(""), None);
}

#[test]
fn parse_pattern_marks_parameters() {
    let p = parse_pattern("/view_users/:name").unwrap();
    assert_eq!(p.len(), 2);
    assert!(matches!(&p[0], Segment::Literal(t) if t == "view_users"));
    assert!(matches!(&p[1], Segment::Param(n) if n == "name"));
    assert!(parse_pattern("view_users").is_none());
}

#[test]
fn register_rejects_malformed_and_duplicates() {
    let mut t = RouteTable::new();
    assert_eq!(t.register(Method::Get, "/a/:x", Handler::ViewUser), Ok(()));
    assert_eq!(t.register(Method::Get, "a", Handler::Greeting), Err(RouteError::Malformed));
    assert_eq!(t.register(Method::Get, "/a/:y", Handler::Greeting), Err(RouteError::Duplicate));
    assert_eq!(t.register(Method::Post, "/a/:y", Handler::CreateUser), Ok(()));
    assert_eq!(t.register(Method::Get, "/a/b", Handler::Greeting), Ok(()));
    assert_eq!(t.len(), 3);
}

#[test]
fn literal_takes_precedence_over_parameter() {
    let mut t = RouteTable::new();
    t.register(Method::Get, "/a/:x", Handler::ViewUser).unwrap();
    t.register(Method::Get, "/a/b", Handler::Greeting).unwrap();
    let m = t.resolve(Method::Get, "/a/b").unwrap();
    assert_eq!(m.handler, Handler::Greeting);
    assert_eq!(m.index, 1);
    assert!(m.params.is_empty());
    let m = t.resolve(Method::Get, "/a/c").unwrap();
    assert_eq!(m.handler, Handler::ViewUser);
    assert_eq!(m.params, vec![("x".to_string(), "c".to_string())]);
}

#[test]
fn parameter_needs_a_non_empty_segment() {
    let mut t = RouteTable::new();
    t.register(Method::Get, "/a/:x", Handler::ViewUser).unwrap();
    assert!(t.resolve(Method::Get, "/a/").is_none());
    assert!(t.resolve(Method::Get, "/a").is_none());
    assert!(t.resolve(Method::Get, "/a/b/c").is_none());
}

#[test]
fn nest_prefixes_and_rejects_conflicts() {
    let mut sub = RouteTable::new();
    sub.register(Method::Get, "/main", Handler::Greeting).unwrap();
    let mut t = RouteTable::new();
    assert_eq!(t.nest("home", &sub), Err(RouteError::Malformed));
    assert_eq!(t.nest("/home", &sub), Ok(()));
    assert_eq!(t.nest("/home", &sub), Err(RouteError::Duplicate));
    assert_eq!(t.len(), 1);
    assert!(t.resolve(Method::Get, "/main").is_none());
    assert_eq!(t.resolve(Method::Get, "/home/main").unwrap().handler, Handler::Greeting);
}

#[test]
fn literal_routes_resolve_to_their_handlers() {
    let t = app_routes();
    let m = t.resolve(Method::Get, "/home/main").unwrap();
    assert_eq!(m.handler, Handler::Greeting);
    assert!(m.params.is_empty());
    let m = t.resolve(Method::Post, "/users/create_users").unwrap();
    assert_eq!(m.handler, Handler::CreateUser);
    assert!(m.params.is_empty());
}

#[test]
fn view_route_binds_name() {
    let t = app_routes();
    for name in ["bob", "Alice", "x", "a b", "%3Cscript%3E"] {
        let m = t.resolve(Method::Get, &format!("/users/view_users/{}", name)).unwrap();
        assert_eq!(m.handler, Handler::ViewUser);
        assert_eq!(m.params, vec![("name".to_string(), name.to_string())]);
    }
    assert!(t.resolve(Method::Get, "/users/view_users/").is_none());
    assert!(t.resolve(Method::Post, "/users/view_users/bob").is_none());
}

#[test]
fn unknown_paths_match_nothing() {
    let t = app_routes();
    for m in [Method::Get, Method::Head, Method::Post, Method::Put, Method::Patch, Method::Delete, Method::Options, Method::Other] {
        assert!(t.resolve(m, "/unknown").is_none());
        assert!(t.resolve(m, "/").is_none());
        assert!(t.resolve(m, "/users").is_none());
        assert!(t.resolve(m, "unknown").is_none());
    }
    assert!(t.resolve(Method::Get, "/users/create_users").is_none());
}

#[test]
fn groups_stay_independent_after_nesting() {
    let users = user_routes();
    let home = home_routes();
    assert_eq!(users.len(), 2);
    assert_eq!(home.len(), 1);
    let t = app_routes();
    assert_eq!(t.len(), 3);
    assert_eq!(users.resolve(Method::Post, "/create_users").unwrap().handler, Handler::CreateUser);
    assert_eq!(t.resolve(Method::Post, "/users/create_users").unwrap().index, 1);
    assert_eq!(home.resolve(Method::Get, "/main").unwrap().handler, Handler::Greeting);
    assert_eq!(t.resolve(Method::Get, "/home/main").unwrap().index, 2);
    assert!(t.resolve(Method::Get, "/home/view_users/bob").is_none());
    assert!(t.resolve(Method::Get, "/users/main").is_none());
}
