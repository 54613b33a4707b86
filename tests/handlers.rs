use route_table::engine::{render, Person, RenderError, TemplateError, TemplateSet};
use route_table::template::is_plain;
use route_table::route::Method;
use route_table::routes::app_routes;
use route_table::service::{
    create_or_reject, create_user, dispatch, greeting, only_value, perform, plan, view_reply_of,
    view_action, view_request, view_user, Action, AppState, Body, CreateUser, Rejection, Reply, GREETING,
    USER_ID, VIEW_TEMPLATE,
};

fn hello_set() -> TemplateSet {
    let sources = vec![("hello.html".to_string(), "<p>Hello, {{ name }}!</p>".to_string())];
    TemplateSet::from_sources(sources).ok().unwrap()
}

fn state() -> AppState {
    AppState::new(hello_set())
}

fn html(r: &Reply) -> String {
    match &r.body {
        Body::Html(h) => h.clone(),
        _ => panic!("not an html body"),
    }
}

#[test]
fn greeting_reply_is_fixed() {
    let r = greeting();
    assert_eq!(r.status, 200);
    assert!(matches!(&r.body, Body::Text(t) if t == "Hello, World!"));
    assert_eq!(GREETING, "Hello, World!");
}

#[test]
fn create_user_echoes_username() {
    for s in ["", "bob", "名前", "a \"quoted\" name"] {
        let r = create_user(CreateUser { username: s.to_string() });
        assert_eq!(r.status, 201);
        assert!(matches!(&r.body, Body::Json(u) if u.id == 1337 && u.username == s));
    }
    assert_eq!(USER_ID, 1337);
}

#[test]
fn undecoded_body_is_a_client_error() {
    for (e, status) in [(Rejection::NotJson, 415), (Rejection::Syntax, 400), (Rejection::Data, 422)] {
        let r = create_or_reject(Err(e));
        assert_eq!(r.status, status);
        assert!(matches!(r.body, Body::Empty));
    }
    let r = create_or_reject(Ok(CreateUser { username: "eve".to_string() }));
    assert_eq!(r.status, 201);
}

#[test]
fn view_request_names_template_and_person() {
    let (key, person) = view_request("frank".to_string());
    assert_eq!(key, "hello.html");
    assert_eq!(key, VIEW_TEMPLATE);
    assert_eq!(person.name, "frank");
}

#[test]
fn view_action_maps_the_decoded_name() {
    assert!(matches!(view_action(Some("jo".to_string())), Action::View(n) if n == "jo"));
    assert!(matches!(view_action(None), Action::Respond(r) if r.status == 400));
}

#[test]
fn only_value_takes_the_single_binding() {
    assert_eq!(only_value(vec![("name".to_string(), "gus".to_string())]), Some("gus".to_string()));
    assert_eq!(only_value(vec![]), None);
    let two = vec![("a".to_string(), "1".to_string()), ("b".to_string(), "2".to_string())];
    assert_eq!(only_value(two), None);
}

#[test]
fn plan_passes_the_bound_name_on() {
    let t = app_routes();
    let a = plan(&t, Method::Get, "/users/view_users/hana", Err(Rejection::NotJson));
    assert!(matches!(&a, Action::View(n) if n == "hana"));
    let a = plan(&t, Method::Get, "/nowhere", Err(Rejection::NotJson));
    assert!(matches!(&a, Action::Respond(r) if r.status == 404));
    let a = plan(&t, Method::Get, "/users/view_users/%3Cb%3E%20x", Err(Rejection::NotJson));
    assert!(matches!(&a, Action::View(n) if n == "<b> x"));
    let a = plan(&t, Method::Get, "/users/view_users/%FF", Err(Rejection::NotJson));
    assert!(matches!(&a, Action::Respond(r) if r.status == 400));
    let r = perform(&state(), Action::View("ivy".to_string()));
    assert_eq!(html(&r), "<p>Hello, ivy!</p>");
}

#[test]
fn view_reply_maps_render_outcome() {
    let r = view_reply_of(Ok("<p>x</p>".to_string()));
    assert_eq!(r.status, 200);
    assert_eq!(html(&r), "<p>x</p>");
    let r = view_reply_of(Err(RenderError::Failed));
    assert_eq!(r.status, 500);
    assert!(matches!(r.body, Body::Empty));
}

#[test]
fn render_binds_the_name() {
    let st = state();
    let out = render(&st.templates, "hello.html", &Person { name: "bob".to_string() }).unwrap();
    assert_eq!(out, "<p>Hello, bob!</p>");
    let out = render(&st.templates, "hello.html", &Person { name: "<b>".to_string() }).unwrap();
    assert_eq!(out, "<p>Hello, &lt;b&gt;!</p>");
    assert_eq!(render(&st.templates, "missing.html", &Person { name: "bob".to_string() }), Err(RenderError::Failed));
}

#[test]
fn view_user_renders_the_page() {
    let st = state();
    let r = view_user(&st, "carol".to_string());
    assert_eq!(r.status, 200);
    assert_eq!(html(&r), "<p>Hello, carol!</p>");
}

#[test]
fn dispatch_view_round_trip() {
    let st = state();
    let t = app_routes();
    for name in ["bob", "Alice", "x_y"] {
        let r = dispatch(&t, &st, Method::Get, &format!("/users/view_users/{}", name), Err(Rejection::NotJson));
        assert_eq!(r.status, 200);
        assert!(html(&r).contains(name));
    }
    let r = dispatch(&t, &st, Method::Get, "/users/view_users/j%C3%BCrgen", Err(Rejection::NotJson));
    assert_eq!(html(&r), "<p>Hello, jürgen!</p>");
}

#[test]
fn dispatch_create_is_repeatable() {
    let st = state();
    let t = app_routes();
    for _ in 0..3 {
        let payload = Ok(CreateUser { username: "dave".to_string() });
        let r = dispatch(&t, &st, Method::Post, "/users/create_users", payload);
        assert_eq!(r.status, 201);
        assert!(matches!(&r.body, Body::Json(u) if u.id == 1337 && u.username == "dave"));
    }
}

#[test]
fn dispatch_create_without_username_is_rejected() {
    let st = state();
    let t = app_routes();
    let r = dispatch(&t, &st, Method::Post, "/users/create_users", Err(Rejection::Data));
    assert_eq!(r.status, 422);
    assert!(matches!(r.body, Body::Empty));
}

#[test]
fn dispatch_greeting_and_not_found() {
    let st = state();
    let t = app_routes();
    let r = dispatch(&t, &st, Method::Get, "/home/main", Err(Rejection::NotJson));
    assert_eq!(r.status, 200);
    assert!(matches!(&r.body, Body::Text(s) if s == "Hello, World!"));
    for m in [Method::Get, Method::Post, Method::Put, Method::Delete, Method::Other] {
        let r = dispatch(&t, &st, m, "/unknown", Err(Rejection::NotJson));
        assert_eq!(r.status, 404);
        assert!(matches!(r.body, Body::Empty));
    }
}

#[test]
fn view_with_failing_template_is_a_server_error() {
    let st = AppState::new(TemplateSet::from_sources(vec![]).ok().unwrap());
    let r = dispatch(&app_routes(), &st, Method::Get, "/users/view_users/bob", Err(Rejection::NotJson));
    assert_eq!(r.status, 500);
}

#[test]
fn cloned_handles_render_their_own_names() {
    let st = state();
    let handles: Vec<AppState> = (0..4).map(|_| st.clone_handle()).collect();
    let names = ["ann", "ben", "cat", "dan"];
    for (h, n) in handles.iter().zip(names.iter()) {
        let r = view_user(h, n.to_string());
        let page = html(&r);
        assert!(page.contains(n));
        for other in names.iter().filter(|o| *o != n) {
            assert!(!page.contains(other));
        }
    }
}

#[test]
fn plain_templates_only() {
    assert!(is_plain("<p>Hello, {{ name }}!</p>"));
    assert!(is_plain("{{name}} and {{ person.name }} { single brace }"));
    assert!(is_plain(""));
    assert!(!is_plain("{% macro m() %}{{ self::m() }}{% endmacro m %}"));
    assert!(!is_plain("{# comment #}"));
    assert!(!is_plain("{{ name | upper }}"));
    assert!(!is_plain("{{ range(end=5) }}"));
    assert!(!is_plain("{{ name "));
    assert!(!is_plain("{{- name }}"));
}

#[test]
fn template_set_refuses_tags_and_bad_syntax() {
    let sources = vec![
        ("a.html".to_string(), "ok {{ x }}".to_string()),
        ("b.html".to_string(), "{% include \"a.html\" %}".to_string()),
    ];
    assert_eq!(TemplateSet::from_sources(sources).err(), Some(TemplateError::NotPlain(1)));
    let sources = vec![("c.html".to_string(), "{{ }}".to_string())];
    assert_eq!(TemplateSet::from_sources(sources).err(), Some(TemplateError::Compile));
}
