//! The shared state, the request handlers and dispatch.
use vstd::prelude::*;
use crate::engine::{render, Person, RenderError, TemplateSet};
use crate::path::{opt_view, path_ok, path_segments, percent_decode, percent_decoded};
use crate::route::{bindings, Handler, Method};
use crate::table::{any_candidate, is_best, RouteMatch, RouteTable};

verus! {

/// The identifier that every created user is given.
pub const USER_ID: u64 = 1337;

/// The text of the greeting reply.
pub const GREETING: &'static str = "Hello, World!";

/// The template that the view handler renders.
pub const VIEW_TEMPLATE: &'static str = "hello.html";

/// The state shared by every request: the template engine, built once at
/// startup and read only after that.
pub struct AppState {
    pub templates: TemplateSet,
}

impl AppState {
    pub fn new(templates: TemplateSet) -> (r: AppState)
        ensures
            r.templates == templates,
    {
        AppState { templates }
    }

    /// A handle on the same engine, for another request.
    pub fn clone_handle(&self) -> (r: AppState)
        ensures
            r.templates.engine() == self.templates.engine(),
            r.templates.sources() == self.templates.sources(),
    {
        AppState { templates: self.templates.clone_handle() }
    }
}

/// The body of a request to create a user.
pub struct CreateUser {
    pub username: String,
}

/// Why a create request's body was refused before the handler ran.
#[derive(Clone, Copy, Debug, PartialEq, Eq, Structural)]
pub enum Rejection {
    /// The request does not say that its body is JSON.
    NotJson,
    /// The body is not well-formed JSON.
    Syntax,
    /// The body is JSON but lacks a string `username`.
    Data,
}

/// The status code of a refused body.
pub open spec fn rejection_status(e: Rejection) -> u16 {
    match e {
        Rejection::NotJson => 415,
        Rejection::Syntax => 400,
        Rejection::Data => 422,
    }
}

/// A created user.
pub struct User {
    pub id: u64,
    pub username: String,
}

/// The body of a reply.
pub enum Body {
    Empty,
    Text(String),
    Html(String),
    Json(User),
}

/// A reply: a status code and a body.
pub struct Reply {
    pub status: u16,
    pub body: Body,
}

/// The mathematical value of a body; a JSON body is the user's id and name.
pub enum BodyView {
    Empty,
    Text(Seq<char>),
    Html(Seq<char>),
    Json(u64, Seq<char>),
}

/// The mathematical value of a reply.
pub struct ReplyView {
    pub status: u16,
    pub body: BodyView,
}

impl View for Reply {
    type V = ReplyView;

    open spec fn view(&self) -> ReplyView {
        ReplyView {
            status: self.status,
            body: match &self.body {
                Body::Empty => BodyView::Empty,
                Body::Text(t) => BodyView::Text(t@),
                Body::Html(h) => BodyView::Html(h@),
                Body::Json(u) => BodyView::Json(u.id, u.username@),
            },
        }
    }
}

/// The reply when no route matches.
pub open spec fn not_found() -> ReplyView {
    ReplyView { status: 404, body: BodyView::Empty }
}

/// The reply of the greeting handler.
pub open spec fn greeting_reply() -> ReplyView {
    ReplyView { status: 200, body: BodyView::Text(GREETING@) }
}

/// The reply to a create request whose body decoded to `username`, or was
/// refused.
pub open spec fn create_reply(username: Result<Seq<char>, Rejection>) -> ReplyView {
    match username {
        Ok(u) => ReplyView { status: 201, body: BodyView::Json(USER_ID, u) },
        Err(e) => ReplyView { status: rejection_status(e), body: BodyView::Empty },
    }
}

/// The reply to a view request whose render gave `rendered`.
pub open spec fn view_reply(rendered: Result<Seq<char>, RenderError>) -> ReplyView {
    match rendered {
        Ok(h) => ReplyView { status: 200, body: BodyView::Html(h) },
        Err(_) => ReplyView { status: 500, body: BodyView::Empty },
    }
}

/// What the view handler may reply, whatever the engine renders.
pub open spec fn view_outcome(r: ReplyView) -> bool {
    r == view_reply(Err(RenderError::Failed)) || exists|h: Seq<char>| r == view_reply(Ok(h))
}

/// The username that a decoded create request carries.
pub open spec fn payload_view(p: Result<CreateUser, Rejection>) -> Result<Seq<char>, Rejection> {
    match p {
        Ok(c) => Ok(c.username@),
        Err(e) => Err(e),
    }
}

/// Replies with the fixed greeting.
pub fn greeting() -> (r: Reply)
    ensures
        r@ == greeting_reply(),
{
    Reply { status: 200, body: Body::Text(GREETING.to_owned()) }
}

/// Creates the user that `payload` asks for.
pub fn create_user(payload: CreateUser) -> (r: Reply)
    ensures
        r@ == create_reply(Ok(payload.username@)),
{
    let user = User { id: USER_ID, username: payload.username };
    Reply { status: 201, body: Body::Json(user) }
}

/// Replies to a create request whose body decoded to `payload`, or was
/// refused.
pub fn create_or_reject(payload: Result<CreateUser, Rejection>) -> (r: Reply)
    ensures
        r@ == create_reply(payload_view(payload)),
{
    match payload {
        Ok(p) => create_user(p),
        Err(e) => {
            let status: u16 = match e {
                Rejection::NotJson => 415,
                Rejection::Syntax => 400,
                Rejection::Data => 422,
            };
            Reply { status, body: Body::Empty }
        },
    }
}

/// Turns the outcome of a render into a reply.
pub fn view_reply_of(rendered: Result<String, RenderError>) -> (r: Reply)
    ensures
        r@ == view_reply(
            match rendered {
                Ok(h) => Ok(h@),
                Err(e) => Err(e),
            },
        ),
{
    match rendered {
        Ok(h) => Reply { status: 200, body: Body::Html(h) },
        Err(_) => Reply { status: 500, body: Body::Empty },
    }
}

/// What the view handler hands to the engine: the template to render and
/// the person whose name it shows.
pub fn view_request(name: String) -> (r: (&'static str, Person))
    ensures
        r.0@ == VIEW_TEMPLATE@,
        r.1.name@ == name@,
{
    (VIEW_TEMPLATE, Person { name })
}

/// Renders the page of `view_request(name)` and replies with it, as
/// `view_reply_of` says.
pub fn view_user(state: &AppState, name: String) -> (r: Reply)
    ensures
        view_outcome(r@),
{
    let (key, person) = view_request(name);
    let rendered = render(&state.templates, key, &person);
    let ghost seen: Result<Seq<char>, RenderError> = match &rendered {
        Ok(h) => Ok(h@),
        Err(e) => Err(*e),
    };
    let r = view_reply_of(rendered);
    proof {
        if let Ok(h) = seen {
            assert(r@ == view_reply(Ok(h)));
        }
    }
    r
}

/// What a request comes to once routed: a reply, or the name to render the
/// view page for. The view route's parameter is percent-decoded first.
pub enum Action {
    Respond(Reply),
    View(String),
}

/// The mathematical value of an action.
pub enum ActionView {
    Respond(ReplyView),
    View(Seq<char>),
}

impl View for Action {
    type V = ActionView;

    open spec fn view(&self) -> ActionView {
        match self {
            Action::Respond(r) => ActionView::Respond(r@),
            Action::View(n) => ActionView::View(n@),
        }
    }
}

/// The action for a request routed to `handler`, with the parameters
/// `binds` and the create payload `payload`. The view handler takes exactly
/// one parameter; with any other number it fails as a render does.
pub open spec fn action_for(
    handler: Handler,
    binds: Seq<(Seq<char>, Seq<char>)>,
    payload: Result<Seq<char>, Rejection>,
) -> ActionView {
    match handler {
        Handler::Greeting => ActionView::Respond(greeting_reply()),
        Handler::CreateUser => ActionView::Respond(create_reply(payload)),
        Handler::ViewUser => if binds.len() == 1 {
            view_action_for(percent_decoded(binds[0].1))
        } else {
            ActionView::Respond(view_reply(Err(RenderError::Failed)))
        },
    }
}

/// The reply to a path parameter that does not decode to UTF-8.
pub open spec fn bad_request() -> ReplyView {
    ReplyView { status: 400, body: BodyView::Empty }
}

/// The action for a view request whose parameter decoded to `decoded`.
pub open spec fn view_action_for(decoded: Option<Seq<char>>) -> ActionView {
    match decoded {
        Some(n) => ActionView::View(n),
        None => ActionView::Respond(bad_request()),
    }
}

/// The action for a view request whose parameter decoded to `decoded`, or
/// did not decode.
pub fn view_action(decoded: Option<String>) -> (r: Action)
    ensures
        r@ == view_action_for(opt_view(decoded)),
{
    match decoded {
        Some(n) => Action::View(n),
        None => Action::Respond(Reply { status: 400, body: Body::Empty }),
    }
}

/// The value of the one bound parameter, if exactly one is bound.
pub fn only_value(params: Vec<(String, String)>) -> (r: Option<String>)
    ensures
        r is Some <==> params@.len() == 1,
        r matches Some(v) ==> v@ == params@[0].1@,
{
    if params.len() == 1 {
        let mut params = params;
        let (_, value) = params.remove(0);
        Some(value)
    } else {
        None
    }
}

/// Routes one request: resolves `method` and `path` in `table` and decides
/// what the handler of the route found does. `payload` is the request body
/// decoded as a create request, or why it was refused.
pub fn plan(table: &RouteTable, method: Method, path: &str, payload: Result<CreateUser, Rejection>) -> (r: Action)
    requires
        table.wf(),
    ensures
        !path_ok(path@) ==> r@ == ActionView::Respond(not_found()),
        path_ok(path@) && !any_candidate(table@, method, path_segments(path@)) ==> r@ == ActionView::Respond(
            not_found(),
        ),
        forall|i: int|
            path_ok(path@) && #[trigger] is_best(table@, method, path_segments(path@), i) ==> r@ == action_for(
                table@[i].handler,
                bindings(table@[i].pattern, path_segments(path@)),
                payload_view(payload),
            ),
{
    match table.resolve(method, path) {
        None => Action::Respond(Reply { status: 404, body: Body::Empty }),
        Some(m) => {
            let ghost idx = m.index as int;
            proof {
                assert forall|i: int|
                    path_ok(path@) && #[trigger] is_best(table@, method, path_segments(path@), i) implies i == idx by {
                    crate::table::lemma_best_unique(table@, method, path_segments(path@), i, idx);
                };
            }
            let RouteMatch { index: _, handler, params } = m;
            match handler {
                Handler::Greeting => Action::Respond(greeting()),
                Handler::CreateUser => Action::Respond(create_or_reject(payload)),
                Handler::ViewUser => match only_value(params) {
                    Some(raw) => view_action(percent_decode(raw.as_str())),
                    None => Action::Respond(view_reply_of(Err(RenderError::Failed))),
                },
            }
        },
    }
}

/// Carries out an action: a reply is sent as it is; a view is rendered by
/// `view_user` for exactly the name that the action holds.
pub fn perform(state: &AppState, a: Action) -> (r: Reply)
    ensures
        a@ matches ActionView::Respond(x) ==> r@ == x,
        a@ is View ==> view_outcome(r@),
{
    match a {
        Action::Respond(r) => r,
        Action::View(name) => view_user(state, name),
    }
}

/// Handles one request: `plan`, then `perform`.
pub fn dispatch(
    table: &RouteTable,
    state: &AppState,
    method: Method,
    path: &str,
    payload: Result<CreateUser, Rejection>,
) -> (r: Reply)
    requires
        table.wf(),
    ensures
        !path_ok(path@) ==> r@ == not_found(),
        path_ok(path@) && !any_candidate(table@, method, path_segments(path@)) ==> r@ == not_found(),
        forall|i: int|
            path_ok(path@) && #[trigger] is_best(table@, method, path_segments(path@), i) ==> {
                let a = action_for(
                    table@[i].handler,
                    bindings(table@[i].pattern, path_segments(path@)),
                    payload_view(payload),
                );
                &&& a matches ActionView::Respond(x) ==> r@ == x
                &&& a is View ==> view_outcome(r@)
            },
{
    let a = plan(table, method, path, payload);
    perform(state, a)
}

} // verus!
