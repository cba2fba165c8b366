//! What goes over the wire and into the registry file, and what comes back.
use crate::ipc;
use crate::ipc::{ProjectRuntime, Request, Response};
use crate::json;
use crate::json::{Json, Node};
use crate::paths;
use crate::registry;
use crate::registry::{Project, Registry, SavePlan};
use crate::text;
use crate::xdg;
use crate::xdg::Dirs;
use crate::words;
use vstd::prelude::*;
use vstd::string::*;

verus! {

/// Whether two requests ask for the same.
pub open spec fn same_request(a: Request, b: Request) -> bool {
    match (a, b) {
        (Request::Ping, Request::Ping) => true,
        (Request::Status, Request::Status) => true,
        (Request::Up { project: x }, Request::Up { project: y }) => x@ == y@,
        (Request::Down { project: x }, Request::Down { project: y }) => x@ == y@,
        _ => false,
    }
}

/// Whether two reports say the same.
pub open spec fn same_report(a: ProjectRuntime, b: ProjectRuntime) -> bool {
    &&& a.name@ == b.name@
    &&& a.pid == b.pid
    &&& a.netns_pid == b.netns_pid
    &&& a.uptime_secs == b.uptime_secs
    &&& a.routes@.len() == b.routes@.len()
    &&& forall|i: int| 0 <= i < a.routes@.len() ==> (#[trigger] a.routes@[i])@ == b.routes@[i]@
}

/// Whether two responses say the same.
pub open spec fn same_response(a: Response, b: Response) -> bool {
    match (a, b) {
        (Response::Pong, Response::Pong) => true,
        (Response::Done, Response::Done) => true,
        (Response::Error { message: x }, Response::Error { message: y }) => x@ == y@,
        (Response::Status { projects: x }, Response::Status { projects: y }) => x@.len() == y@.len()
            && forall|i: int| 0 <= i < x@.len() ==> same_report(#[trigger] x@[i], y@[i]),
        _ => false,
    }
}

pub(crate) proof fn lemma_same_report(a: ProjectRuntime, b: ProjectRuntime)
    requires
        a@ == b@,
    ensures
        same_report(a, b),
{
    let x = text::views(a.routes@);
    let y = text::views(b.routes@);
    assert(x.len() == a.routes@.len() && y.len() == b.routes@.len());
    assert forall|i: int| 0 <= i < a.routes@.len() implies (#[trigger] a.routes@[i])@
        == b.routes@[i]@ by {
        assert(x[i] == a.routes@[i]@);
        assert(y[i] == b.routes@[i]@);
    }
}

pub(crate) proof fn lemma_same_response(a: Response, b: Response)
    requires
        a@ == b@,
    ensures
        same_response(a, b),
{
    if let (Response::Status { projects: x }, Response::Status { projects: y }) = (a, b) {
        let u = ipc::runtimes(x@);
        let v = ipc::runtimes(y@);
        assert(u.len() == x@.len() && v.len() == y@.len());
        assert forall|i: int| 0 <= i < x@.len() implies same_report(#[trigger] x@[i], y@[i]) by {
            assert(u[i] == x@[i]@);
            assert(v[i] == y@[i]@);
            lemma_same_report(x@[i], y@[i]);
        }
    }
}

/// A request that is sent is the request that arrives.
pub proof fn request_arrives(
    req: &Request,
    sent: Result<String, String>,
    line: &str,
    r: Result<Request, String>,
)
    requires
        call_ensures(ipc::encode_request, (req,), sent),
        sent matches Ok(l) ==> line@ == l@,
        call_ensures(ipc::decode_request, (line,), r),
    ensures
        sent is Ok,
        r matches Ok(q) && same_request(*req, q),
{
}

/// A response that is sent is the response that arrives.
pub proof fn response_arrives(
    res: &Response,
    sent: Result<String, String>,
    line: &str,
    r: Result<Response, String>,
)
    requires
        call_ensures(ipc::encode_response, (res,), sent),
        sent matches Ok(l) ==> line@ == l@,
        call_ensures(ipc::decode_response, (line,), r),
    ensures
        sent is Ok,
        r matches Ok(q) && same_response(*res, q),
{
    if let Ok(q) = r {
        lemma_same_response(*res, q);
    }
}

/// A message is one line: its text, in which no line breaks, and a line feed.
pub proof fn message_is_one_line(
    req: &Request,
    a: Result<String, String>,
    v: serde_json::Value,
    res: &Response,
    b: Result<String, String>,
    w: serde_json::Value,
)
    requires
        call_ensures(ipc::encode_request, (req,), a),
        call_ensures(ipc::request_value, (req,), v),
        call_ensures(ipc::encode_response, (res,), b),
        call_ensures(ipc::response_value, (res,), w),
    ensures
        a matches Ok(l) && l@ == json::json_text(json::json_tree(v)) + seq!['\n']
            && !json::json_text(json::json_tree(v)).contains('\n') && !l@.contains('\r'),
        b matches Ok(l) && l@ == json::json_text(json::json_tree(w)) + seq!['\n']
            && !json::json_text(json::json_tree(w)).contains('\n') && !l@.contains('\r'),
{
    if let Ok(l) = a {
        let t = json::json_text(json::json_tree(v));
        assert(t.push('\n') == t + seq!['\n']);
        assert(l@.drop_last() == t);
    }
    if let Ok(l) = b {
        let t = json::json_text(json::json_tree(w));
        assert(t.push('\n') == t + seq!['\n']);
        assert(l@.drop_last() == t);
    }
}

/// An object with one field.
pub open spec fn only(name: Seq<char>, value: Json) -> Json {
    Json::Object(seq![(name, value)])
}

/// How a request is written: a lone word, or the kind with the project below.
pub proof fn request_on_the_wire(req: &Request, v: serde_json::Value)
    requires
        call_ensures(ipc::request_value, (req,), v),
    ensures
        json::json_tree(v) == match *req {
            Request::Ping => Json::Text("Ping"@),
            Request::Status => Json::Text("Status"@),
            Request::Up { project } => only("Up"@, only("project"@, Json::Text(project@))),
            Request::Down { project } => only("Down"@, only("project"@, Json::Text(project@))),
        },
{
}

/// How a report is written.
pub open spec fn report_tree(p: ProjectRuntime) -> Json {
    Json::Object(
        seq![
            ("name"@, Json::Text(p.name@)),
            ("pid"@, Json::Number(p.pid as u64)),
            ("netns_pid"@, Json::Number(p.netns_pid as u64)),
            ("uptime_secs"@, Json::Number(p.uptime_secs)),
            (
                "routes"@,
                Json::List(Seq::new(p.routes@.len(), |i: int| Json::Text(p.routes@[i]@))),
            ),
        ],
    )
}

/// How a response is written: a lone word, or the kind with its content below,
/// the reports in order.
pub proof fn response_on_the_wire(res: &Response, v: serde_json::Value)
    requires
        call_ensures(ipc::response_value, (res,), v),
    ensures
        json::json_tree(v) == match *res {
            Response::Pong => Json::Text("Pong"@),
            Response::Done => Json::Text("Ok"@),
            Response::Error { message } => only("Error"@, only("message"@, Json::Text(message@))),
            Response::Status { projects } => only(
                "Status"@,
                only(
                    "projects"@,
                    Json::List(Seq::new(projects@.len(), |i: int| report_tree(projects@[i]))),
                ),
            ),
        },
{
    if let Response::Status { projects } = res {
        let a = ipc::runtimes(projects@).map_values(|p: ipc::Runtime| ipc::runtime_json(p));
        let b = Seq::new(projects@.len(), |i: int| report_tree(projects@[i]));
        assert(a.len() == b.len());
        assert forall|i: int| 0 <= i < a.len() implies a[i] == b[i] by {
            let p = projects@[i];
            let x = text::views(p.routes@).map_values(|s: Seq<char>| Json::Text(s));
            let y = Seq::new(p.routes@.len(), |i: int| Json::Text(p.routes@[i]@));
            assert(x =~= y);
            assert(ipc::runtimes(projects@)[i] == p@);
            assert(a[i]->Object_0 =~= b[i]->Object_0);
        }
        assert(a =~= b);
    }
}

/// A line break at the end of a message makes no difference.
pub proof fn line_breaks_at_the_end(
    line: &str,
    longer: &str,
    c: char,
    a: Result<Request, String>,
    b: Result<Request, String>,
)
    requires
        c == '\n' || c == '\r',
        longer@ == line@ + seq![c],
        call_ensures(ipc::decode_request, (line,), a),
        call_ensures(ipc::decode_request, (longer,), b),
    ensures
        a is Ok <==> b is Ok,
        (a, b) matches (Ok(x), Ok(y)) ==> same_request(x, y),
        (a, b) matches (Err(x), Err(y)) ==> x@ == y@,
{
    assert(longer@.drop_last() == line@);
    assert(ipc::unterminated(longer@) == ipc::unterminated(line@));
}

/// A message that is empty, or is more than one line, is none.
pub proof fn messages_that_are_none(
    line: &str,
    a: Seq<char>,
    b: Seq<char>,
    r: Result<Request, String>,
    s: Result<Response, String>,
)
    requires
        line@.len() == 0 || (line@ == a + seq!['\n'] + b && b.len() > 0 && b.last() != '\n'
            && b.last() != '\r'),
        call_ensures(ipc::decode_request, (line,), r),
        call_ensures(ipc::decode_response, (line,), s),
    ensures
        r matches Err(m) && m@ == if line@.len() == 0 {
            "empty IPC message"@
        } else {
            "IPC message must be a single line"@
        },
        s matches Err(m) && m@ == if line@.len() == 0 {
            "empty IPC message"@
        } else {
            "IPC message must be a single line"@
        },
{
    if line@.len() > 0 {
        assert(line@.last() == b.last());
        assert(ipc::unterminated(line@) == line@);
        assert(line@[a.len() as int] == '\n');
        assert(line@.contains('\n'));
    }
}

/// Whether a field of that name, and no second one, holds a value.
pub open spec fn holds_once(f: Seq<(String, Node)>, name: Seq<char>, v: Node) -> bool {
    exists|i: int| #[trigger] holds_once_at(f, name, v, i)
}

/// Whether the field at a position is the only one of that name.
pub open spec fn holds_once_at(f: Seq<(String, Node)>, name: Seq<char>, v: Node, i: int) -> bool {
    &&& 0 <= i < f.len()
    &&& f[i].0@ == name
    &&& f[i].1 == v
    &&& forall|j: int| 0 <= j < f.len() && j != i ==> (#[trigger] f[j]).0@ != name
}

/// Whether no field has that name.
pub open spec fn lacks(f: Seq<(String, Node)>, name: Seq<char>) -> bool {
    forall|j: int| 0 <= j < f.len() ==> (#[trigger] f[j]).0@ != name
}

proof fn lemma_holds_once(f: Seq<(String, Node)>, name: Seq<char>, v: Node)
    requires
        holds_once(f, name, v),
    ensures
        json::field(json::named_nodes(f), name) == Some(v@),
        !json::given_twice(json::named_nodes(f), name),
{
    let i = choose|i: int| #[trigger] holds_once_at(f, name, v, i);
    let all = json::named_nodes(f);
    assert(all.len() == f.len());
    assert forall|j: int| 0 <= j < all.len() && j != i implies (#[trigger] all[j]).0 != name by {
        assert(all[j].0 == f[j].0@);
    }
    assert(all[i] == (f[i].0@, f[i].1@));
    lemma_only_field(all, name, i);
}

proof fn lemma_only_field(all: Seq<(Seq<char>, Json)>, name: Seq<char>, i: int)
    requires
        0 <= i < all.len(),
        all[i].0 == name,
        forall|j: int| 0 <= j < all.len() && j != i ==> (#[trigger] all[j]).0 != name,
    ensures
        json::field(all, name) == Some(all[i].1),
    decreases all.len(),
{
    if i < all.len() - 1 {
        let front = all.drop_last();
        assert(all[all.len() - 1].0 != name);
        assert forall|j: int| 0 <= j < front.len() && j != i implies (#[trigger] front[j]).0
            != name by {
            assert(front[j] == all[j]);
        }
        lemma_only_field(front, name, i);
    }
}

proof fn lemma_lacks(f: Seq<(String, Node)>, name: Seq<char>)
    requires
        lacks(f, name),
    ensures
        json::field(json::named_nodes(f), name) is None,
        !json::given_twice(json::named_nodes(f), name),
{
    let all = json::named_nodes(f);
    assert(all.len() == f.len());
    assert forall|j: int| 0 <= j < all.len() implies (#[trigger] all[j]).0 != name by {
        assert(all[j].0 == f[j].0@);
    }
    lemma_no_field(all, name);
}

proof fn lemma_no_field(all: Seq<(Seq<char>, Json)>, name: Seq<char>)
    requires
        forall|j: int| 0 <= j < all.len() ==> (#[trigger] all[j]).0 != name,
    ensures
        json::field(all, name) is None,
    decreases all.len(),
{
    if all.len() > 0 {
        let front = all.drop_last();
        assert(all[all.len() - 1].0 != name);
        assert forall|j: int| 0 <= j < front.len() implies (#[trigger] front[j]).0 != name by {
            assert(front[j] == all[j]);
        }
        lemma_no_field(front, name);
    }
}

/// A request is read by its kind: a lone word for a ping or the status, the
/// kind with a field for the project otherwise.
pub proof fn request_is_read(
    v: Node,
    r: Option<Request>,
    f: Vec<(String, Node)>,
    g: Vec<(String, Node)>,
    name: String,
)
    requires
        call_ensures(ipc::request_from_node, (v,), r),
    ensures
        v matches Node::Text(t) ==> (t@ == "Ping"@ ==> r == Some(Request::Ping)),
        v matches Node::Text(t) ==> (t@ == "Status"@ ==> r == Some(Request::Status)),
        v matches Node::Text(t) ==> (t@ != "Ping"@ && t@ != "Status"@ ==> r is None),
        v == Node::Object(f) && f@.len() == 1 && f@[0].1 == Node::Object(g) && holds_once(
            g@,
            "project"@,
            Node::Text(name),
        ) ==> (f@[0].0@ == "Up"@ ==> (r matches Some(Request::Up { project }) && project@
            == name@)),
        v == Node::Object(f) && f@.len() == 1 && f@[0].1 == Node::Object(g) && holds_once(
            g@,
            "project"@,
            Node::Text(name),
        ) ==> (f@[0].0@ == "Down"@ ==> (r matches Some(Request::Down { project }) && project@
            == name@)),
        v matches Node::Object(h) ==> (h@.len() != 1 ==> r is None),
        v matches Node::List(_) ==> r is None,
        v matches Node::Number(_) ==> r is None,
        v == Node::Null ==> r is None,
{
    ipc::lemma_tags();
    json::lemma_inside(v);
    if v == Node::Object(f) && f@.len() == 1 && f@[0].1 == Node::Object(g) && holds_once(
        g@,
        "project"@,
        Node::Text(name),
    ) {
        json::lemma_inside(f@[0].1);
        lemma_holds_once(g@, "project"@, Node::Text(name));
        let all = json::named_nodes(f@);
        assert(all.len() == 1);
        assert(all[0] == (f@[0].0@, f@[0].1@));
    }
}

/// Whether a value is a list of texts.
pub open spec fn lists_texts(l: Seq<Node>, routes: Seq<String>) -> bool {
    &&& l.len() == routes.len()
    &&& forall|i: int| 0 <= i < l.len() ==> (#[trigger] l[i] matches Node::Text(t) && t@ == routes[i]@)
}

/// Whether the fields of an object make up a report. The process in the
/// namespace and the routes may be left out: they are then 0 and none.
pub open spec fn makes_report(f: Seq<(String, Node)>, p: ProjectRuntime) -> bool {
    &&& exists|t: String| #[trigger] holds_once(f, "name"@, Node::Text(t)) && t@ == p.name@
    &&& holds_once(f, "pid"@, Node::Number(p.pid as u64))
    &&& holds_once(f, "uptime_secs"@, Node::Number(p.uptime_secs))
    &&& holds_once(f, "netns_pid"@, Node::Number(p.netns_pid as u64)) || (lacks(f, "netns_pid"@)
        && p.netns_pid == 0)
    &&& (exists|l: Vec<Node>| #[trigger]
        holds_once(f, "routes"@, Node::List(l)) && lists_texts(l@, p.routes@)) || (lacks(
        f,
        "routes"@,
    ) && p.routes@.len() == 0)
}

proof fn lemma_makes_report(v: Node, f: Vec<(String, Node)>, p: ProjectRuntime)
    requires
        v == Node::Object(f),
        makes_report(f@, p),
    ensures
        ipc::runtime_in(v@) == Some(p@),
{
    json::lemma_inside(v);
    let t = choose|t: String| #[trigger] holds_once(f@, "name"@, Node::Text(t)) && t@ == p.name@;
    lemma_holds_once(f@, "name"@, Node::Text(t));
    lemma_holds_once(f@, "pid"@, Node::Number(p.pid as u64));
    lemma_holds_once(f@, "uptime_secs"@, Node::Number(p.uptime_secs));
    if holds_once(f@, "netns_pid"@, Node::Number(p.netns_pid as u64)) {
        lemma_holds_once(f@, "netns_pid"@, Node::Number(p.netns_pid as u64));
    } else {
        lemma_lacks(f@, "netns_pid"@);
    }
    let routes = text::views(p.routes@);
    if exists|l: Vec<Node>| #[trigger]
        holds_once(f@, "routes"@, Node::List(l)) && lists_texts(l@, p.routes@) {
        let l = choose|l: Vec<Node>| #[trigger]
            holds_once(f@, "routes"@, Node::List(l)) && lists_texts(l@, p.routes@);
        lemma_holds_once(f@, "routes"@, Node::List(l));
        json::lemma_inside(Node::List(l));
        let all = json::nodes(l@);
        assert(all.len() == l@.len());
        assert forall|i: int| 0 <= i < all.len() implies #[trigger] all[i] == Json::Text(
            routes[i],
        ) by {
            assert(all[i] == l@[i]@);
            assert(routes[i] == p.routes@[i]@);
        }
        assert(all.map_values(|j: Json| j->Text_0) =~= routes);
    } else {
        lemma_lacks(f@, "routes"@);
        assert(routes =~= Seq::<Seq<char>>::empty());
    }
}

/// A response is read by its kind: a lone word for a pong or for success, the
/// kind with a message for an error, and the kind with the reports for the
/// status, where each report is read from its fields.
pub proof fn response_is_read(
    v: Node,
    r: Option<Response>,
    f: Vec<(String, Node)>,
    g: Vec<(String, Node)>,
    t: String,
    l: Vec<Node>,
    fields: Seq<Vec<(String, Node)>>,
    want: Seq<ProjectRuntime>,
)
    requires
        call_ensures(ipc::response_from_node, (v,), r),
        fields.len() == l@.len(),
        want.len() == l@.len(),
        forall|i: int|
            0 <= i < l@.len() ==> #[trigger] l@[i] == Node::Object(fields[i]) && makes_report(
                fields[i]@,
                want[i],
            ),
    ensures
        v matches Node::Text(w) ==> (w@ == "Pong"@ ==> r == Some(Response::Pong)),
        v matches Node::Text(w) ==> (w@ == "Ok"@ ==> r == Some(Response::Done)),
        v matches Node::Text(w) ==> (w@ != "Pong"@ && w@ != "Ok"@ ==> r is None),
        v == Node::Object(f) && f@.len() == 1 && f@[0].1 == Node::Object(g) && f@[0].0@ == "Error"@
            && holds_once(g@, "message"@, Node::Text(t)) ==> (r matches Some(Response::Error {
            message,
        }) && message@ == t@),
        v == Node::Object(f) && f@.len() == 1 && f@[0].1 == Node::Object(g) && f@[0].0@ == "Status"@
            && holds_once(g@, "projects"@, Node::List(l)) ==> (r matches Some(Response::Status {
            projects,
        }) && projects@.len() == want.len() && forall|i: int|
            0 <= i < want.len() ==> same_report(#[trigger] projects@[i], want[i])),
{
    ipc::lemma_tags();
    json::lemma_inside(v);
    if v == Node::Object(f) && f@.len() == 1 && f@[0].1 == Node::Object(g) {
        json::lemma_inside(f@[0].1);
        let all = json::named_nodes(f@);
        assert(all.len() == 1);
        assert(all[0] == (f@[0].0@, f@[0].1@));
        if f@[0].0@ == "Error"@ && holds_once(g@, "message"@, Node::Text(t)) {
            lemma_holds_once(g@, "message"@, Node::Text(t));
        }
        if f@[0].0@ == "Status"@ && holds_once(g@, "projects"@, Node::List(l)) {
            lemma_holds_once(g@, "projects"@, Node::List(l));
            json::lemma_inside(Node::List(l));
            let nodes = json::nodes(l@);
            assert(nodes.len() == l@.len());
            assert forall|i: int| 0 <= i < nodes.len() implies ipc::runtime_in(#[trigger] nodes[i])
                == Some(want[i]@) by {
                assert(nodes[i] == l@[i]@);
                lemma_makes_report(l@[i], fields[i], want[i]);
            }
            let read = nodes.map_values(|j: Json| ipc::runtime_in(j)->0);
            assert(ipc::runtimes_in(nodes) == Some(read));
            if let Some(Response::Status { projects }) = r {
                assert(ipc::runtimes(projects@) == read);
                assert(ipc::runtimes(projects@).len() == projects@.len());
                assert forall|i: int| 0 <= i < want.len() implies same_report(
                    #[trigger] projects@[i],
                    want[i],
                ) by {
                    assert(read[i] == want[i]@);
                    assert(ipc::runtimes(projects@)[i] == projects@[i]@);
                    lemma_same_report(projects@[i], want[i]);
                }
            }
        }
    }
}

// ---------------------------------------------------------------------------
// The registry file
// ---------------------------------------------------------------------------
/// Whether two registries hold the same projects in the same order.
pub open spec fn same_list(a: Seq<Project>, b: Seq<Project>) -> bool {
    &&& a.len() == b.len()
    &&& forall|i: int|
        0 <= i < a.len() ==> (#[trigger] a[i]).name@ == b[i].name@ && a[i].path@ == b[i].path@
}

pub(crate) proof fn lemma_same_list(a: Seq<Project>, b: Seq<Project>)
    requires
        registry::entries(a) == registry::entries(b),
    ensures
        same_list(a, b),
{
    let x = registry::entries(a);
    let y = registry::entries(b);
    assert(a.len() == x.len() && b.len() == y.len());
    assert forall|i: int| 0 <= i < a.len() implies (#[trigger] a[i]).name@ == b[i].name@
        && a[i].path@ == b[i].path@ by {
        assert(x[i] == a[i]@);
        assert(y[i] == b[i]@);
    }
}

/// What is saved is what is loaded: the registry that a file holds after it
/// was written is the one that was written.
pub proof fn saved_is_loaded(
    list: &Registry,
    path: &str,
    plan: Result<SavePlan, String>,
    at: &str,
    data: Option<&str>,
    r: Result<Registry, String>,
)
    requires
        call_ensures(Registry::save_to, (list, path), plan),
        plan matches Ok(p) ==> (data matches Some(d) && d@ == p.data@),
        plan is Ok,
        call_ensures(Registry::load_from, (at, data), r),
    ensures
        r matches Ok(x) && same_list(x.projects@, list.projects@),
{
    if let Ok(x) = r {
        lemma_same_list(x.projects@, list.projects@);
    }
}

/// The file is written next to where it belongs, under a name of its own, and
/// then takes that place. Only a path without a name cannot be written to.
pub proof fn saved_beside_its_place(
    list: &Registry,
    path: &str,
    plan: Result<SavePlan, String>,
    name: Option<String>,
    dir: Option<String>,
    tmp_name: &str,
    tmp: String,
)
    requires
        call_ensures(Registry::save_to, (list, path), plan),
        call_ensures(paths::file_name, (path,), name),
        call_ensures(paths::parent, (path,), dir),
        name matches Some(n) ==> tmp_name@ == n@ + ".tmp"@,
        call_ensures(paths::with_file_name, (path, tmp_name), tmp),
    ensures
        plan is Ok <==> name is Some,
        plan matches Ok(p) ==> p.path@ == path@ && p.tmp_path@ == tmp@,
        plan matches Ok(p) ==> (p.dir is Some <==> dir is Some),
        plan matches Ok(p) ==> ((p.dir, dir) matches (Some(a), Some(b)) ==> a@ == b@),
{
}

/// Without a file the registry is empty, and a file that holds none is
/// refused by its path.
pub proof fn loaded_without_a_file(
    path: &str,
    data: Option<&str>,
    r: Result<Registry, String>,
)
    requires
        call_ensures(Registry::load_from, (path, data), r),
    ensures
        data is None ==> (r matches Ok(x) && x.projects@.len() == 0),
        r matches Err(m) ==> data is Some && m@ == "failed to parse "@ + path@,
{
    if let Ok(x) = r {
        assert(x@.len() == x.projects@.len());
    }
}

/// How the registry is written: the projects in order, each with its name and
/// its path.
pub proof fn registry_on_disk(list: &Registry, v: serde_json::Value)
    requires
        call_ensures(registry::registry_value, (list,), v),
    ensures
        json::json_tree(v) == only(
            "projects"@,
            Json::List(
                Seq::new(
                    list.projects@.len(),
                    |i: int|
                        Json::Object(
                            seq![
                                ("name"@, Json::Text(list.projects@[i].name@)),
                                ("path"@, Json::Text(list.projects@[i].path@)),
                            ],
                        ),
                ),
            ),
        ),
{
    let a = list@.map_values(|e: registry::Entry| registry::entry_json(e));
    let b = Seq::new(
        list.projects@.len(),
        |i: int|
            Json::Object(
                seq![
                    ("name"@, Json::Text(list.projects@[i].name@)),
                    ("path"@, Json::Text(list.projects@[i].path@)),
                ],
            ),
    );
    assert(a.len() == b.len());
    assert forall|i: int| 0 <= i < a.len() implies a[i] == b[i] by {
        assert(list@[i] == list.projects@[i]@);
        assert(a[i]->Object_0 =~= b[i]->Object_0);
    }
    assert(a =~= b);
}

/// The registry of a user is in its file in the directory for settings.
pub proof fn registry_of_a_user(
    dirs: &Dirs,
    data: Option<&str>,
    r: Result<Registry, String>,
    list: &Registry,
    plan: Result<SavePlan, String>,
    file: Result<String, String>,
)
    requires
        call_ensures(Registry::load, (dirs, data), r),
        call_ensures(Registry::save, (list, dirs), plan),
        call_ensures(xdg::projects_file, (dirs,), file),
    ensures
        file is Err ==> r is Err && plan is Err,
        file is Ok && data is None ==> (r matches Ok(x) && x.projects@.len() == 0),
        (file, plan) matches (Ok(f), Ok(p)) ==> p.path@ == f@,
{
    if let Ok(x) = r {
        assert(x@.len() == x.projects@.len());
    }
}

/// How a response is shown in notices.
pub proof fn shown_response(res: &Response, r: String)
    requires
        call_ensures(Response::debug_text, (res,), r),
    ensures
        res is Pong ==> r@ == "Pong"@,
        res is Done ==> r@ == "Ok"@,
        res matches Response::Error { message } ==> r@ == "Error { message: "@
            + text::debug_quoted(message@) + " }"@,
{
}

/// A registry is read from a list of projects, each with its name and its
/// path, in order.
pub proof fn registry_is_read(
    v: Node,
    r: Option<Registry>,
    f: Vec<(String, Node)>,
    l: Vec<Node>,
    fields: Seq<Vec<(String, Node)>>,
    names: Seq<String>,
    paths_: Seq<String>,
    i: int,
)
    requires
        call_ensures(registry::registry_from_node, (v,), r),
        v == Node::Object(f),
        holds_once(f@, "projects"@, Node::List(l)),
        fields.len() == l@.len(),
        names.len() == l@.len(),
        paths_.len() == l@.len(),
        forall|k: int|
            0 <= k < l@.len() ==> #[trigger] l@[k] == Node::Object(fields[k]) && holds_once(
                fields[k]@,
                "name"@,
                Node::Text(names[k]),
            ) && holds_once(fields[k]@, "path"@, Node::Text(paths_[k])),
        0 <= i < l@.len(),
    ensures
        r matches Some(x) && x.projects@.len() == l@.len() && x.projects@[i].name@ == names[i]@
            && x.projects@[i].path@ == paths_[i]@,
{
    json::lemma_inside(v);
    lemma_holds_once(f@, "projects"@, Node::List(l));
    json::lemma_inside(Node::List(l));
    let nodes = json::nodes(l@);
    assert(nodes.len() == l@.len());
    assert forall|k: int| 0 <= k < nodes.len() implies registry::entry_in(#[trigger] nodes[k])
        == Some((registry::Entry { name: names[k]@, path: paths_[k]@ })) by {
        assert(nodes[k] == l@[k]@);
        json::lemma_inside(l@[k]);
        lemma_holds_once(fields[k]@, "name"@, Node::Text(names[k]));
        lemma_holds_once(fields[k]@, "path"@, Node::Text(paths_[k]));
    }
    let read = nodes.map_values(|x: Json| registry::entry_in(x)->0);
    assert(registry::registry_in(v@) == Some(read));
    if let Some(x) = r {
        assert(x@ == read);
        assert(x@.len() == x.projects@.len());
        assert(x@[i] == x.projects@[i]@);
        assert(read[i] == (registry::Entry { name: names[i]@, path: paths_[i]@ }));
    }
}

/// A field that stands alone may be given in a list instead of by its name;
/// a longer or an empty list is refused.
pub proof fn request_in_a_list(
    v: Node,
    r: Option<Request>,
    f: Vec<(String, Node)>,
    l: Vec<Node>,
    name: String,
)
    requires
        call_ensures(ipc::request_from_node, (v,), r),
        v == Node::Object(f),
        f@.len() == 1,
        f@[0].1 == Node::List(l),
    ensures
        l@.len() != 1 ==> r is None,
        l@.len() == 1 && l@[0] == Node::Text(name) && f@[0].0@ == "Up"@ ==> (
        r matches Some(Request::Up { project }) && project@ == name@),
        l@.len() == 1 && l@[0] == Node::Text(name) && f@[0].0@ == "Down"@ ==> (
        r matches Some(Request::Down { project }) && project@ == name@),
        f@[0].0@ != "Up"@ && f@[0].0@ != "Down"@ ==> r is None,
{
    ipc::lemma_tags();
    json::lemma_inside(v);
    json::lemma_inside(f@[0].1);
    let all = json::named_nodes(f@);
    assert(all.len() == 1);
    assert(all[0] == (f@[0].0@, f@[0].1@));
    let nodes = json::nodes(l@);
    assert(nodes.len() == l@.len());
    if l@.len() == 1 {
        assert(nodes[0] == l@[0]@);
        if l@[0] == Node::Text(name) {
            json::lemma_inside(l@[0]);
        }
    }
}

/// Whether the values of a list make up a report, in the order of its fields.
pub open spec fn lists_report(l: Seq<Node>, p: ProjectRuntime) -> bool {
    &&& l.len() == 5
    &&& l[0] matches Node::Text(t) && t@ == p.name@
    &&& l[1] == Node::Number(p.pid as u64)
    &&& l[2] == Node::Number(p.netns_pid as u64)
    &&& l[3] == Node::Number(p.uptime_secs)
    &&& l[4] matches Node::List(routes) && lists_texts(routes@, p.routes@)
}

/// A report may be given as a list of its values in order; one with more
/// values is refused.
pub proof fn report_in_a_list(
    v: Node,
    r: Option<Response>,
    f: Vec<(String, Node)>,
    g: Vec<(String, Node)>,
    l: Vec<Node>,
    row: Vec<Node>,
    p: ProjectRuntime,
)
    requires
        call_ensures(ipc::response_from_node, (v,), r),
        v == Node::Object(f),
        f@.len() == 1,
        f@[0].0@ == "Status"@,
        f@[0].1 == Node::Object(g),
        holds_once(g@, "projects"@, Node::List(l)),
        l@.len() == 1,
        l@[0] == Node::List(row),
    ensures
        lists_report(row@, p) ==> (r matches Some(Response::Status { projects }) && projects@.len()
            == 1 && same_report(projects@[0], p)),
        row@.len() > 5 ==> r is None,
        row@.len() < 2 ==> r is None,
{
    ipc::lemma_tags();
    json::lemma_inside(v);
    json::lemma_inside(f@[0].1);
    let all = json::named_nodes(f@);
    assert(all.len() == 1);
    assert(all[0] == (f@[0].0@, f@[0].1@));
    lemma_holds_once(g@, "projects"@, Node::List(l));
    json::lemma_inside(Node::List(l));
    let nodes = json::nodes(l@);
    assert(nodes.len() == 1);
    assert(nodes[0] == l@[0]@);
    json::lemma_inside(l@[0]);
    let slots = json::nodes(row@);
    assert(slots.len() == row@.len());
    if lists_report(row@, p) {
        assert forall|i: int| 0 <= i < 5 implies #[trigger] slots[i] == row@[i]@ by {}
        json::lemma_inside(row@[0]);
        json::lemma_inside(row@[1]);
        json::lemma_inside(row@[2]);
        json::lemma_inside(row@[3]);
        json::lemma_inside(row@[4]);
        assert(slots[0] == row@[0]@ && slots[1] == row@[1]@ && slots[2] == row@[2]@ && slots[3]
            == row@[3]@ && slots[4] == row@[4]@);
        if let Node::List(routes) = row@[4] {
            let names = json::nodes(routes@);
            let want = text::views(p.routes@);
            assert(names.len() == routes@.len());
            assert forall|i: int| 0 <= i < names.len() implies #[trigger] names[i] == Json::Text(
                want[i],
            ) by {
                assert(names[i] == routes@[i]@);
                json::lemma_inside(routes@[i]);
                assert(want[i] == p.routes@[i]@);
            }
            assert(names.map_values(|j: Json| j->Text_0) =~= want);
        }
        assert(ipc::runtime_in(nodes[0]) == Some(p@));
        let read = nodes.map_values(|j: Json| ipc::runtime_in(j)->0);
        assert(ipc::runtimes_in(nodes) == Some(read));
        if let Some(Response::Status { projects }) = r {
            assert(ipc::runtimes(projects@) == read);
            assert(ipc::runtimes(projects@).len() == projects@.len());
            assert(read[0] == p@);
            assert(ipc::runtimes(projects@)[0] == projects@[0]@);
            lemma_same_report(projects@[0], p);
        }
    } else if row@.len() > 5 || row@.len() < 2 {
        assert(ipc::runtime_in(nodes[0]) is None);
        assert(ipc::runtimes_in(nodes) is None);
    }
}

/// How a report is shown in notices, given how its routes are.
pub open spec fn shown_report(p: ProjectRuntime, routes: Seq<char>) -> Seq<char> {
    "ProjectRuntime { name: "@ + text::debug_quoted(p.name@) + ", pid: "@ + text::decimal(
        p.pid as nat,
    ) + ", netns_pid: "@ + text::decimal(p.netns_pid as nat) + ", uptime_secs: "@ + text::decimal(
        p.uptime_secs as nat,
    ) + ", routes: ["@ + routes + "] }"@
}

/// How the status is shown in notices: the reports one behind the other, and
/// in each the routes in quotes.
pub proof fn shown_status(
    res: &Response,
    projects: Vec<ProjectRuntime>,
    r: String,
    quoted: Seq<Vec<String>>,
    routes: Seq<String>,
    parts: &Vec<String>,
    all: String,
)
    requires
        *res == (Response::Status { projects }),
        call_ensures(Response::debug_text, (res,), r),
        quoted.len() == projects@.len(),
        routes.len() == projects@.len(),
        parts@.len() == projects@.len(),
        forall|i: int|
            0 <= i < projects@.len() ==> {
                &&& quoted[i]@.len() == projects@[i].routes@.len()
                &&& forall|j: int|
                    0 <= j < quoted[i]@.len() ==> (#[trigger] quoted[i]@[j])@ == text::debug_quoted(
                        projects@[i].routes@[j]@,
                    )
                &&& call_ensures(words::join, (&quoted[i], ", "), #[trigger] routes[i])
                &&& parts@[i]@ == shown_report(projects@[i], routes[i]@)
            },
        call_ensures(words::join, (parts, ", "), all),
    ensures
        r@ == "Status { projects: ["@ + all@ + "] }"@,
{
    let said = ipc::runtimes(projects@).map_values(|p: ipc::Runtime| ipc::runtime_debug(p));
    let want = text::views(parts@);
    assert(said.len() == want.len());
    assert forall|i: int| 0 <= i < said.len() implies said[i] == want[i] by {
        let p = projects@[i]@;
        assert(ipc::runtimes(projects@)[i] == p);
        assert(want[i] == parts@[i]@);
        let x = p.routes.map_values(|s: Seq<char>| text::debug_quoted(s));
        let y = text::views(quoted[i]@);
        assert(routes[i]@.len() >= 0);
        assert(x.len() == y.len());
        assert forall|j: int| 0 <= j < x.len() implies x[j] == y[j] by {
            assert(y[j] == quoted[i]@[j]@);
            assert(p.routes[j] == projects@[i].routes@[j]@);
        }
        assert(x =~= y);
    }
    assert(said =~= want);
}

/// White space in front of what a file holds makes no difference.
pub proof fn blanks_in_front_of_a_file(
    path: &str,
    a: &str,
    b: &str,
    c: char,
    r: Result<Registry, String>,
    s: Result<Registry, String>,
)
    requires
        c == ' ' || c == '\n' || c == '\t' || c == '\r',
        b@ == seq![c] + a@,
        call_ensures(Registry::load_from, (path, Some(a)), r),
        call_ensures(Registry::load_from, (path, Some(b)), s),
        json::text_read(a@) is None && json::text_read(b@) is None,
        json::number_read(a@) is None && json::number_read(b@) is None,
        !json::null_read(a@) && !json::null_read(b@),
        json::list_read(a@) == json::list_read(b@),
    ensures
        r is Ok <==> s is Ok,
        (r, s) matches (Ok(x), Ok(y)) ==> same_list(x.projects@, y.projects@),
{
    assert(b@.skip(1) == a@);
    assert(json::unspaced(b@) == json::unspaced(a@));
    assert(json::object_read(b@) == json::object_read(a@));
    assert(json::json_read(b@) == json::json_read(a@));
    if let (Ok(x), Ok(y)) = (r, s) {
        lemma_same_list(x.projects@, y.projects@);
    }
}

/// A line that holds something, but no message, is refused as such.
pub proof fn lines_without_a_message(
    line: &str,
    r: Result<Request, String>,
    s: Result<Response, String>,
)
    requires
        line@.len() > 0,
        line@.last() != '\n' && line@.last() != '\r',
        !line@.contains('\n'),
        call_ensures(ipc::decode_request, (line,), r),
        call_ensures(ipc::decode_response, (line,), s),
    ensures
        r matches Err(m) ==> m@ == "failed to parse IPC message"@,
        s matches Err(m) ==> m@ == "failed to parse IPC message"@,
{
    assert(ipc::unterminated(line@) == line@);
}

} // verus!
