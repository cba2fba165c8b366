//! Messages between the command line and the daemon: one JSON value per line.
use crate::json;
use crate::json::Node;
use crate::text;
use crate::words;
use vstd::prelude::*;
use vstd::string::*;

verus! {

/// What the command line asks of the daemon.
#[derive(Debug, Clone, PartialEq, Eq)]
pub enum Request {
    Ping,
    Up { project: String },
    Down { project: String },
    Status,
}

/// What the daemon answers.
#[derive(Debug, Clone, PartialEq, Eq)]
pub enum Response {
    Pong,
    /// The request was carried out; `"Ok"` on the wire.
    Done,
    Error { message: String },
    Status { projects: Vec<ProjectRuntime> },
}

/// A running project as the daemon reports it.
#[derive(Debug, Clone, Default, PartialEq, Eq)]
pub struct ProjectRuntime {
    pub name: String,
    pub pid: u32,
    /// A process inside the network namespace of the project; 0 if unknown.
    pub netns_pid: u32,
    pub uptime_secs: u64,
    pub routes: Vec<String>,
}

/// What a request says.
pub enum Req {
    Ping,
    Up { project: Seq<char> },
    Down { project: Seq<char> },
    Status,
}

/// What a response says.
pub enum Resp {
    Pong,
    Done,
    Error { message: Seq<char> },
    Status { projects: Seq<Runtime> },
}

/// What a report on a running project says.
pub struct Runtime {
    pub name: Seq<char>,
    pub pid: u32,
    pub netns_pid: u32,
    pub uptime_secs: u64,
    pub routes: Seq<Seq<char>>,
}

impl View for Request {
    type V = Req;

    open spec fn view(&self) -> Req {
        match self {
            Request::Ping => Req::Ping,
            Request::Up { project } => Req::Up { project: project@ },
            Request::Down { project } => Req::Down { project: project@ },
            Request::Status => Req::Status,
        }
    }
}

impl View for ProjectRuntime {
    type V = Runtime;

    open spec fn view(&self) -> Runtime {
        Runtime {
            name: self.name@,
            pid: self.pid,
            netns_pid: self.netns_pid,
            uptime_secs: self.uptime_secs,
            routes: text::views(self.routes@),
        }
    }
}

/// What a list of reports says.
pub open spec fn runtimes(list: Seq<ProjectRuntime>) -> Seq<Runtime> {
    list.map_values(|p: ProjectRuntime| p@)
}

impl View for Response {
    type V = Resp;

    open spec fn view(&self) -> Resp {
        match self {
            Response::Pong => Resp::Pong,
            Response::Done => Resp::Done,
            Response::Error { message } => Resp::Error { message: message@ },
            Response::Status { projects } => Resp::Status { projects: runtimes(projects@) },
        }
    }
}

// ---------------------------------------------------------------------------
// Messages as JSON
// ---------------------------------------------------------------------------
/// A list of strings.
pub open spec fn texts_json(list: Seq<Seq<char>>) -> json::Json {
    json::Json::List(list.map_values(|s: Seq<char>| json::Json::Text(s)))
}

/// A report on a running project.
pub open spec fn runtime_json(p: Runtime) -> json::Json {
    json::Json::Object(
        seq![
            ("name"@, json::Json::Text(p.name)),
            ("pid"@, json::Json::Number(p.pid as u64)),
            ("netns_pid"@, json::Json::Number(p.netns_pid as u64)),
            ("uptime_secs"@, json::Json::Number(p.uptime_secs)),
            ("routes"@, texts_json(p.routes)),
        ],
    )
}

/// A request: its kind, with its fields in an object if it has any.
pub open spec fn request_json(r: Req) -> json::Json {
    match r {
        Req::Ping => json::Json::Text("Ping"@),
        Req::Up { project } => json::single(
            "Up"@,
            json::single("project"@, json::Json::Text(project)),
        ),
        Req::Down { project } => json::single(
            "Down"@,
            json::single("project"@, json::Json::Text(project)),
        ),
        Req::Status => json::Json::Text("Status"@),
    }
}

/// A response: its kind, with its fields in an object if it has any.
pub open spec fn response_json(r: Resp) -> json::Json {
    match r {
        Resp::Pong => json::Json::Text("Pong"@),
        Resp::Done => json::Json::Text("Ok"@),
        Resp::Error { message } => json::single(
            "Error"@,
            json::single("message"@, json::Json::Text(message)),
        ),
        Resp::Status { projects } => json::single(
            "Status"@,
            json::single(
                "projects"@,
                json::Json::List(projects.map_values(|p: Runtime| runtime_json(p))),
            ),
        ),
    }
}

fn texts_value(list: &Vec<String>) -> (r: serde_json::Value)
    ensures
        json::json_tree(r) == texts_json(text::views(list@)),
{
    let mut l: Vec<serde_json::Value> = Vec::new();
    let ghost want = text::views(list@).map_values(|s: Seq<char>| json::Json::Text(s));
    for i in 0..list.len()
        invariant
            want == text::views(list@).map_values(|s: Seq<char>| json::Json::Text(s)),
            json::trees(l@) == want.take(i as int),
    {
        let ghost before = json::trees(l@);
        l.push(json::text_value(list[i].clone()));
        assert(json::trees(l@) == before.push(want[i as int]));
        assert(want.take(i + 1) == want.take(i as int).push(want[i as int]));
    }
    assert(want.take(want.len() as int) == want);
    json::list_value(l)
}

proof fn lemma_runtime_names()
    ensures
        "name"@ != "pid"@,
        "name"@ != "netns_pid"@,
        "name"@ != "uptime_secs"@,
        "name"@ != "routes"@,
        "pid"@ != "netns_pid"@,
        "pid"@ != "uptime_secs"@,
        "pid"@ != "routes"@,
        "netns_pid"@ != "uptime_secs"@,
        "netns_pid"@ != "routes"@,
        "uptime_secs"@ != "routes"@,
{
    reveal_strlit("name");
    reveal_strlit("pid");
    reveal_strlit("netns_pid");
    reveal_strlit("uptime_secs");
    reveal_strlit("routes");
    assert("name"@.len() == 4);
    assert("pid"@.len() == 3);
    assert("netns_pid"@.len() == 9);
    assert("uptime_secs"@.len() == 11);
    assert("routes"@.len() == 6);
}

fn runtime_value(p: &ProjectRuntime) -> (r: serde_json::Value)
    ensures
        json::json_tree(r) == runtime_json(p@),
{
    let mut f: Vec<(String, serde_json::Value)> = Vec::new();
    f.push(("name".to_owned(), json::text_value(p.name.clone())));
    f.push(("pid".to_owned(), json::number_value(p.pid as u64)));
    f.push(("netns_pid".to_owned(), json::number_value(p.netns_pid as u64)));
    f.push(("uptime_secs".to_owned(), json::number_value(p.uptime_secs)));
    f.push(("routes".to_owned(), texts_value(&p.routes)));
    proof {
        lemma_runtime_names();
    }
    assert(json::field_trees(f@) == runtime_json(p@)->Object_0);
    json::object_value(f)
}

/// The value that a request is sent as.
pub fn request_value(req: &Request) -> (r: serde_json::Value)
    ensures
        json::json_tree(r) == request_json(req@),
{
    match req {
        Request::Ping => json::text_value("Ping".to_owned()),
        Request::Up { project } => json::single_value(
            "Up",
            json::single_value("project", json::text_value(project.clone())),
        ),
        Request::Down { project } => json::single_value(
            "Down",
            json::single_value("project", json::text_value(project.clone())),
        ),
        Request::Status => json::text_value("Status".to_owned()),
    }
}

/// The value that a response is sent as.
pub fn response_value(res: &Response) -> (r: serde_json::Value)
    ensures
        json::json_tree(r) == response_json(res@),
{
    match res {
        Response::Pong => json::text_value("Pong".to_owned()),
        Response::Done => json::text_value("Ok".to_owned()),
        Response::Error { message } => json::single_value(
            "Error",
            json::single_value("message", json::text_value(message.clone())),
        ),
        Response::Status { projects } => {
            let mut l: Vec<serde_json::Value> = Vec::new();
            let ghost want = runtimes(projects@).map_values(|p: Runtime| runtime_json(p));
            for i in 0..projects.len()
                invariant
                    want == runtimes(projects@).map_values(|p: Runtime| runtime_json(p)),
                    json::trees(l@) == want.take(i as int),
            {
                let ghost before = json::trees(l@);
                l.push(runtime_value(&projects[i]));
                assert(json::trees(l@) == before.push(want[i as int]));
                assert(want.take(i + 1) == want.take(i as int).push(want[i as int]));
            }
            assert(want.take(want.len() as int) == want);
            json::single_value("Status", json::single_value("projects", json::list_value(l)))
        },
    }
}

// ---------------------------------------------------------------------------
// Messages from JSON
// ---------------------------------------------------------------------------
/// The string that a value is.
pub open spec fn text_in(j: Option<json::Json>) -> Option<Seq<char>> {
    match j {
        Some(json::Json::Text(t)) => Some(t),
        _ => None,
    }
}

pub(crate) fn text_from(v: Option<Node>) -> (r: Option<String>)
    ensures
        match (v, r) {
            (Some(x), Some(t)) => text_in(Some(x@)) == Some(t@),
            (Some(x), None) => text_in(Some(x@)) is None,
            (None, t) => t is None,
        },
{
    match v? {
        Node::Text(t) => Some(t),
        _ => None,
    }
}

/// The integer up to `max` that a value is.
pub open spec fn number_in(j: Option<json::Json>, max: u64) -> Option<u64> {
    match j {
        Some(json::Json::Number(n)) => if n <= max {
            Some(n)
        } else {
            None
        },
        _ => None,
    }
}

fn number_from(v: Option<Node>, max: u64) -> (r: Option<u64>)
    ensures
        r == match v {
            Some(x) => number_in(Some(x@), max),
            None => None,
        },
{
    match v? {
        Node::Number(n) => if n <= max {
            Some(n)
        } else {
            None
        },
        _ => None,
    }
}

/// The strings that a list of values holds, none if some value is no string.
pub open spec fn texts_in(l: Seq<json::Json>) -> Option<Seq<Seq<char>>> {
    if forall|i: int| 0 <= i < l.len() ==> #[trigger] l[i] is Text {
        Some(l.map_values(|j: json::Json| j->Text_0))
    } else {
        None
    }
}

fn texts_from(l: Vec<Node>) -> (r: Option<Vec<String>>)
    ensures
        match r {
            Some(v) => texts_in(json::nodes(l@)) == Some(text::views(v@)),
            None => texts_in(json::nodes(l@)) is None,
        },
{
    let ghost all = json::nodes(l@);
    let ghost given = l@;
    let mut out: Vec<String> = Vec::new();
    for v in it: l
        invariant
            it.seq() == given,
            all == json::nodes(given),
            out@.len() == it.index(),
            forall|i: int| 0 <= i < out@.len() ==> #[trigger] all[i] == json::Json::Text(out@[i]@),
    {
        let ghost k = it.index() as int;
        assert(all[k] == v@);
        match v {
            Node::Text(t) => out.push(t),
            _ => {
                assert(!(all[k] is Text));
                return None;
            },
        }
    }
    assert(text::views(out@) == all.map_values(|j: json::Json| j->Text_0));
    Some(out)
}

/// The values of the fields of a report, as far as they are given.
pub struct Slots {
    pub name: Option<json::Json>,
    pub pid: Option<json::Json>,
    pub netns_pid: Option<json::Json>,
    pub uptime_secs: Option<json::Json>,
    pub routes: Option<json::Json>,
}

/// The value at a position of a list, if the list is that long.
pub open spec fn slot(l: Seq<json::Json>, i: int) -> Option<json::Json> {
    if 0 <= i < l.len() {
        Some(l[i])
    } else {
        None
    }
}

/// The values of the fields of a report: by name in an object, where none of
/// them may be given twice, by position in a list.
pub open spec fn slots_in(j: json::Json) -> Option<Slots> {
    match j {
        json::Json::Object(f) => if json::given_twice(f, "name"@) || json::given_twice(f, "pid"@)
            || json::given_twice(f, "netns_pid"@) || json::given_twice(f, "uptime_secs"@)
            || json::given_twice(f, "routes"@) {
            None
        } else {
            Some(
                Slots {
                    name: json::field(f, "name"@),
                    pid: json::field(f, "pid"@),
                    netns_pid: json::field(f, "netns_pid"@),
                    uptime_secs: json::field(f, "uptime_secs"@),
                    routes: json::field(f, "routes"@),
                },
            )
        },
        json::Json::List(l) => if l.len() <= 5 {
            Some(
                Slots {
                    name: slot(l, 0),
                    pid: slot(l, 1),
                    netns_pid: slot(l, 2),
                    uptime_secs: slot(l, 3),
                    routes: slot(l, 4),
                },
            )
        } else {
            None
        },
        _ => None,
    }
}

/// The report that the values of its fields make up. Without a namespace
/// process it is 0, without routes there are none.
pub open spec fn runtime_in_slots(s: Slots) -> Option<Runtime> {
    let netns_pid = if s.netns_pid is None {
        Some(0u64)
    } else {
        number_in(s.netns_pid, u32::MAX as u64)
    };
    let routes = match s.routes {
        None => Some(Seq::<Seq<char>>::empty()),
        Some(json::Json::List(l)) => texts_in(l),
        Some(_) => None,
    };
    match (
        text_in(s.name),
        number_in(s.pid, u32::MAX as u64),
        netns_pid,
        number_in(s.uptime_secs, u64::MAX),
        routes,
    ) {
        (Some(name), Some(pid), Some(netns_pid), Some(uptime_secs), Some(routes)) => Some(
            Runtime {
                name,
                pid: pid as u32,
                netns_pid: netns_pid as u32,
                uptime_secs,
                routes,
            },
        ),
        _ => None,
    }
}

/// The report that a value is.
pub open spec fn runtime_in(j: json::Json) -> Option<Runtime> {
    match slots_in(j) {
        Some(s) => runtime_in_slots(s),
        None => None,
    }
}

/// The field values of a report, as far as they are given.
struct SlotValues {
    name: Option<Node>,
    pid: Option<Node>,
    netns_pid: Option<Node>,
    uptime_secs: Option<Node>,
    routes: Option<Node>,
}

/// What an optional value holds.
pub open spec fn tree_of(v: Option<Node>) -> Option<json::Json> {
    match v {
        Some(x) => Some(x@),
        None => None,
    }
}

impl SlotValues {
    spec fn slots(&self) -> Slots {
        Slots {
            name: tree_of(self.name),
            pid: tree_of(self.pid),
            netns_pid: tree_of(self.netns_pid),
            uptime_secs: tree_of(self.uptime_secs),
            routes: tree_of(self.routes),
        }
    }
}

/// Takes the first value of a list.
pub(crate) fn take_first(l: &mut Vec<Node>) -> (r: Option<Node>)
    ensures
        tree_of(r) == slot(json::nodes(old(l)@), 0),
        json::nodes(final(l)@) == if old(l)@.len() > 0 {
            json::nodes(old(l)@).skip(1)
        } else {
            json::nodes(old(l)@)
        },
{
    if l.len() > 0 {
        let ghost before = json::nodes(l@);
        let v = l.remove(0);
        assert(json::nodes(l@) == before.skip(1));
        Some(v)
    } else {
        None
    }
}

fn slots_from(v: Node) -> (r: Option<SlotValues>)
    ensures
        match (r, slots_in(v@)) {
            (Some(a), Some(b)) => a.slots() == b,
            (None, None) => true,
            _ => false,
        },
{
    proof {
        json::lemma_inside(v);
    }
    match v {
        Node::Object(f) => {
            let mut f = f;
            proof {
                lemma_runtime_names();
            }
            if json::repeats(&f, "name") || json::repeats(&f, "pid") || json::repeats(
                &f,
                "netns_pid",
            ) || json::repeats(&f, "uptime_secs") || json::repeats(&f, "routes") {
                return None;
            }
            let name = json::take_field(&mut f, "name");
            let pid = json::take_field(&mut f, "pid");
            let netns_pid = json::take_field(&mut f, "netns_pid");
            let uptime_secs = json::take_field(&mut f, "uptime_secs");
            let routes = json::take_field(&mut f, "routes");
            Some(SlotValues { name, pid, netns_pid, uptime_secs, routes })
        },
        Node::List(l) => {
            let mut l = l;
            if l.len() > 5 {
                return None;
            }
            let ghost all = json::nodes(l@);
            let name = take_first(&mut l);
            let pid = take_first(&mut l);
            let netns_pid = take_first(&mut l);
            let uptime_secs = take_first(&mut l);
            let routes = take_first(&mut l);
            Some(SlotValues { name, pid, netns_pid, uptime_secs, routes })
        },
        _ => None,
    }
}

fn runtime_from(v: Node) -> (r: Option<ProjectRuntime>)
    ensures
        match r {
            Some(p) => runtime_in(v@) == Some(p@),
            None => runtime_in(v@) is None,
        },
{
    let s = slots_from(v)?;
    let name = text_from(s.name)?;
    let pid = number_from(s.pid, u32::MAX as u64)?;
    let netns_pid: u64 = match s.netns_pid {
        None => 0,
        Some(x) => number_from(Some(x), u32::MAX as u64)?,
    };
    let uptime_secs = number_from(s.uptime_secs, u64::MAX)?;
    let routes: Vec<String> = match s.routes {
        None => Vec::new(),
        Some(x) => {
            proof {
                json::lemma_inside(x);
            }
            match x {
                Node::List(l) => texts_from(l)?,
                _ => {
                    return None;
                },
            }
        },
    };
    assert(s.routes is None ==> text::views(routes@) == Seq::<Seq<char>>::empty());
    Some(
        ProjectRuntime {
            name,
            pid: pid as u32,
            netns_pid: netns_pid as u32,
            uptime_secs,
            routes,
        },
    )
}

/// A kind on its own, or an object with the kind as its only name.
pub open spec fn tagged(j: json::Json) -> Option<(Seq<char>, Option<json::Json>)> {
    match j {
        json::Json::Text(t) => Some((t, None)),
        json::Json::Object(f) => if f.len() == 1 {
            Some((f[0].0, Some(f[0].1)))
        } else {
            None
        },
        _ => None,
    }
}

fn open_tagged(v: Node) -> (r: Option<(String, Option<Node>)>)
    ensures
        match (r, tagged(v@)) {
            (Some((k, x)), Some((tag, content))) => k@ == tag && tree_of(x) == content,
            (None, None) => true,
            _ => false,
        },
{
    proof {
        json::lemma_inside(v);
    }
    match v {
        Node::Text(t) => Some((t, None)),
        Node::Object(f) => {
            let mut f = f;
            let ghost all = json::named_nodes(f@);
            if f.len() == 1 {
                let (k, x) = f.remove(0);
                assert(all[0] == (k@, x@));
                Some((k, Some(x)))
            } else {
                None
            }
        },
        _ => None,
    }
}

/// Whether nothing, or `null`, stands behind a kind.
pub open spec fn no_content(content: Option<json::Json>) -> bool {
    content is None || content == Some(json::Json::Null)
}

fn is_bare(content: Option<Node>) -> (r: bool)
    ensures
        r == no_content(tree_of(content)),
{
    match content {
        None => true,
        Some(x) => matches!(x, Node::Null),
    }
}

/// The one field of a message: by name in an object, where it may not be given
/// twice, or alone in a list.
pub open spec fn only_field(content: Option<json::Json>, name: Seq<char>) -> Option<json::Json> {
    match content {
        Some(json::Json::Object(f)) => if json::given_twice(f, name) {
            None
        } else {
            json::field(f, name)
        },
        Some(json::Json::List(l)) => if l.len() == 1 {
            Some(l[0])
        } else {
            None
        },
        _ => None,
    }
}

pub(crate) fn take_only_field(content: Option<Node>, name: &str) -> (r: Option<Node>)
    ensures
        tree_of(r) == only_field(tree_of(content), name@),
{
    let content = content?;
    proof {
        json::lemma_inside(content);
    }
    match content {
        Node::Object(f) => {
            let mut f = f;
            if json::repeats(&f, name) {
                None
            } else {
                json::take_field(&mut f, name)
            }
        },
        Node::List(l) => {
            let mut l = l;
            let ghost all = json::nodes(l@);
            if l.len() == 1 {
                take_first(&mut l)
            } else {
                None
            }
        },
        _ => None,
    }
}

/// The request that a value is.
pub open spec fn request_in(j: json::Json) -> Option<Req> {
    match tagged(j) {
        None => None,
        Some((tag, content)) => if tag == "Ping"@ {
            if no_content(content) {
                Some(Req::Ping)
            } else {
                None
            }
        } else if tag == "Status"@ {
            if no_content(content) {
                Some(Req::Status)
            } else {
                None
            }
        } else if tag == "Up"@ {
            match text_in(only_field(content, "project"@)) {
                Some(project) => Some(Req::Up { project }),
                None => None,
            }
        } else if tag == "Down"@ {
            match text_in(only_field(content, "project"@)) {
                Some(project) => Some(Req::Down { project }),
                None => None,
            }
        } else {
            None
        },
    }
}

/// The request that a value is.
pub fn request_from_node(v: Node) -> (r: Option<Request>)
    ensures
        match r {
            Some(q) => request_in(v@) == Some(q@),
            None => request_in(v@) is None,
        },
{
    let (tag, content) = open_tagged(v)?;
    let tag = tag.as_str();
    if text::same(tag, "Ping") {
        if is_bare(content) {
            Some(Request::Ping)
        } else {
            None
        }
    } else if text::same(tag, "Status") {
        if is_bare(content) {
            Some(Request::Status)
        } else {
            None
        }
    } else if text::same(tag, "Up") {
        let project = text_from(take_only_field(content, "project"))?;
        Some(Request::Up { project })
    } else if text::same(tag, "Down") {
        let project = text_from(take_only_field(content, "project"))?;
        Some(Request::Down { project })
    } else {
        None
    }
}

/// The reports that a list of values holds, none if some value is no report.
pub open spec fn runtimes_in(l: Seq<json::Json>) -> Option<Seq<Runtime>> {
    if forall|i: int| 0 <= i < l.len() ==> runtime_in(#[trigger] l[i]) is Some {
        Some(l.map_values(|j: json::Json| runtime_in(j)->0))
    } else {
        None
    }
}

fn runtimes_from(l: Vec<Node>) -> (r: Option<Vec<ProjectRuntime>>)
    ensures
        match r {
            Some(v) => runtimes_in(json::nodes(l@)) == Some(runtimes(v@)),
            None => runtimes_in(json::nodes(l@)) is None,
        },
{
    let ghost all = json::nodes(l@);
    let ghost given = l@;
    let mut out: Vec<ProjectRuntime> = Vec::new();
    for v in it: l
        invariant
            it.seq() == given,
            all == json::nodes(given),
            out@.len() == it.index(),
            forall|i: int| 0 <= i < out@.len() ==> runtime_in(#[trigger] all[i]) == Some(out@[i]@),
    {
        let ghost k = it.index() as int;
        assert(all[k] == v@);
        match runtime_from(v) {
            Some(p) => out.push(p),
            None => {
                assert(runtime_in(all[k]) is None);
                return None;
            },
        }
    }
    assert(runtimes(out@) == all.map_values(|j: json::Json| runtime_in(j)->0));
    Some(out)
}

/// The response that a value is.
pub open spec fn response_in(j: json::Json) -> Option<Resp> {
    match tagged(j) {
        None => None,
        Some((tag, content)) => if tag == "Pong"@ {
            if no_content(content) {
                Some(Resp::Pong)
            } else {
                None
            }
        } else if tag == "Ok"@ {
            if no_content(content) {
                Some(Resp::Done)
            } else {
                None
            }
        } else if tag == "Error"@ {
            match text_in(only_field(content, "message"@)) {
                Some(message) => Some(Resp::Error { message }),
                None => None,
            }
        } else if tag == "Status"@ {
            match only_field(content, "projects"@) {
                Some(json::Json::List(l)) => match runtimes_in(l) {
                    Some(projects) => Some(Resp::Status { projects }),
                    None => None,
                },
                _ => None,
            }
        } else {
            None
        },
    }
}

/// The response that a value is.
pub fn response_from_node(v: Node) -> (r: Option<Response>)
    ensures
        match r {
            Some(q) => response_in(v@) == Some(q@),
            None => response_in(v@) is None,
        },
{
    let (tag, content) = open_tagged(v)?;
    let tag = tag.as_str();
    if text::same(tag, "Pong") {
        if is_bare(content) {
            Some(Response::Pong)
        } else {
            None
        }
    } else if text::same(tag, "Ok") {
        if is_bare(content) {
            Some(Response::Done)
        } else {
            None
        }
    } else if text::same(tag, "Error") {
        let message = text_from(take_only_field(content, "message"))?;
        Some(Response::Error { message })
    } else if text::same(tag, "Status") {
        let projects = take_only_field(content, "projects")?;
        proof {
            json::lemma_inside(projects);
        }
        match projects {
            Node::List(l) => {
                let projects = runtimes_from(l)?;
                Some(Response::Status { projects })
            },
            _ => None,
        }
    } else {
        None
    }
}

// ---------------------------------------------------------------------------
// Messages in notices
// ---------------------------------------------------------------------------
/// A report as it is shown in notices.
pub open spec fn runtime_debug(p: Runtime) -> Seq<char> {
    "ProjectRuntime { name: "@ + text::debug_quoted(p.name) + ", pid: "@ + text::decimal(
        p.pid as nat,
    ) + ", netns_pid: "@ + text::decimal(p.netns_pid as nat) + ", uptime_secs: "@ + text::decimal(
        p.uptime_secs as nat,
    ) + ", routes: ["@ + words::joined(
        p.routes.map_values(|s: Seq<char>| text::debug_quoted(s)),
        ", "@,
    ) + "] }"@
}

/// A response as it is shown in notices.
pub open spec fn response_debug(r: Resp) -> Seq<char> {
    match r {
        Resp::Pong => "Pong"@,
        Resp::Done => "Ok"@,
        Resp::Error { message } => "Error { message: "@ + text::debug_quoted(message) + " }"@,
        Resp::Status { projects } => "Status { projects: ["@ + words::joined(
            projects.map_values(|p: Runtime| runtime_debug(p)),
            ", "@,
        ) + "] }"@,
    }
}

fn runtime_debug_text(p: &ProjectRuntime) -> (r: String)
    ensures
        r@ == runtime_debug(p@),
{
    let mut routes: Vec<String> = Vec::new();
    let ghost want = p@.routes.map_values(|s: Seq<char>| text::debug_quoted(s));
    for i in 0..p.routes.len()
        invariant
            want == p@.routes.map_values(|s: Seq<char>| text::debug_quoted(s)),
            text::views(routes@) == want.take(i as int),
    {
        let ghost before = text::views(routes@);
        routes.push(text::debug_string(p.routes[i].as_str()));
        assert(text::views(routes@) == before.push(want[i as int]));
        assert(want.take(i + 1) == want.take(i as int).push(want[i as int]));
    }
    assert(want.take(want.len() as int) == want);
    "ProjectRuntime { name: ".to_owned().concat(
        text::debug_string(p.name.as_str()).as_str(),
    ).concat(", pid: ").concat(text::decimal_text(p.pid as u64).as_str()).concat(
        ", netns_pid: ",
    ).concat(text::decimal_text(p.netns_pid as u64).as_str()).concat(", uptime_secs: ").concat(
        text::decimal_text(p.uptime_secs).as_str(),
    ).concat(", routes: [").concat(words::join(&routes, ", ").as_str()).concat("] }")
}

impl Response {
    /// The response as it is shown in notices.
    pub fn debug_text(&self) -> (r: String)
        ensures
            r@ == response_debug(self@),
    {
        match self {
            Response::Pong => "Pong".to_owned(),
            Response::Done => "Ok".to_owned(),
            Response::Error { message } => "Error { message: ".to_owned().concat(
                text::debug_string(message.as_str()).as_str(),
            ).concat(" }"),
            Response::Status { projects } => {
                let mut parts: Vec<String> = Vec::new();
                let ghost want = runtimes(projects@).map_values(|p: Runtime| runtime_debug(p));
                for i in 0..projects.len()
                    invariant
                        want == runtimes(projects@).map_values(|p: Runtime| runtime_debug(p)),
                        text::views(parts@) == want.take(i as int),
                {
                    let ghost before = text::views(parts@);
                    parts.push(runtime_debug_text(&projects[i]));
                    assert(text::views(parts@) == before.push(want[i as int]));
                    assert(want.take(i + 1) == want.take(i as int).push(want[i as int]));
                }
                assert(want.take(want.len() as int) == want);
                "Status { projects: [".to_owned().concat(
                    words::join(&parts, ", ").as_str(),
                ).concat("] }")
            },
        }
    }
}

// ---------------------------------------------------------------------------
// Lines
// ---------------------------------------------------------------------------
/// A line without the line feeds and carriage returns at its end.
pub open spec fn unterminated(line: Seq<char>) -> Seq<char>
    decreases line.len(),
{
    if line.len() > 0 && (line.last() == '\n' || line.last() == '\r') {
        unterminated(line.drop_last())
    } else {
        line
    }
}

/// The value that a line holds, or why it holds none.
pub open spec fn decoded(line: Seq<char>) -> Result<json::Json, Seq<char>> {
    let t = unterminated(line);
    if t.len() == 0 {
        Err("empty IPC message"@)
    } else if t.contains('\n') {
        Err("IPC message must be a single line"@)
    } else {
        Ok(json::json_read(t))
    }
}

fn decode_line(line: &str) -> (r: Result<Node, String>)
    ensures
        match (r, decoded(line@)) {
            (Ok(v), Ok(j)) => v@ == j,
            (Err(a), Err(b)) => a@ == b,
            _ => false,
        },
{
    let cs = text::to_chars(line);
    let mut end: usize = cs.len();
    assert(cs@.take(end as int) == cs@);
    while end > 0 && (cs[end - 1] == '\n' || cs[end - 1] == '\r')
        invariant
            end <= cs@.len(),
            unterminated(cs@.take(end as int)) == unterminated(cs@),
        decreases end,
    {
        assert(cs@.take(end as int).drop_last() == cs@.take(end - 1));
        end = end - 1;
    }
    let trimmed = text::from_range(&cs, 0, end);
    assert(trimmed@ == cs@.take(end as int));
    if end == 0 {
        return Err("empty IPC message".to_owned());
    }
    if words::has_char(&text::to_chars(trimmed.as_str()), '\n') {
        return Err("IPC message must be a single line".to_owned());
    }
    Ok(json::read_text(trimmed.as_str()))
}

proof fn lemma_terminated_once(t: Seq<char>)
    requires
        t.len() > 0,
        !t.contains('\n'),
        !t.contains('\r'),
    ensures
        unterminated(t.push('\n')) == t,
{
    assert(t.push('\n').drop_last() == t);
    assert(t.contains(t.last()));
    assert(unterminated(t) == t);
}

/// Whether a line feed ends a text and no line break stands inside it.
pub open spec fn is_one_line(line: Seq<char>) -> bool {
    &&& line.len() > 1
    &&& line.last() == '\n'
    &&& !line.drop_last().contains('\n')
    &&& !line.contains('\r')
}

/// Puts a value on a line of its own.
fn encode_line(v: &serde_json::Value) -> (r: Result<String, String>)
    requires
        json::is_readable(json::json_tree(*v), json::LEVELS as nat),
    ensures
        match r {
            Ok(line) => {
                &&& line@ == json::json_text(json::json_tree(*v)).push('\n')
                &&& is_one_line(line@)
                &&& decoded(line@) == Ok::<json::Json, Seq<char>>(json::json_tree(*v))
            },
            Err(_) => false,
        },
{
    proof {
        json::lemma_readable_plain(json::json_tree(*v), json::LEVELS as nat, 127);
    }
    match json::compact_text(v) {
        Some(t) => {
            let ghost body = t@;
            proof {
                lemma_terminated_once(body);
                json::read_what_was_written(body, json::json_tree(*v), json::LEVELS as nat);
            }
            let mut line = t;
            line.push('\n');
            assert(line@.drop_last() == body);
            assert(forall|i: int| 0 <= i < body.len() ==> line@[i] == body[i]);
            Ok(line)
        },
        None => Err("failed to serialize IPC message".to_owned()),
    }
}

/// The request on a line, or why there is none.
pub open spec fn decoded_request(line: Seq<char>) -> Result<Req, Seq<char>> {
    match decoded(line) {
        Ok(j) => match request_in(j) {
            Some(r) => Ok(r),
            None => Err("failed to parse IPC message"@),
        },
        Err(m) => Err(m),
    }
}

/// The response on a line, or why there is none.
pub open spec fn decoded_response(line: Seq<char>) -> Result<Resp, Seq<char>> {
    match decoded(line) {
        Ok(j) => match response_in(j) {
            Some(r) => Ok(r),
            None => Err("failed to parse IPC message"@),
        },
        Err(m) => Err(m),
    }
}

/// Puts a request on a line, from which it reads back.
pub fn encode_request(req: &Request) -> (r: Result<String, String>)
    ensures
        match r {
            Ok(line) => {
                &&& line@ == json::json_text(request_json(req@)).push('\n')
                &&& is_one_line(line@)
                &&& decoded_request(line@) == Ok::<Req, Seq<char>>(req@)
            },
            Err(_) => false,
        },
{
    proof {
        request_reads_back(req@);
    }
    encode_line(&request_value(req))
}

/// Reads a request from a line.
pub fn decode_request(line: &str) -> (r: Result<Request, String>)
    ensures
        match (r, decoded_request(line@)) {
            (Ok(a), Ok(b)) => a@ == b,
            (Err(a), Err(b)) => a@ == b,
            _ => false,
        },
{
    match decode_line(line) {
        Ok(v) => match request_from_node(v) {
            Some(q) => Ok(q),
            None => Err("failed to parse IPC message".to_owned()),
        },
        Err(m) => Err(m),
    }
}

/// Puts a response on a line, from which it reads back.
pub fn encode_response(res: &Response) -> (r: Result<String, String>)
    ensures
        match r {
            Ok(line) => {
                &&& line@ == json::json_text(response_json(res@)).push('\n')
                &&& is_one_line(line@)
                &&& decoded_response(line@) == Ok::<Resp, Seq<char>>(res@)
            },
            Err(_) => false,
        },
{
    proof {
        response_reads_back(res@);
    }
    encode_line(&response_value(res))
}

/// Reads a response from a line.
pub fn decode_response(line: &str) -> (r: Result<Response, String>)
    ensures
        match (r, decoded_response(line@)) {
            (Ok(a), Ok(b)) => a@ == b,
            (Err(a), Err(b)) => a@ == b,
            _ => false,
        },
{
    match decode_line(line) {
        Ok(v) => match response_from_node(v) {
            Some(q) => Ok(q),
            None => Err("failed to parse IPC message".to_owned()),
        },
        Err(m) => Err(m),
    }
}

// ---------------------------------------------------------------------------
// Laws
// ---------------------------------------------------------------------------
pub(crate) proof fn lemma_single(name: Seq<char>, value: json::Json, depth: nat)
    requires
        depth > 0,
        json::is_readable(value, (depth - 1) as nat),
    ensures
        json::is_readable(json::single(name, value), depth),
        json::field(seq![(name, value)], name) == Some(value),
        tagged(json::single(name, value)) == Some((name, Some(value))),
        only_field(Some(json::single(name, value)), name) == Some(value),
{
    let f = seq![(name, value)];
    assert(f.last() == (name, value));
    assert(json::distinct_names(f));
    json::lemma_field_at(f, 0);
    assert forall|i: int| 0 <= i < f.len() implies json::is_readable(
        (#[trigger] f[i]).1,
        (depth - 1) as nat,
    ) by {
        assert(f[i] == (name, value));
    }
}

pub(crate) proof fn lemma_tags()
    ensures
        "Ping"@ != "Status"@,
        "Ping"@ != "Up"@,
        "Ping"@ != "Down"@,
        "Status"@ != "Up"@,
        "Status"@ != "Down"@,
        "Up"@ != "Down"@,
        "Pong"@ != "Ok"@,
        "Pong"@ != "Error"@,
        "Pong"@ != "Status"@,
        "Ok"@ != "Error"@,
        "Ok"@ != "Status"@,
        "Error"@ != "Status"@,
{
    reveal_strlit("Ping");
    reveal_strlit("Status");
    reveal_strlit("Up");
    reveal_strlit("Down");
    reveal_strlit("Pong");
    reveal_strlit("Ok");
    reveal_strlit("Error");
    assert("Ping"@[0] == 'P');
    assert("Status"@.len() == 6);
    assert("Up"@.len() == 2);
    assert("Down"@[0] == 'D');
    assert("Pong"@.len() == 4);
    assert("Ok"@.len() == 2);
    assert("Error"@.len() == 5);
    assert("Down"@.len() == 4);
    assert("Ping"@.len() == 4);
}

/// The value of a request reads as that request.
pub proof fn request_reads_back(r: Req)
    ensures
        request_in(request_json(r)) == Some(r),
        json::is_readable(request_json(r), json::LEVELS as nat),
{
    lemma_tags();
    match r {
        Req::Up { project } => {
            let text = json::Json::Text(project);
            lemma_single("project"@, text, 4);
            lemma_single("Up"@, json::single("project"@, text), json::LEVELS as nat);
        },
        Req::Down { project } => {
            let text = json::Json::Text(project);
            lemma_single("project"@, text, 4);
            lemma_single("Down"@, json::single("project"@, text), json::LEVELS as nat);
        },
        _ => {},
    }
}

proof fn lemma_texts_read_back(list: Seq<Seq<char>>, depth: nat)
    requires
        depth > 0,
    ensures
        texts_in(texts_json(list)->List_0) == Some(list),
        json::is_readable(texts_json(list), depth),
{
    let l = texts_json(list)->List_0;
    assert(l.map_values(|j: json::Json| j->Text_0) == list);
    assert forall|i: int| 0 <= i < l.len() implies json::is_readable(
        #[trigger] l[i],
        (depth - 1) as nat,
    ) by {
        assert(l[i] == json::Json::Text(list[i]));
    }
}

proof fn lemma_runtime_reads_back(p: Runtime, depth: nat)
    requires
        depth > 1,
    ensures
        runtime_in(runtime_json(p)) == Some(p),
        json::is_readable(runtime_json(p), depth),
{
    lemma_runtime_names();
    lemma_texts_read_back(p.routes, (depth - 1) as nat);
    let f = runtime_json(p)->Object_0;
    assert(json::distinct_names(f));
    json::lemma_field_at(f, 0);
    json::lemma_field_at(f, 1);
    json::lemma_field_at(f, 2);
    json::lemma_field_at(f, 3);
    json::lemma_field_at(f, 4);
    assert forall|i: int| 0 <= i < f.len() implies json::is_readable(
        (#[trigger] f[i]).1,
        (depth - 1) as nat,
    ) by {
        assert(i == 0 || i == 1 || i == 2 || i == 3 || i == 4);
    }
}

/// The value of a response reads as that response.
pub proof fn response_reads_back(r: Resp)
    ensures
        response_in(response_json(r)) == Some(r),
        json::is_readable(response_json(r), json::LEVELS as nat),
{
    lemma_tags();
    match r {
        Resp::Error { message } => {
            let text = json::Json::Text(message);
            lemma_single("message"@, text, 4);
            lemma_single("Error"@, json::single("message"@, text), json::LEVELS as nat);
        },
        Resp::Status { projects } => {
            let l = projects.map_values(|p: Runtime| runtime_json(p));
            assert forall|i: int| 0 <= i < l.len() implies runtime_in(#[trigger] l[i]) == Some(
                projects[i],
            ) && json::is_readable(l[i], 2) by {
                lemma_runtime_reads_back(projects[i], 2);
            }
            assert(l.map_values(|j: json::Json| runtime_in(j)->0) == projects);
            assert(json::is_readable(json::Json::List(l), 3));
            lemma_single("projects"@, json::Json::List(l), 4);
            lemma_single("Status"@, json::single("projects"@, json::Json::List(l)), json::LEVELS as nat);
        },
        _ => {},
    }
}

} // verus!
