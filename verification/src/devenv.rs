//! What a project declares in its `devenv.nix`: its name and its services.
use crate::nix;
use crate::nix::{Binding, NixLit};
use crate::paths;
use crate::text;
use crate::words;
use crate::writing;
use vstd::prelude::*;
use vstd::string::*;
use vstd::utf8::*;

verus! {

// ---------------------------------------------------------------------------
// Names
// ---------------------------------------------------------------------------
/// Lower-case letters, digits and hyphens, at most 63 of them, with a hyphen
/// at neither end: what a DNS label allows.
pub open spec fn valid_name(name: Seq<char>) -> bool {
    &&& 0 < name.len() <= 63
    &&& forall|i: int|
        0 <= i < name.len() ==> text::is_lower(#[trigger] name[i]) || text::is_digit(name[i])
            || name[i] == '-'
    &&& name[0] != '-'
    &&& name.last() != '-'
}

/// Whether `name` can be the name of a project.
pub fn is_valid_project_name(name: &str) -> (r: bool)
    ensures
        r == valid_name(name@),
{
    let cs = text::to_chars(name);
    if cs.len() == 0 || cs.len() > 63 {
        return false;
    }
    for i in 0..cs.len()
        invariant
            cs@ == name@,
            forall|j: int|
                0 <= j < i ==> text::is_lower(#[trigger] cs@[j]) || text::is_digit(cs@[j])
                    || cs@[j] == '-',
    {
        let c: char = cs[i];
        if !(('a' <= c && c <= 'z') || ('0' <= c && c <= '9') || c == '-') {
            assert(!text::is_lower(name@[i as int]));
            return false;
        }
    }
    cs[0] != '-' && cs[cs.len() - 1] != '-'
}

/// Whether `name` can be the name of a service.
pub fn is_valid_service_name(name: &str) -> (r: bool)
    ensures
        r == valid_name(name@),
{
    is_valid_project_name(name)
}

/// A bare file name: not empty, no directory in it, not `.` or `..`, and not
/// the word `tcp`.
pub open spec fn valid_socket(name: Seq<char>) -> bool {
    &&& name.len() > 0
    &&& name != "tcp"@
    &&& !name.contains('/')
    &&& !name.contains('\0')
    &&& name != "."@
    &&& name != ".."@
}

/// Whether `name` can be the file name of a socket.
pub fn is_valid_socket_file(name: &str) -> (r: bool)
    ensures
        r == valid_socket(name@),
{
    let cs = text::to_chars(name);
    cs.len() > 0 && !text::same(name, "tcp") && !words::has_char(&cs, '/') && !words::has_char(
        &cs,
        '\0',
    ) && !text::same(name, ".") && !text::same(name, "..")
}

/// A letter or digit in upper case; an underscore for anything else.
pub open spec fn key_char(c: char) -> char {
    if text::is_lower(c) || text::is_upper(c) || text::is_digit(c) {
        text::upper(c)
    } else {
        '_'
    }
}

/// A service name as part of the name of an environment variable.
pub open spec fn service_key(service: Seq<char>) -> Seq<char> {
    service.map_values(|c: char| key_char(c))
}

/// Normalizes a service name for environment variables: `api-backend` becomes
/// `API_BACKEND`.
pub fn env_service_key(service: &str) -> (r: String)
    ensures
        r@ == service_key(service@),
{
    let cs = text::to_chars(service);
    let mut r = String::new();
    for i in 0..cs.len()
        invariant
            cs@ == service@,
            r@ == service_key(service@).take(i as int),
    {
        let c: char = cs[i];
        if ('a' <= c && c <= 'z') || ('A' <= c && c <= 'Z') || ('0' <= c && c <= '9') {
            r.push(text::to_upper(c));
        } else {
            r.push('_');
        }
        assert(service_key(service@).take(i + 1) == service_key(service@).take(i as int).push(
            key_char(c),
        ));
    }
    assert(service_key(service@).take(service@.len() as int) == service_key(service@));
    r
}

/// The environment variable that holds the port of a service.
pub open spec fn port_var(service: Seq<char>) -> Seq<char> {
    "NEALS_"@ + service_key(service) + "_PORT"@
}

/// The environment variable that holds the port of a service: `redis` gives
/// `NEALS_REDIS_PORT`.
pub fn env_port_var(service: &str) -> (r: String)
    ensures
        r@ == port_var(service@),
{
    "NEALS_".to_owned().concat(env_service_key(service).as_str()).concat("_PORT")
}

/// Two service names that are valid and give the same variable are the same.
pub proof fn port_vars_distinct(a: Seq<char>, b: Seq<char>)
    requires
        valid_name(a),
        valid_name(b),
        port_var(a) == port_var(b),
    ensures
        a == b,
{
    let ka = service_key(a);
    let kb = service_key(b);
    let pre = "NEALS_"@;
    let post = "_PORT"@;
    assert(port_var(a).len() == pre.len() + a.len() + post.len());
    assert(port_var(b).len() == pre.len() + b.len() + post.len());
    assert forall|i: int| 0 <= i < a.len() implies a[i] == b[i] by {
        assert(port_var(a)[pre.len() + i] == ka[i]);
        assert(port_var(b)[pre.len() + i] == kb[i]);
        assert(ka[i] == key_char(a[i]));
        assert(kb[i] == key_char(b[i]));
    }
    assert(a == b);
}

/// The host name under which a service of a project is reached.
pub open spec fn host_name(service: Seq<char>, project: Seq<char>) -> Seq<char> {
    service + "."@ + project + ".localhost"@
}

/// The host name under which a service of a project is reached.
pub fn host_text(service: &str, project: &str) -> (r: String)
    ensures
        r@ == host_name(service@, project@),
{
    service.to_owned().concat(".").concat(project).concat(".localhost")
}

proof fn lemma_first_dot(s: Seq<char>, rest: Seq<char>)
    requires
        valid_name(s),
    ensures
        words::until(s + "."@ + rest, '.') == s.len(),
{
    reveal_strlit(".");
    assert(!s.contains('.'));
    words::lemma_until(s, "."@ + rest, '.');
    assert(s + ("."@ + rest) == s + "."@ + rest);
}

/// Two pairs of a service and a project have the same host name only if they
/// are the same pair.
pub proof fn host_names_distinct(s: Seq<char>, p: Seq<char>, t: Seq<char>, q: Seq<char>)
    requires
        valid_name(s),
        valid_name(t),
        host_name(s, p) == host_name(t, q),
    ensures
        s == t,
        p == q,
{
    let a = host_name(s, p);
    let b = host_name(t, q);
    let end = ".localhost"@;
    assert(a == s + "."@ + (p + end));
    assert(b == t + "."@ + (q + end));
    lemma_first_dot(s, p + end);
    lemma_first_dot(t, q + end);
    assert(a.take(s.len() as int) == s);
    assert(b.take(t.len() as int) == t);
    let at = s.len() + "."@.len() as int;
    assert(a.subrange(at, at + p.len()) == p);
    assert(b.subrange(at, at + q.len()) == q);
}

// ---------------------------------------------------------------------------
// Declarations
// ---------------------------------------------------------------------------
/// The name of a project and where it comes from.
#[derive(Debug, Clone, PartialEq, Eq)]
pub enum ProjectName {
    FromDevenv(String),
    Fallback(String),
}

impl ProjectName {
    /// The name itself.
    pub open spec fn name(&self) -> Seq<char> {
        match self {
            ProjectName::FromDevenv(n) => n@,
            ProjectName::Fallback(n) => n@,
        }
    }

    /// The name itself.
    pub fn as_str(&self) -> (r: &str)
        ensures
            r@ == self.name(),
    {
        match self {
            ProjectName::FromDevenv(name) => name.as_str(),
            ProjectName::Fallback(name) => name.as_str(),
        }
    }

    /// Whether the name is that of the folder.
    pub fn is_fallback(&self) -> (r: bool)
        ensures
            r == (self is Fallback),
    {
        matches!(self, ProjectName::Fallback(_))
    }
}

/// How a service is exposed.
#[derive(Debug, Clone, PartialEq, Eq)]
pub enum ServiceKind {
    /// TCP with the port to start the search at, or any free port.
    Tcp { preferred_port: Option<u16>, proxy: bool },
    Unix { socket_file: String },
}

/// A declared service.
#[derive(Debug, Clone, PartialEq, Eq)]
pub struct ServiceDecl {
    pub service: String,
    pub kind: ServiceKind,
}

/// How a service is exposed.
pub enum Kind {
    Tcp { preferred_port: Option<u16>, proxy: bool },
    Unix { socket_file: Seq<char> },
}

/// A declared service.
pub struct Service {
    pub service: Seq<char>,
    pub kind: Kind,
}

impl View for ServiceKind {
    type V = Kind;

    open spec fn view(&self) -> Kind {
        match self {
            ServiceKind::Tcp { preferred_port, proxy } => Kind::Tcp {
                preferred_port: *preferred_port,
                proxy: *proxy,
            },
            ServiceKind::Unix { socket_file } => Kind::Unix { socket_file: socket_file@ },
        }
    }
}

impl View for ServiceDecl {
    type V = Service;

    open spec fn view(&self) -> Service {
        Service { service: self.service@, kind: self.kind@ }
    }
}

/// What a list of declarations says.
pub open spec fn services(list: Seq<ServiceDecl>) -> Seq<Service> {
    list.map_values(|d: ServiceDecl| d@)
}

impl ServiceDecl {
    /// The host name of the service in a project.
    pub fn public_host(&self, project: &str) -> (r: String)
        ensures
            r@ == host_name(self@.service, project@),
    {
        host_text(self.service.as_str(), project)
    }

    /// Whether the service listens on a UNIX socket.
    pub fn is_unix(&self) -> (r: bool)
        ensures
            r == (self@.kind is Unix),
    {
        matches!(self.kind, ServiceKind::Unix { .. })
    }

    /// Whether the service gets an HTTP route.
    pub fn wants_proxy(&self) -> (r: bool)
        ensures
            r == match self@.kind {
                Kind::Tcp { proxy, .. } => proxy,
                Kind::Unix { .. } => true,
            },
    {
        match &self.kind {
            ServiceKind::Tcp { proxy, .. } => *proxy,
            ServiceKind::Unix { .. } => true,
        }
    }
}

/// The older, coarser form of `ServiceKind`.
#[derive(Debug, Clone, PartialEq, Eq)]
pub enum RouteKind {
    Unix { socket_file: String },
    Tcp,
}

/// The older, coarser form of `ServiceDecl`.
#[derive(Debug, Clone, PartialEq, Eq)]
pub struct RouteDecl {
    pub service: String,
    pub kind: RouteKind,
}

impl RouteDecl {
    /// The host name of the service in a project.
    pub fn public_host(&self, project: &str) -> (r: String)
        ensures
            r@ == host_name(self.service@, project@),
    {
        host_text(self.service.as_str(), project)
    }
}

/// Whether a route is the coarser form of a service.
pub open spec fn is_route_of(r: RouteDecl, s: Service) -> bool {
    &&& r.service@ == s.service
    &&& match (r.kind, s.kind) {
        (RouteKind::Unix { socket_file: a }, Kind::Unix { socket_file: b }) => a@ == b,
        (RouteKind::Tcp, Kind::Tcp { .. }) => true,
        _ => false,
    }
}

/// The services in their coarser form, in the same order.
pub fn to_routes(list: Vec<ServiceDecl>) -> (r: Vec<RouteDecl>)
    ensures
        r@.len() == list@.len(),
        forall|i: int| 0 <= i < r@.len() ==> is_route_of(#[trigger] r@[i], list@[i]@),
{
    let mut r: Vec<RouteDecl> = Vec::new();
    for i in 0..list.len()
        invariant
            r@.len() == i,
            forall|j: int| 0 <= j < i ==> is_route_of(#[trigger] r@[j], list@[j]@),
    {
        let kind = match &list[i].kind {
            ServiceKind::Unix { socket_file } => RouteKind::Unix {
                socket_file: socket_file.clone(),
            },
            ServiceKind::Tcp { .. } => RouteKind::Tcp,
        };
        r.push(RouteDecl { service: list[i].service.clone(), kind });
    }
    r
}

// ---------------------------------------------------------------------------
// From bindings to services
// ---------------------------------------------------------------------------
/// How a service is named in messages.
pub open spec fn service_label(service: Seq<char>) -> Seq<char> {
    "neals.services."@ + service
}

fn service_text(service: &str) -> (r: String)
    ensures
        r@ == service_label(service@),
{
    "neals.services.".to_owned().concat(service)
}

/// How a field of a service is named in messages.
pub open spec fn field_label(service: Seq<char>, field: Seq<char>) -> Seq<char> {
    "`"@ + service_label(service) + "."@ + field + "`"@
}

fn field_text(service: &str, field: &str) -> (r: String)
    ensures
        r@ == field_label(service@, field@),
{
    "`".to_owned().concat(service_text(service).as_str()).concat(".").concat(field).concat("`")
}

/// The message on a socket that is no bare file name.
pub open spec fn bad_socket(service: Seq<char>, socket: Seq<char>) -> Seq<char> {
    "invalid "@ + service_label(service) + ".socket `"@ + socket
        + "` (expected a bare filename like backend.sock)"@
}

/// What is wrong with the value of a field of a service.
pub open spec fn field_problem(service: Seq<char>, field: Seq<char>, value: nix::Lit) -> Option<
    Seq<char>,
> {
    if field == "port"@ {
        match value {
            nix::Lit::Int(n) => if 1 <= n <= 65535 {
                None
            } else {
                Some(
                    field_label(service, field) + " must be in 1..=65535, got "@
                        + text::signed_decimal(n as int),
                )
            },
            _ => Some(field_label(service, field) + " must be an integer literal"@),
        }
    } else if field == "proxy"@ {
        match value {
            nix::Lit::Bool(_) => None,
            _ => Some(field_label(service, field) + " must be a boolean literal (true/false)"@),
        }
    } else if field == "socket"@ {
        match value {
            nix::Lit::Str(s) => if valid_socket(s) {
                None
            } else {
                Some(bad_socket(service, s))
            },
            _ => Some(field_label(service, field) + " must be a string literal"@),
        }
    } else {
        Some("unknown "@ + service_label(service) + " field `"@ + field + "`"@)
    }
}

fn check_field(service: &str, field: &str, value: &NixLit) -> (r: Option<String>)
    ensures
        match (r, field_problem(service@, field@, value@)) {
            (Some(a), Some(b)) => a@ == b,
            (None, None) => true,
            _ => false,
        },
{
    if text::same(field, "port") {
        match value {
            NixLit::Int(n) => if 1 <= *n && *n <= 65535 {
                None
            } else {
                Some(
                    field_text(service, field).concat(" must be in 1..=65535, got ").concat(
                        text::signed_text(*n).as_str(),
                    ),
                )
            },
            _ => Some(field_text(service, field).concat(" must be an integer literal")),
        }
    } else if text::same(field, "proxy") {
        match value {
            NixLit::Bool(_) => None,
            _ => Some(field_text(service, field).concat(" must be a boolean literal (true/false)")),
        }
    } else if text::same(field, "socket") {
        match value {
            NixLit::Str(s) => if is_valid_socket_file(s.as_str()) {
                None
            } else {
                Some(
                    "invalid ".to_owned().concat(service_text(service).as_str()).concat(
                        ".socket `",
                    ).concat(s.as_str()).concat("` (expected a bare filename like backend.sock)"),
                )
            },
            _ => Some(field_text(service, field).concat(" must be a string literal")),
        }
    } else {
        Some(
            "unknown ".to_owned().concat(service_text(service).as_str()).concat(" field `").concat(
                field,
            ).concat("`"),
        )
    }
}

/// Whether a binding belongs to `services.<name>`.
pub open spec fn is_service_binding(b: nix::Bound) -> bool {
    b.path.len() >= 2 && b.path[0] == "services"@
}

/// What is wrong with a binding below `services`.
pub open spec fn service_problem(b: nix::Bound) -> Option<Seq<char>> {
    if !is_service_binding(b) {
        None
    } else if !valid_name(b.path[1]) {
        Some("invalid neals.services service name `"@ + b.path[1] + "`"@)
    } else if b.path.len() == 2 {
        Some(
            service_label(b.path[1])
                + " must be an attrset (e.g. { port = 6379; } or { port = 8025; proxy = true; })"@,
        )
    } else if b.path.len() != 3 {
        Some("unsupported neals.services path `"@ + nix::dotted(b.path) + "`"@)
    } else {
        field_problem(b.path[1], b.path[2], b.value)
    }
}

fn check_service_binding(b: &Binding) -> (r: Option<String>)
    ensures
        match (r, service_problem(b@)) {
            (Some(x), Some(y)) => x@ == y,
            (None, None) => true,
            _ => false,
        },
{
    if b.path.len() < 2 || !text::same(b.path[0].as_str(), "services") {
        return None;
    }
    let service = b.path[1].as_str();
    if !is_valid_service_name(service) {
        return Some(
            "invalid neals.services service name `".to_owned().concat(service).concat("`"),
        );
    }
    if b.path.len() == 2 {
        return Some(
            service_text(service).concat(
                " must be an attrset (e.g. { port = 6379; } or { port = 8025; proxy = true; })",
            ),
        );
    }
    if b.path.len() != 3 {
        return Some(
            "unsupported neals.services path `".to_owned().concat(
                words::join(&b.path, ".").as_str(),
            ).concat("`"),
        );
    }
    check_field(service, b.path[2].as_str(), &b.value)
}

/// The first complaint about the bindings below `services`.
pub open spec fn first_service_problem(list: Seq<nix::Bound>) -> Option<Seq<char>>
    decreases list.len(),
{
    if list.len() == 0 {
        None
    } else {
        match first_service_problem(list.drop_last()) {
            Some(m) => Some(m),
            None => service_problem(list.last()),
        }
    }
}

pub(crate) proof fn lemma_first_service_problem(list: Seq<nix::Bound>, i: int)
    requires
        0 <= i <= list.len(),
        first_service_problem(list.take(i)) is Some,
    ensures
        first_service_problem(list) == first_service_problem(list.take(i)),
    decreases list.len() - i,
{
    if i < list.len() {
        assert(list.take(i + 1).drop_last() == list.take(i));
        lemma_first_service_problem(list, i + 1);
    } else {
        assert(list.take(i) == list);
    }
}

fn check_service_bindings(list: &Vec<Binding>) -> (r: Option<String>)
    ensures
        match (r, first_service_problem(nix::bounds(list@))) {
            (Some(a), Some(b)) => a@ == b,
            (None, None) => true,
            _ => false,
        },
{
    let ghost all = nix::bounds(list@);
    for i in 0..list.len()
        invariant
            all == nix::bounds(list@),
            first_service_problem(all.take(i as int)) is None,
    {
        assert(all.take(i + 1).drop_last() == all.take(i as int));
        assert(all[i as int] == list@[i as int]@);
        if let Some(m) = check_service_binding(&list[i]) {
            proof {
                lemma_first_service_problem(all, i + 1);
            }
            return Some(m);
        }
    }
    assert(all.take(all.len() as int) == all);
    None
}

/// The services that bindings speak of, in the order in which they come up.
pub open spec fn service_names(list: Seq<nix::Bound>) -> Seq<Seq<char>>
    decreases list.len(),
{
    if list.len() == 0 {
        Seq::empty()
    } else {
        let names = service_names(list.drop_last());
        let last = list.last();
        if is_service_binding(last) && !names.contains(last.path[1]) {
            names.push(last.path[1])
        } else {
            names
        }
    }
}

fn collect_service_names(list: &Vec<Binding>) -> (r: Vec<String>)
    ensures
        text::views(r@) == service_names(nix::bounds(list@)),
{
    let ghost all = nix::bounds(list@);
    let mut r: Vec<String> = Vec::new();
    for i in 0..list.len()
        invariant
            all == nix::bounds(list@),
            text::views(r@) == service_names(all.take(i as int)),
    {
        assert(all.take(i + 1).drop_last() == all.take(i as int));
        let path = &list[i].path;
        if path.len() >= 2 && text::same(path[0].as_str(), "services") && !text::holds(
            &r,
            path[1].as_str(),
        ) {
            let ghost before = text::views(r@);
            r.push(path[1].clone());
            assert(text::views(r@) == before.push(path@[1]@));
        }
    }
    assert(all.take(all.len() as int) == all);
    r
}

/// What the bindings say of one service.
pub struct Draft {
    pub port: Option<u16>,
    pub proxy: Option<bool>,
    pub socket: Option<Seq<char>>,
}

/// Where a field of a service is bound.
pub open spec fn field_path(service: Seq<char>, field: Seq<char>) -> Seq<Seq<char>> {
    seq!["services"@, service, field]
}

/// What the bindings say of one service.
pub open spec fn draft_of(list: Seq<nix::Bound>, service: Seq<char>) -> Draft {
    Draft {
        port: match nix::value_at(list, field_path(service, "port"@)) {
            Some(nix::Lit::Int(n)) => Some(n as u16),
            _ => None,
        },
        proxy: match nix::value_at(list, field_path(service, "proxy"@)) {
            Some(nix::Lit::Bool(b)) => Some(b),
            _ => None,
        },
        socket: match nix::value_at(list, field_path(service, "socket"@)) {
            Some(nix::Lit::Str(s)) => Some(s),
            _ => None,
        },
    }
}

/// How a service is exposed by what is said of it, or why it cannot be.
pub open spec fn kind_of(service: Seq<char>, d: Draft) -> Result<Kind, Seq<char>> {
    match (d.port, d.socket) {
        (Some(port), None) => Ok(
            Kind::Tcp { preferred_port: Some(port), proxy: d.proxy == Some(true) },
        ),
        (None, Some(socket_file)) => if d.proxy == Some(false) {
            Err(
                service_label(service)
                    + ".socket cannot set proxy = false (UNIX services are always reverse-proxied)"@,
            )
        } else {
            Ok(Kind::Unix { socket_file })
        },
        (Some(_), Some(_)) => Err(service_label(service) + " cannot set both port and socket"@),
        (None, None) => Err(
            service_label(service) + " needs port = <n> or socket = \"file.sock\""@,
        ),
    }
}

/// The fields of one service.
struct ServiceDraft {
    port: Option<u16>,
    proxy: Option<bool>,
    socket: Option<String>,
}

impl ServiceDraft {
    spec fn draft(&self) -> Draft {
        Draft {
            port: self.port,
            proxy: self.proxy,
            socket: match self.socket {
                Some(s) => Some(s@),
                None => None,
            },
        }
    }

    fn into_decl(self, service: &str) -> (r: Result<ServiceDecl, String>)
        ensures
            match (r, kind_of(service@, self.draft())) {
                (Ok(d), Ok(k)) => d@ == (Service { service: service@, kind: k }),
                (Err(a), Err(b)) => a@ == b,
                _ => false,
            },
    {
        match (self.port, self.socket) {
            (Some(port), None) => Ok(
                ServiceDecl {
                    service: service.to_owned(),
                    kind: ServiceKind::Tcp {
                        preferred_port: Some(port),
                        proxy: match self.proxy {
                            Some(b) => b,
                            None => false,
                        },
                    },
                },
            ),
            (None, Some(socket_file)) => match self.proxy {
                Some(false) => Err(
                    service_text(service).concat(
                        ".socket cannot set proxy = false (UNIX services are always reverse-proxied)",
                    ),
                ),
                _ => Ok(
                    ServiceDecl {
                        service: service.to_owned(),
                        kind: ServiceKind::Unix { socket_file },
                    },
                ),
            },
            (Some(_), Some(_)) => Err(
                service_text(service).concat(" cannot set both port and socket"),
            ),
            (None, None) => Err(
                service_text(service).concat(" needs port = <n> or socket = \"file.sock\""),
            ),
        }
    }
}

fn find_field<'a>(list: &'a Vec<Binding>, service: &str, field: &str) -> (r: Option<&'a NixLit>)
    ensures
        match r {
            Some(v) => nix::value_at(nix::bounds(list@), field_path(service@, field@)) == Some(v@),
            None => nix::value_at(nix::bounds(list@), field_path(service@, field@)) is None,
        },
{
    let mut path: Vec<String> = Vec::new();
    path.push("services".to_owned());
    path.push(service.to_owned());
    path.push(field.to_owned());
    assert(text::views(path@) == field_path(service@, field@));
    nix::find_value(list, &path)
}

fn draft_for(list: &Vec<Binding>, service: &str) -> (r: ServiceDraft)
    requires
        first_service_problem(nix::bounds(list@)) is None,
    ensures
        r.draft() == draft_of(nix::bounds(list@), service@),
{
    let ghost all = nix::bounds(list@);
    ServiceDraft {
        port: match find_field(list, service, "port") {
            Some(NixLit::Int(n)) => {
                proof {
                    lemma_port_in_range(all, service@, *n);
                }
                Some(*n as u16)
            },
            _ => None,
        },
        proxy: match find_field(list, service, "proxy") {
            Some(NixLit::Bool(b)) => Some(*b),
            _ => None,
        },
        socket: match find_field(list, service, "socket") {
            Some(NixLit::Str(s)) => Some(s.clone()),
            _ => None,
        },
    }
}

pub(crate) proof fn lemma_no_service_problem(list: Seq<nix::Bound>, i: int)
    requires
        first_service_problem(list) is None,
        0 <= i < list.len(),
    ensures
        service_problem(list[i]) is None,
    decreases list.len(),
{
    if i < list.len() - 1 {
        lemma_no_service_problem(list.drop_last(), i);
        assert(list.drop_last()[i] == list[i]);
    }
}

pub(crate) proof fn lemma_port_in_range(list: Seq<nix::Bound>, service: Seq<char>, n: i64)
    requires
        first_service_problem(list) is None,
        nix::value_at(list, field_path(service, "port"@)) == Some(nix::Lit::Int(n)),
    ensures
        1 <= n <= 65535,
{
    let path = field_path(service, "port"@);
    nix::lemma_value_at(list, path);
    let i = choose|i: int|
        0 <= i < list.len() && (#[trigger] list[i]).path == path && list[i].value == nix::Lit::Int(
            n,
        );
    lemma_no_service_problem(list, i);
    assert(list[i].path[2] == "port"@);
}

/// The first complaint about what is said of the named services.
pub open spec fn first_draft_problem(list: Seq<nix::Bound>, names: Seq<Seq<char>>) -> Option<
    Seq<char>,
>
    decreases names.len(),
{
    if names.len() == 0 {
        None
    } else {
        match first_draft_problem(list, names.drop_last()) {
            Some(m) => Some(m),
            None => match kind_of(names.last(), draft_of(list, names.last())) {
                Ok(_) => None,
                Err(m) => Some(m),
            },
        }
    }
}

proof fn lemma_first_draft_problem(list: Seq<nix::Bound>, names: Seq<Seq<char>>, i: int)
    requires
        0 <= i <= names.len(),
        first_draft_problem(list, names.take(i)) is Some,
    ensures
        first_draft_problem(list, names) == first_draft_problem(list, names.take(i)),
    decreases names.len() - i,
{
    if i < names.len() {
        assert(names.take(i + 1).drop_last() == names.take(i));
        lemma_first_draft_problem(list, names, i + 1);
    } else {
        assert(names.take(i) == names);
    }
}

/// Whether a binding is a route in the older form.
pub open spec fn is_route_binding(b: nix::Bound) -> bool {
    b.path.len() == 2 && b.path[0] == "route"@
}

/// What a route in the older form stands for.
pub open spec fn route_kind(raw: Seq<char>) -> Option<Kind> {
    if raw == "tcp"@ {
        Some(Kind::Tcp { preferred_port: None, proxy: true })
    } else if valid_socket(raw) {
        Some(Kind::Unix { socket_file: raw })
    } else {
        None
    }
}

/// How a route is named in messages.
pub open spec fn route_label(service: Seq<char>) -> Seq<char> {
    "neals.route."@ + service
}

/// What is wrong with a route, where `names` are declared as services.
pub open spec fn route_problem(names: Seq<Seq<char>>, b: nix::Bound) -> Option<Seq<char>> {
    if !is_route_binding(b) {
        None
    } else if !valid_name(b.path[1]) {
        Some("invalid neals.route service name `"@ + b.path[1] + "`"@)
    } else if names.contains(b.path[1]) {
        Some(
            route_label(b.path[1]) + " conflicts with "@ + service_label(b.path[1])
                + " (use only neals.services)"@,
        )
    } else {
        match b.value {
            nix::Lit::Str(raw) => if route_kind(raw) is Some {
                None
            } else {
                Some(
                    "invalid "@ + route_label(b.path[1]) + " value `"@ + raw
                        + "` (expected \"tcp\" or a bare filename like backend.sock)"@,
                )
            },
            _ => Some(route_label(b.path[1]) + " must be a string literal"@),
        }
    }
}

/// The first complaint about the routes.
pub open spec fn first_route_problem(names: Seq<Seq<char>>, list: Seq<nix::Bound>) -> Option<
    Seq<char>,
>
    decreases list.len(),
{
    if list.len() == 0 {
        None
    } else {
        match first_route_problem(names, list.drop_last()) {
            Some(m) => Some(m),
            None => route_problem(names, list.last()),
        }
    }
}

pub(crate) proof fn lemma_first_route_problem(names: Seq<Seq<char>>, list: Seq<nix::Bound>, i: int)
    requires
        0 <= i <= list.len(),
        first_route_problem(names, list.take(i)) is Some,
    ensures
        first_route_problem(names, list) == first_route_problem(names, list.take(i)),
    decreases list.len() - i,
{
    if i < list.len() {
        assert(list.take(i + 1).drop_last() == list.take(i));
        lemma_first_route_problem(names, list, i + 1);
    } else {
        assert(list.take(i) == list);
    }
}

pub(crate) proof fn lemma_no_route_problem(names: Seq<Seq<char>>, list: Seq<nix::Bound>, i: int)
    requires
        first_route_problem(names, list) is None,
        0 <= i < list.len(),
    ensures
        route_problem(names, list[i]) is None,
    decreases list.len(),
{
    if i < list.len() - 1 {
        lemma_no_route_problem(names, list.drop_last(), i);
        assert(list.drop_last()[i] == list[i]);
    }
}

/// The service of a route, or what is wrong with it.
fn read_route(names: &Vec<String>, b: &Binding) -> (r: Result<ServiceDecl, String>)
    requires
        is_route_binding(b@),
    ensures
        match (r, route_problem(text::views(names@), b@)) {
            (Ok(d), None) => {
                &&& d@.service == b@.path[1]
                &&& b@.value matches nix::Lit::Str(raw) && route_kind(raw) == Some(d@.kind)
            },
            (Err(x), Some(y)) => x@ == y,
            _ => false,
        },
{
    let service = b.path[1].as_str();
    let route = "neals.route.".to_owned().concat(service);
    if !is_valid_service_name(service) {
        return Err("invalid neals.route service name `".to_owned().concat(service).concat("`"));
    }
    if text::holds(names, service) {
        return Err(
            route.concat(" conflicts with ").concat(service_text(service).as_str()).concat(
                " (use only neals.services)",
            ),
        );
    }
    match &b.value {
        NixLit::Str(raw) => if text::same(raw.as_str(), "tcp") {
            Ok(
                ServiceDecl {
                    service: service.to_owned(),
                    kind: ServiceKind::Tcp { preferred_port: None, proxy: true },
                },
            )
        } else if is_valid_socket_file(raw.as_str()) {
            Ok(
                ServiceDecl {
                    service: service.to_owned(),
                    kind: ServiceKind::Unix { socket_file: raw.clone() },
                },
            )
        } else {
            Err(
                "invalid ".to_owned().concat(route.as_str()).concat(" value `").concat(
                    raw.as_str(),
                ).concat("` (expected \"tcp\" or a bare filename like backend.sock)"),
            )
        },
        _ => Err(route.concat(" must be a string literal")),
    }
}

/// The first complaint about a list of bindings.
pub open spec fn services_problem(list: Seq<nix::Bound>) -> Option<Seq<char>> {
    match first_service_problem(list) {
        Some(m) => Some(m),
        None => match first_draft_problem(list, service_names(list)) {
            Some(m) => Some(m),
            None => first_route_problem(service_names(list), list),
        },
    }
}

/// Where a route is bound.
pub open spec fn route_path(service: Seq<char>) -> Seq<Seq<char>> {
    seq!["route"@, service]
}

/// Whether the bindings declare a service, by its fields or by a route.
pub open spec fn declares(list: Seq<nix::Bound>, x: Service) -> bool {
    ||| declares_fields(list, x)
    ||| declares_route(list, x)
}

/// Whether the bindings below `services` declare a service.
pub open spec fn declares_fields(list: Seq<nix::Bound>, x: Service) -> bool {
    &&& service_names(list).contains(x.service)
    &&& kind_of(x.service, draft_of(list, x.service)) == Ok::<Kind, Seq<char>>(x.kind)
}

/// Whether a route declares a service.
pub open spec fn declares_route(list: Seq<nix::Bound>, x: Service) -> bool {
    nix::value_at(list, route_path(x.service)) matches Some(nix::Lit::Str(raw)) && route_kind(raw)
        == Some(x.kind)
}

/// Strictly sorted by name, so that no name occurs twice.
pub open spec fn sorted_by_name(list: Seq<Service>) -> bool {
    forall|i: int, j: int|
        0 <= i < j < list.len() ==> words::before(
            (#[trigger] list[i]).service,
            (#[trigger] list[j]).service,
        )
}

/// Puts a declaration where its name belongs.
fn insert_sorted(list: &mut Vec<ServiceDecl>, d: ServiceDecl)
    requires
        sorted_by_name(services(old(list)@)),
        forall|i: int|
            0 <= i < old(list)@.len() ==> (#[trigger] services(old(list)@)[i]).service
                != d@.service,
    ensures
        sorted_by_name(services(final(list)@)),
        forall|x: Service|
            services(final(list)@).contains(x) <==> services(old(list)@).contains(x) || x == d@,
{
    let ghost before = services(list@);
    let ghost name = d@.service;
    let ghost added = d@;
    let key = text::to_chars(d.service.as_str());
    let mut at: usize = 0;
    while at < list.len() && !words::comes_before(
        &key,
        &text::to_chars(list[at].service.as_str()),
    )
        invariant
            at <= list@.len(),
            before == services(list@),
            key@ == name,
            forall|j: int| 0 <= j < before.len() ==> (#[trigger] before[j]).service != name,
            forall|j: int| 0 <= j < at ==> words::before((#[trigger] before[j]).service, name),
        decreases list@.len() - at,
    {
        proof {
            words::before_total(name, before[at as int].service);
        }
        at = at + 1;
    }
    assert forall|j: int| at <= j < before.len() implies words::before(
        name,
        (#[trigger] before[j]).service,
    ) by {
        if j > at {
            words::before_transitive(name, before[at as int].service, before[j].service);
        }
    }
    list.insert(at, d);
    let ghost after = services(list@);
    assert(after == before.insert(at as int, added));
    assert forall|x: Service| after.contains(x) <==> before.contains(x) || x == added by {
        if after.contains(x) {
            let k = after.index_of(x);
            if k < at {
                assert(before[k] == x);
            } else if k > at {
                assert(before[k - 1] == x);
            }
        }
        if before.contains(x) {
            let k = before.index_of(x);
            if k < at {
                assert(after[k] == x);
            } else {
                assert(after[k + 1] == x);
            }
        }
        if x == added {
            assert(after[at as int] == x);
        }
    }
}

proof fn lemma_names_distinct(list: Seq<nix::Bound>)
    ensures
        service_names(list).no_duplicates(),
    decreases list.len(),
{
    if list.len() > 0 {
        lemma_names_distinct(list.drop_last());
    }
}

/// The services of the first `n` names.
spec fn declared_first(list: Seq<nix::Bound>, n: int, x: Service) -> bool {
    &&& service_names(list).take(n).contains(x.service)
    &&& kind_of(x.service, draft_of(list, x.service)) == Ok::<Kind, Seq<char>>(x.kind)
}

/// Whether a binding is a route to `x`.
spec fn is_route_to(b: nix::Bound, x: Service) -> bool {
    &&& is_route_binding(b)
    &&& b.path[1] == x.service
    &&& b.value matches nix::Lit::Str(raw) && route_kind(raw) == Some(x.kind)
}

/// Whether one of the first `n` bindings is a route to `x`.
spec fn routed_first(list: Seq<nix::Bound>, n: int, x: Service) -> bool {
    exists|j: int| 0 <= j < n && is_route_to(#[trigger] list[j], x)
}

proof fn lemma_routed(list: Seq<nix::Bound>, x: Service)
    requires
        nix::distinct_paths(list),
    ensures
        routed_first(list, list.len() as int, x) == declares_route(list, x),
{
    let path = route_path(x.service);
    nix::lemma_value_at(list, path);
    if routed_first(list, list.len() as int, x) {
        let j = choose|j: int| 0 <= j < list.len() && is_route_to(#[trigger] list[j], x);
        assert(list[j].path == path);
        nix::lemma_found_by_path(list, j);
    }
    if declares_route(list, x) {
        let j = choose|j: int|
            0 <= j < list.len() && (#[trigger] list[j]).path == path && Some(list[j].value)
                == nix::value_at(list, path);
        assert(is_route_binding(list[j]));
    }
}

/// Adds the services that are declared by their fields.
fn add_services(list: &Vec<Binding>, names: &Vec<String>) -> (r: Result<Vec<ServiceDecl>, String>)
    requires
        first_service_problem(nix::bounds(list@)) is None,
        text::views(names@) == service_names(nix::bounds(list@)),
    ensures
        match (r, first_draft_problem(nix::bounds(list@), service_names(nix::bounds(list@)))) {
            (Ok(v), None) => {
                &&& sorted_by_name(services(v@))
                &&& forall|x: Service|
                    services(v@).contains(x) <==> #[trigger] declares_fields(
                        nix::bounds(list@),
                        x,
                    )
            },
            (Err(a), Some(b)) => a@ == b,
            _ => false,
        },
{
    let ghost all = nix::bounds(list@);
    let ghost ns = service_names(all);
    proof {
        lemma_names_distinct(all);
    }
    let mut r: Vec<ServiceDecl> = Vec::new();
    for i in 0..names.len()
        invariant
            all == nix::bounds(list@),
            first_service_problem(all) is None,
            ns == service_names(all),
            ns == text::views(names@),
            ns.no_duplicates(),
            first_draft_problem(all, ns.take(i as int)) is None,
            sorted_by_name(services(r@)),
            forall|x: Service|
                #![trigger services(r@).contains(x)]
                services(r@).contains(x) <==> declared_first(all, i as int, x),
    {
        assert(ns.take(i + 1).drop_last() == ns.take(i as int));
        let name = names[i].as_str();
        assert(name@ == ns[i as int]);
        match draft_for(list, name).into_decl(name) {
            Ok(d) => {
                assert forall|j: int| 0 <= j < r@.len() implies (
                #[trigger] services(r@)[j]).service != d@.service by {
                    let x = services(r@)[j];
                    assert(services(r@).contains(x));
                    assert(declared_first(all, i as int, x));
                    let k = ns.take(i as int).index_of(x.service);
                    assert(ns[k] == x.service);
                }
                let ghost before = services(r@);
                insert_sorted(&mut r, d);
                assert forall|x: Service|
                    #![trigger services(r@).contains(x)]
                    services(r@).contains(x) <==> declared_first(all, i + 1, x) by {
                    assert(before.contains(x) == declared_first(all, i as int, x));
                    assert(ns.take(i + 1) == ns.take(i as int).push(ns[i as int]));
                    if ns.take(i as int).contains(x.service) {
                        let k = ns.take(i as int).index_of(x.service);
                        assert(ns.take(i + 1)[k] == x.service);
                    }
                    if ns.take(i + 1).contains(x.service) {
                        let k = ns.take(i + 1).index_of(x.service);
                        if k < i {
                            assert(ns.take(i as int)[k] == x.service);
                        }
                    }
                    assert(ns.take(i + 1)[i as int] == ns[i as int]);
                }
            },
            Err(m) => {
                proof {
                    lemma_first_draft_problem(all, ns, i + 1);
                }
                return Err(m);
            },
        }
    }
    assert(ns.take(ns.len() as int) == ns);
    assert forall|x: Service| services(r@).contains(x) <==> #[trigger] declares_fields(all, x) by {
        assert(services(r@).contains(x) <==> declared_first(all, ns.len() as int, x));
    }
    Ok(r)
}

/// The services that a list of bindings declares, sorted by name, or the
/// first complaint about the bindings.
pub fn declared_services(list: &Vec<Binding>) -> (r: Result<Vec<ServiceDecl>, String>)
    requires
        nix::distinct_paths(nix::bounds(list@)),
    ensures
        is_service_list(r, nix::bounds(list@)),
{
    let ghost all = nix::bounds(list@);
    if let Some(m) = check_service_bindings(list) {
        return Err(m);
    }
    let names = collect_service_names(list);
    let ghost ns = service_names(all);
    let mut r = match add_services(list, &names) {
        Ok(r) => r,
        Err(m) => {
            return Err(m);
        },
    };
    for i in 0..list.len()
        invariant
            all == nix::bounds(list@),
            nix::distinct_paths(all),
            first_service_problem(all) is None,
            first_draft_problem(all, ns) is None,
            ns == service_names(all),
            ns == text::views(names@),
            first_route_problem(ns, all.take(i as int)) is None,
            sorted_by_name(services(r@)),
            forall|x: Service|
                #![trigger services(r@).contains(x)]
                services(r@).contains(x) <==> declares_fields(all, x) || routed_first(
                    all,
                    i as int,
                    x,
                ),
    {
        assert(all.take(i + 1).drop_last() == all.take(i as int));
        let ghost b = all[i as int];
        let path = &list[i].path;
        let ghost before = services(r@);
        if path.len() == 2 && text::same(path[0].as_str(), "route") {
            assert(is_route_binding(b));
            match read_route(&names, &list[i]) {
                Ok(d) => {
                    let ghost added = d@;
                    assert forall|j: int| 0 <= j < r@.len() implies (
                    #[trigger] services(r@)[j]).service != d@.service by {
                        let x = services(r@)[j];
                        assert(services(r@).contains(x));
                        if routed_first(all, i as int, x) && x.service == d@.service {
                            let k = choose|k: int|
                                0 <= k < i && is_route_to(#[trigger] all[k], x);
                            assert(all[k].path == b.path);
                        }
                    }
                    insert_sorted(&mut r, d);
                    assert forall|x: Service|
                        #![trigger services(r@).contains(x)]
                        services(r@).contains(x) <==> declares_fields(all, x) || routed_first(
                            all,
                            i + 1,
                            x,
                        ) by {
                        lemma_routed_step(all, i as int, x);
                        assert(before.contains(x) == (declares_fields(all, x) || routed_first(
                            all,
                            i as int,
                            x,
                        )));
                    }
                },
                Err(m) => {
                    proof {
                        lemma_first_route_problem(ns, all, i + 1);
                    }
                    return Err(m);
                },
            }
        } else {
            assert(!is_route_binding(b));
            assert forall|x: Service|
                #![trigger services(r@).contains(x)]
                services(r@).contains(x) <==> declares_fields(all, x) || routed_first(
                    all,
                    i + 1,
                    x,
                ) by {
                lemma_routed_step(all, i as int, x);
            }
        }
    }
    assert(all.take(all.len() as int) == all);
    assert forall|x: Service| services(r@).contains(x) <==> #[trigger] declares(all, x) by {
        lemma_routed(all, x);
    }
    Ok(r)
}

proof fn lemma_routed_step(list: Seq<nix::Bound>, n: int, x: Service)
    requires
        0 <= n < list.len(),
    ensures
        routed_first(list, n + 1, x) == (routed_first(list, n, x) || is_route_to(list[n], x)),
{
    if routed_first(list, n + 1, x) {
        let j = choose|j: int| 0 <= j < n + 1 && is_route_to(#[trigger] list[j], x);
        if j < n {
            assert(routed_first(list, n, x));
        }
    }
    if routed_first(list, n, x) {
        let j = choose|j: int| 0 <= j < n && is_route_to(#[trigger] list[j], x);
        assert(routed_first(list, n + 1, x));
    }
}

/// Whether `r` is what a list of bindings declares: all its services and no
/// others, sorted by name, or the first complaint.
pub open spec fn is_service_list(r: Result<Vec<ServiceDecl>, String>, list: Seq<nix::Bound>) -> bool {
    match r {
        Ok(v) => {
            &&& services_problem(list) is None
            &&& sorted_by_name(services(v@))
            &&& forall|x: Service| services(v@).contains(x) <==> #[trigger] declares(list, x)
        },
        Err(m) => services_problem(list) == Some(m@),
    }
}

// ---------------------------------------------------------------------------
// From source text
// ---------------------------------------------------------------------------
/// The project name that a list of bindings declares: a valid name as a
/// string.
pub open spec fn name_in(list: Seq<nix::Bound>) -> Option<Seq<char>> {
    match nix::value_at(list, seq!["name"@]) {
        Some(nix::Lit::Str(n)) => if valid_name(n) {
            Some(n)
        } else {
            None
        },
        _ => None,
    }
}

/// The project name that a list of bindings declares.
pub fn declared_name(list: &Vec<Binding>) -> (r: Option<String>)
    ensures
        match r {
            Some(n) => name_in(nix::bounds(list@)) == Some(n@),
            None => name_in(nix::bounds(list@)) is None,
        },
{
    let mut path: Vec<String> = Vec::new();
    path.push("name".to_owned());
    assert(text::views(path@) == seq!["name"@]);
    match nix::find_value(list, &path) {
        Some(NixLit::Str(n)) => if is_valid_project_name(n.as_str()) {
            Some(n.clone())
        } else {
            None
        },
        _ => None,
    }
}

/// The project name that a source text declares. A text with a reason against
/// it declares none.
pub open spec fn source_name(src: Seq<char>) -> Option<Seq<char>> {
    match nix::source_literals(src) {
        Ok(list) => name_in(list),
        Err(_) => None,
    }
}

/// Reads the literal `neals.name = "…"` from a source text.
pub fn parse_neals_name(src: &str) -> (r: Option<String>)
    ensures
        match r {
            Some(n) => source_name(src@) == Some(n@),
            None => source_name(src@) is None,
        },
{
    match nix::collect_neals_literals(src) {
        Ok(list) => declared_name(&list),
        Err(_) => None,
    }
}

/// Whether `r` is what a source text declares: its services, or the reason
/// against the text, or the first complaint about its bindings.
pub open spec fn is_source_services(r: Result<Vec<ServiceDecl>, String>, src: Seq<char>) -> bool {
    match nix::source_literals(src) {
        Ok(list) => is_service_list(r, list),
        Err(m) => r matches Err(e) && e@ == m,
    }
}

/// Reads the declarations `neals.services` and the older `neals.route` from a
/// source text.
pub fn parse_neals_services(src: &str) -> (r: Result<Vec<ServiceDecl>, String>)
    ensures
        is_source_services(r, src@),
{
    match nix::collect_neals_literals(src) {
        Ok(list) => declared_services(&list),
        Err(m) => Err(m),
    }
}

/// Whether `r` is `s` in its coarser form, or the same error.
pub open spec fn is_route_list(
    r: Result<Vec<RouteDecl>, String>,
    s: Result<Vec<ServiceDecl>, String>,
) -> bool {
    match (r, s) {
        (Ok(v), Ok(w)) => {
            &&& v@.len() == w@.len()
            &&& forall|i: int| 0 <= i < v@.len() ==> is_route_of(#[trigger] v@[i], w@[i]@)
        },
        (Err(a), Err(b)) => a@ == b@,
        _ => false,
    }
}

/// Reads the declared services of a source text in their coarser form.
pub fn parse_neals_routes(src: &str) -> (r: Result<Vec<RouteDecl>, String>)
    ensures
        exists|s: Result<Vec<ServiceDecl>, String>|
            is_source_services(s, src@) && #[trigger] is_route_list(r, s),
{
    let s = parse_neals_services(src);
    let ghost given = s;
    let r = match s {
        Ok(v) => Ok(to_routes(v)),
        Err(m) => Err(m),
    };
    assert(is_route_list(r, given));
    r
}

/// Whether `r` is the name of the project in `project_dir`, whose
/// `devenv.nix` holds `source` if there is one: the declared name, else the
/// name of the folder if it is valid.
pub open spec fn is_resolved_name(
    r: Result<ProjectName, String>,
    project_dir: Seq<char>,
    source: Option<Seq<char>>,
) -> bool {
    let declared = match source {
        Some(src) => source_name(src),
        None => None,
    };
    match (declared, paths::last_name(project_dir)) {
        (Some(n), _) => r matches Ok(ProjectName::FromDevenv(name)) && name@ == n,
        (None, None) => r matches Err(m) && m@ == "current directory has no valid name"@,
        (None, Some(folder)) => if valid_name(folder) {
            r matches Ok(ProjectName::Fallback(name)) && name@ == folder
        } else {
            r matches Err(m) && m@ == "folder name `"@ + folder
                + "` is not a valid project name (use lowercase letters, digits, hyphens; set neals.name in devenv.nix)"@
        },
    }
}

/// The text of an optional `devenv.nix`.
pub open spec fn source_view(source: Option<&str>) -> Option<Seq<char>> {
    match source {
        Some(s) => Some(s@),
        None => None,
    }
}

/// The name of the project in `project_dir`, whose `devenv.nix` holds
/// `source` if there is one.
pub fn resolve_project_name(project_dir: &str, source: Option<&str>) -> (r: Result<
    ProjectName,
    String,
>)
    ensures
        is_resolved_name(r, project_dir@, source_view(source)),
{
    if let Some(src) = source {
        if let Some(name) = parse_neals_name(src) {
            return Ok(ProjectName::FromDevenv(name));
        }
    }
    match paths::file_name(project_dir) {
        None => Err("current directory has no valid name".to_owned()),
        Some(folder) => if is_valid_project_name(folder.as_str()) {
            Ok(ProjectName::Fallback(folder))
        } else {
            Err(
                "folder name `".to_owned().concat(folder.as_str()).concat(
                    "` is not a valid project name (use lowercase letters, digits, hyphens; set neals.name in devenv.nix)",
                ),
            )
        },
    }
}

/// The services of a project whose `devenv.nix` holds `source`; none without
/// that file.
pub fn read_neals_services(source: Option<&str>) -> (r: Result<Vec<ServiceDecl>, String>)
    ensures
        match source {
            Some(src) => is_source_services(r, src@),
            None => r matches Ok(v) && v@.len() == 0,
        },
{
    match source {
        Some(src) => parse_neals_services(src),
        None => Ok(Vec::new()),
    }
}

/// The services of a project in their coarser form.
pub fn read_neals_routes(source: Option<&str>) -> (r: Result<Vec<RouteDecl>, String>)
    ensures
        match source {
            Some(src) => exists|s: Result<Vec<ServiceDecl>, String>|
                is_source_services(s, src@) && #[trigger] is_route_list(r, s),
            None => r matches Ok(v) && v@.len() == 0,
        },
{
    match source {
        Some(src) => parse_neals_routes(src),
        None => Ok(Vec::new()),
    }
}

// ---------------------------------------------------------------------------
// Laws
// ---------------------------------------------------------------------------
pub(crate) proof fn lemma_named_by_binding(list: Seq<nix::Bound>, s: Seq<char>)
    ensures
        service_names(list).contains(s) <==> exists|i: int|
            0 <= i < list.len() && is_service_binding(#[trigger] list[i]) && list[i].path[1] == s,
    decreases list.len(),
{
    if list.len() > 0 {
        let front = list.drop_last();
        lemma_named_by_binding(front, s);
        let names = service_names(front);
        let last = list.last();
        assert(list[list.len() - 1] == last);
        assert(forall|i: int| 0 <= i < front.len() ==> front[i] == list[i]);
        if names.contains(s) {
            let i = choose|i: int|
                0 <= i < front.len() && is_service_binding(#[trigger] front[i]) && front[i].path[1]
                    == s;
            assert(is_service_binding(list[i]));
            let k = names.index_of(s);
            assert(service_names(list)[k] == s);
        }
        if is_service_binding(last) && last.path[1] == s && !names.contains(s) {
            assert(service_names(list)[names.len() as int] == s);
        }
        if service_names(list).contains(s) && !names.contains(s) {
            let k = service_names(list).index_of(s);
            if k < names.len() {
                assert(names[k] == s);
            }
        }
    }
}

/// A declared service has a valid name. Its socket, if it has one, is a bare
/// file name, and its preferred port, if it has one, is not 0. Without a
/// preferred port it is proxied.
pub proof fn declared_services_valid(list: Seq<nix::Bound>, x: Service)
    requires
        services_problem(list) is None,
        declares(list, x),
    ensures
        valid_name(x.service),
        match x.kind {
            Kind::Unix { socket_file } => valid_socket(socket_file),
            Kind::Tcp { preferred_port: Some(p), .. } => p >= 1,
            Kind::Tcp { preferred_port: None, proxy } => proxy,
        },
{
    if declares_fields(list, x) {
        lemma_named_by_binding(list, x.service);
        let i = choose|i: int|
            0 <= i < list.len() && is_service_binding(#[trigger] list[i]) && list[i].path[1]
                == x.service;
        lemma_no_service_problem(list, i);
        let path = field_path(x.service, "socket"@);
        nix::lemma_value_at(list, path);
        if let Some(nix::Lit::Str(s)) = nix::value_at(list, path) {
            let j = choose|j: int|
                0 <= j < list.len() && (#[trigger] list[j]).path == path && list[j].value
                    == nix::Lit::Str(s);
            lemma_no_service_problem(list, j);
            assert(list[j].path[2] == "socket"@);
            reveal_strlit("socket");
            reveal_strlit("port");
            reveal_strlit("proxy");
            assert("socket"@.len() == 6);
            assert("port"@.len() == 4);
            assert("proxy"@.len() == 5);
        }
        if let Some(nix::Lit::Int(n)) = nix::value_at(list, field_path(x.service, "port"@)) {
            lemma_port_in_range(list, x.service, n);
        }
    } else {
        let path = route_path(x.service);
        nix::lemma_value_at(list, path);
        let j = choose|j: int|
            0 <= j < list.len() && (#[trigger] list[j]).path == path && Some(list[j].value)
                == nix::value_at(list, path);
        lemma_no_route_problem(service_names(list), list, j);
        assert(is_route_binding(list[j]));
    }
}

/// A name is declared at most once.
pub proof fn declared_once(list: Seq<nix::Bound>, x: Service, y: Service)
    requires
        services_problem(list) is None,
        declares(list, x),
        declares(list, y),
        x.service == y.service,
    ensures
        x == y,
{
    if declares_route(list, x) || declares_route(list, y) {
        let path = route_path(x.service);
        nix::lemma_value_at(list, path);
        let j = choose|j: int|
            0 <= j < list.len() && (#[trigger] list[j]).path == path && Some(list[j].value)
                == nix::value_at(list, path);
        lemma_no_route_problem(service_names(list), list, j);
        assert(is_route_binding(list[j]));
        assert(list[j].path[1] == x.service);
    }
}

pub(crate) proof fn lemma_all_services_fine(list: Seq<nix::Bound>)
    ensures
        first_service_problem(list) is None <==> forall|i: int|
            0 <= i < list.len() ==> service_problem(#[trigger] list[i]) is None,
    decreases list.len(),
{
    if list.len() > 0 {
        let front = list.drop_last();
        lemma_all_services_fine(front);
        assert(forall|i: int| 0 <= i < front.len() ==> front[i] == list[i]);
        assert(list[list.len() - 1] == list.last());
    }
}

pub(crate) proof fn lemma_all_drafts_fine(list: Seq<nix::Bound>, names: Seq<Seq<char>>)
    ensures
        first_draft_problem(list, names) is None <==> forall|s: Seq<char>| #[trigger]
            names.contains(s) ==> kind_of(s, draft_of(list, s)) is Ok,
    decreases names.len(),
{
    if names.len() > 0 {
        let front = names.drop_last();
        lemma_all_drafts_fine(list, front);
        assert forall|s: Seq<char>| #[trigger] names.contains(s) <==> front.contains(s) || s
            == names.last() by {
            if names.contains(s) {
                let k = names.index_of(s);
                if k < front.len() {
                    assert(front[k] == s);
                }
            }
            if front.contains(s) {
                let k = front.index_of(s);
                assert(names[k] == s);
            }
            assert(names[names.len() - 1] == names.last());
        }
        assert(names.contains(names.last()));
        assert forall|s: Seq<char>| front.contains(s) implies names.contains(s) by {}
    }
}

pub(crate) proof fn lemma_all_routes_fine(names: Seq<Seq<char>>, list: Seq<nix::Bound>)
    ensures
        first_route_problem(names, list) is None <==> forall|i: int|
            0 <= i < list.len() ==> route_problem(names, #[trigger] list[i]) is None,
    decreases list.len(),
{
    if list.len() > 0 {
        let front = list.drop_last();
        lemma_all_routes_fine(names, front);
        assert(forall|i: int| 0 <= i < front.len() ==> front[i] == list[i]);
        assert(list[list.len() - 1] == list.last());
    }
}

/// Whether two lists hold the same bindings, in whatever order.
pub open spec fn same_bindings(a: Seq<nix::Bound>, b: Seq<nix::Bound>) -> bool {
    &&& nix::distinct_paths(a)
    &&& nix::distinct_paths(b)
    &&& forall|x: nix::Bound| #[trigger] a.contains(x) <==> b.contains(x)
}

proof fn lemma_same_value(a: Seq<nix::Bound>, b: Seq<nix::Bound>, path: Seq<Seq<char>>)
    requires
        same_bindings(a, b),
    ensures
        nix::value_at(a, path) == nix::value_at(b, path),
{
    nix::lemma_value_at(a, path);
    nix::lemma_value_at(b, path);
    if let Some(v) = nix::value_at(a, path) {
        let i = choose|i: int|
            0 <= i < a.len() && (#[trigger] a[i]).path == path && a[i].value == v;
        assert(a.contains(a[i]));
        let j = b.index_of(a[i]);
        assert(b.contains(a[i]));
        nix::lemma_found_by_path(b, j);
    } else if let Some(v) = nix::value_at(b, path) {
        let i = choose|i: int|
            0 <= i < b.len() && (#[trigger] b[i]).path == path && b[i].value == v;
        assert(b.contains(b[i]));
        assert(a.contains(b[i]));
        let j = a.index_of(b[i]);
        assert(a[j].path == path);
    }
}

proof fn lemma_same_names(a: Seq<nix::Bound>, b: Seq<nix::Bound>, s: Seq<char>)
    requires
        same_bindings(a, b),
        service_names(a).contains(s),
    ensures
        service_names(b).contains(s),
{
    lemma_named_by_binding(a, s);
    lemma_named_by_binding(b, s);
    let i = choose|i: int|
        0 <= i < a.len() && is_service_binding(#[trigger] a[i]) && a[i].path[1] == s;
    assert(a.contains(a[i]));
    assert(b.contains(a[i]));
    let j = b.index_of(a[i]);
    assert(is_service_binding(b[j]));
}

proof fn lemma_same_problems(a: Seq<nix::Bound>, b: Seq<nix::Bound>)
    requires
        same_bindings(a, b),
        services_problem(a) is None,
    ensures
        services_problem(b) is None,
{
    let na = service_names(a);
    let nb = service_names(b);
    assert(same_bindings(b, a));
    assert forall|s: Seq<char>| #[trigger] na.contains(s) <==> nb.contains(s) by {
        if na.contains(s) {
            lemma_same_names(a, b, s);
        }
        if nb.contains(s) {
            lemma_same_names(b, a, s);
        }
    }
    lemma_all_services_fine(a);
    lemma_all_services_fine(b);
    lemma_all_drafts_fine(a, na);
    lemma_all_drafts_fine(b, nb);
    lemma_all_routes_fine(na, a);
    lemma_all_routes_fine(nb, b);
    assert forall|j: int| 0 <= j < b.len() implies service_problem(#[trigger] b[j]) is None
        && route_problem(nb, b[j]) is None by {
        assert(b.contains(b[j]));
        assert(a.contains(b[j]));
        let i = a.index_of(b[j]);
        assert(service_problem(a[i]) is None);
        assert(route_problem(na, a[i]) is None);
        assert(na.contains(b[j].path[1]) == nb.contains(b[j].path[1]));
    }
    assert forall|s: Seq<char>| #[trigger] nb.contains(s) implies kind_of(s, draft_of(b, s)) is Ok by {
        assert(na.contains(s));
        lemma_same_drafts(a, b, s);
    }
}

proof fn lemma_same_drafts(a: Seq<nix::Bound>, b: Seq<nix::Bound>, s: Seq<char>)
    requires
        same_bindings(a, b),
    ensures
        draft_of(a, s) == draft_of(b, s),
{
    lemma_same_value(a, b, field_path(s, "port"@));
    lemma_same_value(a, b, field_path(s, "proxy"@));
    lemma_same_value(a, b, field_path(s, "socket"@));
}

/// The order of the bindings matters neither for whether they are accepted
/// nor for what they declare.
pub proof fn order_of_bindings_irrelevant(a: Seq<nix::Bound>, b: Seq<nix::Bound>, x: Service)
    requires
        same_bindings(a, b),
    ensures
        services_problem(a) is None <==> services_problem(b) is None,
        declares(a, x) == declares(b, x),
        name_in(a) == name_in(b),
{
    assert(same_bindings(b, a));
    if services_problem(a) is None {
        lemma_same_problems(a, b);
    }
    if services_problem(b) is None {
        lemma_same_problems(b, a);
    }
    lemma_same_drafts(a, b, x.service);
    lemma_same_value(a, b, route_path(x.service));
    lemma_same_value(a, b, seq!["name"@]);
    if service_names(a).contains(x.service) {
        lemma_same_names(a, b, x.service);
    }
    if service_names(b).contains(x.service) {
        lemma_same_names(b, a, x.service);
    }
}

pub(crate) proof fn lemma_same_sorted(a: Seq<Service>, b: Seq<Service>)
    requires
        sorted_by_name(a),
        sorted_by_name(b),
        forall|x: Service| #[trigger] a.contains(x) <==> b.contains(x),
    ensures
        a == b,
    decreases a.len(),
{
    if a.len() == 0 {
        if b.len() > 0 {
            assert(b.contains(b[0]));
            assert(a.contains(b[0]));
        }
        assert(a == b);
    } else {
        let m = a.len() - 1;
        let last = a[m];
        assert(a.contains(last));
        assert(b.contains(last));
        let n = b.len() - 1;
        let k = b.index_of(last);
        if k < n {
            assert(b.contains(b[n]));
            assert(a.contains(b[n]));
            let i = a.index_of(b[n]);
            assert(words::before(b[k].service, b[n].service));
            words::before_total(last.service, b[n].service);
            if i < m {
                assert(words::before(a[i].service, a[m].service));
            }
        }
        assert(b[n] == last);
        let c = a.drop_last();
        let d = b.drop_last();
        assert forall|x: Service| #[trigger] c.contains(x) <==> d.contains(x) by {
            if c.contains(x) {
                let i = c.index_of(x);
                assert(a[i] == x);
                assert(words::before(a[i].service, a[m].service));
                words::before_total(x.service, last.service);
                assert(a.contains(x));
                assert(b.contains(x));
                let j = b.index_of(x);
                assert(d[j] == x);
            }
            if d.contains(x) {
                let i = d.index_of(x);
                assert(b[i] == x);
                assert(words::before(b[i].service, b[n].service));
                words::before_total(x.service, last.service);
                assert(b.contains(x));
                assert(a.contains(x));
                let j = a.index_of(x);
                assert(c[j] == x);
            }
        }
        assert(sorted_by_name(c));
        assert(sorted_by_name(d));
        lemma_same_sorted(c, d);
        assert(a == c.push(last));
        assert(b == d.push(last));
    }
}

/// Two source texts whose bindings are the same up to nesting, order, layout
/// and comments declare the same services, or neither is accepted.
pub proof fn writing_of_services_irrelevant(
    s: Seq<char>,
    t: Seq<char>,
    a: Result<Vec<ServiceDecl>, String>,
    b: Result<Vec<ServiceDecl>, String>,
)
    requires
        encode_utf8(s).len() <= u32::MAX,
        encode_utf8(t).len() <= u32::MAX,
        writing::same_writing(nix::source_tree(s), nix::source_tree(t)),
        is_source_services(a, s),
        is_source_services(b, t),
    ensures
        a is Ok <==> b is Ok,
        (a, b) matches (Ok(v), Ok(w)) ==> services(v@) == services(w@),
        source_name(s) == source_name(t),
{
    writing::writing_irrelevant(nix::source_tree(s), nix::source_tree(t));
    if let (Ok(l), Ok(m)) = (nix::source_literals(s), nix::source_literals(t)) {
        assert(same_bindings(l, m));
        assert forall|x: Service| declares(l, x) == #[trigger] declares(m, x) && (services_problem(
            l,
        ) is None <==> services_problem(m) is None) && name_in(l) == name_in(m) by {
            order_of_bindings_irrelevant(l, m, x);
        }
        let some = Service { service: ""@, kind: Kind::Unix { socket_file: ""@ } };
        assert(declares(l, some) == declares(m, some));
        if let (Ok(v), Ok(w)) = (a, b) {
            assert forall|x: Service| #[trigger] services(v@).contains(x) <==> services(
                w@,
            ).contains(x) by {
                assert(declares(l, x) == declares(m, x));
            }
            lemma_same_sorted(services(v@), services(w@));
        }
    }
}

} // verus!
