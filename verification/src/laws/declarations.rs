//! What a project declares, and what becomes of it.
use crate::devenv;
use crate::devenv::{RouteDecl, RouteKind, ServiceDecl, ServiceKind};
use crate::nix;
use crate::laws::texts;
use crate::nix::{Binding, NixLit};
use crate::paths;
use crate::text;
use crate::words;
use vstd::prelude::*;
use vstd::string::*;

verus! {

/// Whether a name can stand in a host name: small letters, digits and
/// hyphens, at most 63 of them, and no hyphen at either end.
pub open spec fn is_label(s: Seq<char>) -> bool {
    &&& 1 <= s.len() <= 63
    &&& s[0] != '-'
    &&& s[s.len() - 1] != '-'
    &&& forall|i: int|
        0 <= i < s.len() ==> ('a' <= #[trigger] s[i] <= 'z') || ('0' <= s[i] <= '9') || s[i] == '-'
}

/// Whether a name is that of a file and nothing more.
pub open spec fn is_file(s: Seq<char>) -> bool {
    &&& s.len() > 0
    &&& forall|i: int| 0 <= i < s.len() ==> #[trigger] s[i] != '/' && s[i] != '\0'
    &&& s != "."@
    &&& s != ".."@
    &&& s != "tcp"@
}

proof fn lemma_label(s: Seq<char>)
    ensures
        is_label(s) == devenv::valid_name(s),
{
    if devenv::valid_name(s) {
        assert forall|i: int| 0 <= i < s.len() implies ('a' <= #[trigger] s[i] <= 'z') || ('0'
            <= s[i] <= '9') || s[i] == '-' by {
            assert(text::is_lower(s[i]) || text::is_digit(s[i]) || s[i] == '-');
        }
    }
}

proof fn lemma_file(s: Seq<char>)
    ensures
        is_file(s) == devenv::valid_socket(s),
{
    if devenv::valid_socket(s) {
        assert forall|i: int| 0 <= i < s.len() implies #[trigger] s[i] != '/' && s[i] != '\0' by {
            assert(s.contains(s[i]));
        }
    }
}

/// Names that are accepted, for projects and for services.
pub proof fn accepted_names(name: &str, p: bool, s: bool)
    requires
        call_ensures(devenv::is_valid_project_name, (name,), p),
        call_ensures(devenv::is_valid_service_name, (name,), s),
    ensures
        p == is_label(name@),
        s == is_label(name@),
{
    lemma_label(name@);
}

/// File names that are accepted for sockets.
pub proof fn accepted_sockets(name: &str, r: bool)
    requires
        call_ensures(devenv::is_valid_socket_file, (name,), r),
    ensures
        r == is_file(name@),
{
    lemma_file(name@);
}

/// Whether a binding is that of a field of a service.
pub open spec fn is_field(b: Binding, service: Seq<char>, field: Seq<char>) -> bool {
    &&& b.path@.len() == 3
    &&& b.path@[0]@ == "services"@
    &&& b.path@[1]@ == service
    &&& b.path@[2]@ == field
}

/// Whether a field of a service is bound to an integer.
pub open spec fn has_int(list: Seq<Binding>, service: Seq<char>, field: Seq<char>, n: int) -> bool {
    exists|i: int|
        0 <= i < list.len() && is_field(#[trigger] list[i], service, field) && (
        list[i].value matches NixLit::Int(m) && m == n)
}

/// Whether a field of a service is bound to a truth value.
pub open spec fn has_bool(
    list: Seq<Binding>,
    service: Seq<char>,
    field: Seq<char>,
    v: bool,
) -> bool {
    exists|i: int|
        0 <= i < list.len() && is_field(#[trigger] list[i], service, field) && (
        list[i].value matches NixLit::Bool(b) && b == v)
}

/// Whether a field of a service is bound to a text.
pub open spec fn has_text(
    list: Seq<Binding>,
    service: Seq<char>,
    field: Seq<char>,
    t: Seq<char>,
) -> bool {
    exists|i: int|
        0 <= i < list.len() && is_field(#[trigger] list[i], service, field) && (
        list[i].value matches NixLit::Str(s) && s@ == t)
}

/// Whether a binding speaks of a service.
pub open spec fn is_about(b: Binding, service: Seq<char>) -> bool {
    &&& b.path@.len() >= 2
    &&& b.path@[0]@ == "services"@
    &&& b.path@[1]@ == service
}

/// Whether some binding speaks of a service.
pub open spec fn speaks_of(list: Seq<Binding>, service: Seq<char>) -> bool {
    exists|i: int| 0 <= i < list.len() && is_about(#[trigger] list[i], service)
}

/// Whether a binding is a route in the older form.
pub open spec fn is_route(b: Binding, service: Seq<char>) -> bool {
    &&& b.path@.len() == 2
    &&& b.path@[0]@ == "route"@
    &&& b.path@[1]@ == service
}

/// Whether a service has a route in the older form with that value.
pub open spec fn has_route(list: Seq<Binding>, service: Seq<char>, t: Seq<char>) -> bool {
    exists|i: int|
        0 <= i < list.len() && is_route(#[trigger] list[i], service) && (
        list[i].value matches NixLit::Str(s) && s@ == t)
}

/// Whether two bindings are at the same path.
pub open spec fn same_place(a: Binding, b: Binding) -> bool {
    &&& a.path@.len() == b.path@.len()
    &&& forall|k: int| 0 <= k < a.path@.len() ==> (#[trigger] a.path@[k])@ == b.path@[k]@
}

/// Whether no path is bound twice.
pub open spec fn bound_once(list: Seq<Binding>) -> bool {
    forall|i: int, j: int|
        0 <= i < j < list.len() ==> !same_place(#[trigger] list[i], #[trigger] list[j])
}

/// Whether a service is in a list, exposed at a port that is asked for, with
/// a route of the reverse proxy or without one.
pub open spec fn lists_port(v: Seq<ServiceDecl>, service: Seq<char>, p: u16, proxied: bool) -> bool {
    exists|k: int|
        0 <= k < v.len() && (#[trigger] v[k]).service@ == service && v[k].kind == (
        ServiceKind::Tcp { preferred_port: Some(p), proxy: proxied })
}

/// Whether a service is in a list, exposed at some port.
pub open spec fn lists_any_port(v: Seq<ServiceDecl>, service: Seq<char>, proxied: bool) -> bool {
    exists|k: int|
        0 <= k < v.len() && (#[trigger] v[k]).service@ == service && v[k].kind == (
        ServiceKind::Tcp { preferred_port: None, proxy: proxied })
}

/// Whether a service is in a list, exposed by a socket.
pub open spec fn lists_socket(v: Seq<ServiceDecl>, service: Seq<char>, file: Seq<char>) -> bool {
    exists|k: int|
        0 <= k < v.len() && (#[trigger] v[k]).service@ == service && (
        v[k].kind matches ServiceKind::Unix { socket_file } && socket_file@ == file)
}

proof fn lemma_once(list: Seq<Binding>)
    requires
        bound_once(list),
    ensures
        nix::distinct_paths(nix::bounds(list)),
{
    let all = nix::bounds(list);
    assert forall|i: int, j: int| 0 <= i < j < all.len() implies (#[trigger] all[i]).path != (
    #[trigger] all[j]).path by {
        assert(all[i] == list[i]@);
        assert(all[j] == list[j]@);
        if all[i].path == all[j].path {
            let p = all[i].path;
            assert(p.len() == list[i].path@.len());
            assert(text::views(list[i].path@).len() == text::views(list[j].path@).len());
            assert forall|k: int| 0 <= k < list[i].path@.len() implies (
            #[trigger] list[i].path@[k])@ == list[j].path@[k]@ by {
                assert(text::views(list[i].path@)[k] == list[i].path@[k]@);
                assert(text::views(list[j].path@)[k] == list[j].path@[k]@);
            }
            assert(same_place(list[i], list[j]));
        }
    }
}

proof fn lemma_field(list: Seq<Binding>, i: int, service: Seq<char>, field: Seq<char>)
    requires
        0 <= i < list.len(),
    ensures
        is_field(list[i], service, field) <==> nix::bounds(list)[i].path == devenv::field_path(
            service,
            field,
        ),
{
    let p = text::views(list[i].path@);
    assert(nix::bounds(list)[i] == list[i]@);
    assert(p.len() == list[i].path@.len());
    let q = devenv::field_path(service, field);
    if p.len() == 3 {
        assert(p[0] == list[i].path@[0]@);
        assert(p[1] == list[i].path@[1]@);
        assert(p[2] == list[i].path@[2]@);
        assert(q[0] == "services"@ && q[1] == service && q[2] == field);
        if is_field(list[i], service, field) {
            assert(p == q);
        }
    }
}

proof fn lemma_routed(list: Seq<Binding>, i: int, service: Seq<char>)
    requires
        0 <= i < list.len(),
    ensures
        is_route(list[i], service) <==> nix::bounds(list)[i].path == devenv::route_path(service),
{
    let p = text::views(list[i].path@);
    assert(nix::bounds(list)[i] == list[i]@);
    let q = devenv::route_path(service);
    if p.len() == 2 {
        assert(p[0] == list[i].path@[0]@);
        assert(p[1] == list[i].path@[1]@);
        assert(q[0] == "route"@ && q[1] == service);
        if is_route(list[i], service) {
            assert(p == q);
        }
    }
}

proof fn lemma_about(list: Seq<Binding>, service: Seq<char>)
    ensures
        speaks_of(list, service) <==> devenv::service_names(nix::bounds(list)).contains(service),
{
    let all = nix::bounds(list);
    devenv::lemma_named_by_binding(all, service);
    assert forall|i: int| 0 <= i < list.len() implies (is_about(#[trigger] list[i], service)
        <==> devenv::is_service_binding(all[i]) && all[i].path[1] == service) by {
        assert(all[i] == list[i]@);
        if list[i].path@.len() >= 2 {
            assert(all[i].path[0] == list[i].path@[0]@);
            assert(all[i].path[1] == list[i].path@[1]@);
        }
    }
    if speaks_of(list, service) {
        let i = choose|i: int| 0 <= i < list.len() && is_about(#[trigger] list[i], service);
        assert(devenv::is_service_binding(all[i]));
    }
    if devenv::service_names(all).contains(service) {
        let i = choose|i: int|
            0 <= i < all.len() && devenv::is_service_binding(#[trigger] all[i]) && all[i].path[1]
                == service;
        assert(is_about(list[i], service));
    }
}

proof fn lemma_has_int(list: Seq<Binding>, service: Seq<char>, field: Seq<char>, n: i64)
    requires
        bound_once(list),
    ensures
        has_int(list, service, field, n as int) <==> nix::value_at(
            nix::bounds(list),
            devenv::field_path(service, field),
        ) == Some(nix::Lit::Int(n)),
{
    let all = nix::bounds(list);
    let path = devenv::field_path(service, field);
    lemma_once(list);
    nix::lemma_value_at(all, path);
    if has_int(list, service, field, n as int) {
        let i = choose|i: int|
            0 <= i < list.len() && is_field(#[trigger] list[i], service, field) && (
            list[i].value matches NixLit::Int(m) && m == n);
        lemma_field(list, i, service, field);
        nix::lemma_found_by_path(all, i);
        assert(all[i].value == list[i].value@);
    }
    if nix::value_at(all, path) == Some(nix::Lit::Int(n)) {
        let i = choose|i: int|
            0 <= i < all.len() && (#[trigger] all[i]).path == path && all[i].value
                == nix::Lit::Int(n);
        lemma_field(list, i, service, field);
        assert(all[i].value == list[i].value@);
        assert(is_field(list[i], service, field));
    }
}

proof fn lemma_has_bool(list: Seq<Binding>, service: Seq<char>, field: Seq<char>, v: bool)
    requires
        bound_once(list),
    ensures
        has_bool(list, service, field, v) <==> nix::value_at(
            nix::bounds(list),
            devenv::field_path(service, field),
        ) == Some(nix::Lit::Bool(v)),
{
    let all = nix::bounds(list);
    let path = devenv::field_path(service, field);
    lemma_once(list);
    nix::lemma_value_at(all, path);
    if has_bool(list, service, field, v) {
        let i = choose|i: int|
            0 <= i < list.len() && is_field(#[trigger] list[i], service, field) && (
            list[i].value matches NixLit::Bool(b) && b == v);
        lemma_field(list, i, service, field);
        nix::lemma_found_by_path(all, i);
        assert(all[i].value == list[i].value@);
    }
    if nix::value_at(all, path) == Some(nix::Lit::Bool(v)) {
        let i = choose|i: int|
            0 <= i < all.len() && (#[trigger] all[i]).path == path && all[i].value
                == nix::Lit::Bool(v);
        lemma_field(list, i, service, field);
        assert(all[i].value == list[i].value@);
        assert(is_field(list[i], service, field));
    }
}

proof fn lemma_has_text(list: Seq<Binding>, service: Seq<char>, field: Seq<char>, t: Seq<char>)
    requires
        bound_once(list),
    ensures
        has_text(list, service, field, t) <==> nix::value_at(
            nix::bounds(list),
            devenv::field_path(service, field),
        ) == Some(nix::Lit::Str(t)),
{
    let all = nix::bounds(list);
    let path = devenv::field_path(service, field);
    lemma_once(list);
    nix::lemma_value_at(all, path);
    if has_text(list, service, field, t) {
        let i = choose|i: int|
            0 <= i < list.len() && is_field(#[trigger] list[i], service, field) && (
            list[i].value matches NixLit::Str(s) && s@ == t);
        lemma_field(list, i, service, field);
        nix::lemma_found_by_path(all, i);
        assert(all[i].value == list[i].value@);
    }
    if nix::value_at(all, path) == Some(nix::Lit::Str(t)) {
        let i = choose|i: int|
            0 <= i < all.len() && (#[trigger] all[i]).path == path && all[i].value
                == nix::Lit::Str(t);
        lemma_field(list, i, service, field);
        assert(all[i].value == list[i].value@);
        assert(is_field(list[i], service, field));
    }
}

proof fn lemma_has_route(list: Seq<Binding>, service: Seq<char>, t: Seq<char>)
    requires
        bound_once(list),
    ensures
        has_route(list, service, t) <==> nix::value_at(
            nix::bounds(list),
            devenv::route_path(service),
        ) == Some(nix::Lit::Str(t)),
{
    let all = nix::bounds(list);
    let path = devenv::route_path(service);
    lemma_once(list);
    nix::lemma_value_at(all, path);
    if has_route(list, service, t) {
        let i = choose|i: int|
            0 <= i < list.len() && is_route(#[trigger] list[i], service) && (
            list[i].value matches NixLit::Str(s) && s@ == t);
        lemma_routed(list, i, service);
        nix::lemma_found_by_path(all, i);
        assert(all[i].value == list[i].value@);
    }
    if nix::value_at(all, path) == Some(nix::Lit::Str(t)) {
        let i = choose|i: int|
            0 <= i < all.len() && (#[trigger] all[i]).path == path && all[i].value
                == nix::Lit::Str(t);
        lemma_routed(list, i, service);
        assert(all[i].value == list[i].value@);
        assert(is_route(list[i], service));
    }
}

proof fn lemma_lists_port(v: Seq<ServiceDecl>, service: Seq<char>, p: u16, proxied: bool)
    ensures
        lists_port(v, service, p, proxied) <==> devenv::services(v).contains(
            (devenv::Service {
                service,
                kind: devenv::Kind::Tcp { preferred_port: Some(p), proxy: proxied },
            }),
        ),
{
    let all = devenv::services(v);
    let x = devenv::Service {
        service,
        kind: devenv::Kind::Tcp { preferred_port: Some(p), proxy: proxied },
    };
    if lists_port(v, service, p, proxied) {
        let k = choose|k: int|
            0 <= k < v.len() && (#[trigger] v[k]).service@ == service && v[k].kind == (
            ServiceKind::Tcp { preferred_port: Some(p), proxy: proxied });
        assert(all[k] == x);
    }
    if all.contains(x) {
        let k = all.index_of(x);
        assert(all[k] == v[k]@);
        assert(v[k].service@ == service);
    }
}

proof fn lemma_lists_any_port(v: Seq<ServiceDecl>, service: Seq<char>, proxied: bool)
    ensures
        lists_any_port(v, service, proxied) <==> devenv::services(v).contains(
            (devenv::Service {
                service,
                kind: devenv::Kind::Tcp { preferred_port: None, proxy: proxied },
            }),
        ),
{
    let all = devenv::services(v);
    let x = devenv::Service {
        service,
        kind: devenv::Kind::Tcp { preferred_port: None, proxy: proxied },
    };
    if lists_any_port(v, service, proxied) {
        let k = choose|k: int|
            0 <= k < v.len() && (#[trigger] v[k]).service@ == service && v[k].kind == (
            ServiceKind::Tcp { preferred_port: None, proxy: proxied });
        assert(all[k] == x);
    }
    if all.contains(x) {
        let k = all.index_of(x);
        assert(all[k] == v[k]@);
        assert(v[k].service@ == service);
    }
}

proof fn lemma_lists_socket(v: Seq<ServiceDecl>, service: Seq<char>, file: Seq<char>)
    ensures
        lists_socket(v, service, file) <==> devenv::services(v).contains(
            (devenv::Service { service, kind: devenv::Kind::Unix { socket_file: file } }),
        ),
{
    let all = devenv::services(v);
    let x = devenv::Service { service, kind: devenv::Kind::Unix { socket_file: file } };
    if lists_socket(v, service, file) {
        let k = choose|k: int|
            0 <= k < v.len() && (#[trigger] v[k]).service@ == service && (
            v[k].kind matches ServiceKind::Unix { socket_file } && socket_file@ == file);
        assert(all[k] == x);
    }
    if all.contains(x) {
        let k = all.index_of(x);
        assert(all[k] == v[k]@);
        assert(v[k].service@ == service);
    }
}

/// A field that is bound names its service.
proof fn lemma_field_speaks(list: Seq<Binding>, service: Seq<char>, field: Seq<char>)
    requires
        nix::value_at(nix::bounds(list), devenv::field_path(service, field)) is Some,
    ensures
        speaks_of(list, service),
{
    let all = nix::bounds(list);
    let path = devenv::field_path(service, field);
    nix::lemma_value_at(all, path);
    let i = choose|i: int|
        0 <= i < all.len() && (#[trigger] all[i]).path == path && Some(all[i].value)
            == nix::value_at(all, path);
    lemma_field(list, i, service, field);
    assert(is_about(list[i], service));
}

/// A service has a port that is asked for exactly where its field `port` is
/// bound to that number. It then has a route of the reverse proxy exactly
/// where its field `proxy` is bound to true: bound to false, or not at all,
/// it has none.
pub proof fn declared_port(
    list: &Vec<Binding>,
    r: Result<Vec<ServiceDecl>, String>,
    v: Vec<ServiceDecl>,
    service: Seq<char>,
    p: u16,
    proxied: bool,
)
    requires
        bound_once(list@),
        call_ensures(devenv::declared_services, (list,), r),
        r == Ok::<Vec<ServiceDecl>, String>(v),
    ensures
        lists_port(v@, service, p, proxied) <==> has_int(list@, service, "port"@, p as int) && (
        proxied <==> has_bool(list@, service, "proxy"@, true)),
{
    let all = nix::bounds(list@);
    let x = devenv::Service {
        service,
        kind: devenv::Kind::Tcp { preferred_port: Some(p), proxy: proxied },
    };
    lemma_lists_port(v@, service, p, proxied);
    lemma_has_int(list@, service, "port"@, p as i64);
    lemma_has_bool(list@, service, "proxy"@, true);
    lemma_about(list@, service);
    assert(devenv::services(v@).contains(x) <==> devenv::declares(all, x));
    let port = nix::value_at(all, devenv::field_path(service, "port"@));
    if let Some(nix::Lit::Int(n)) = port {
        devenv::lemma_port_in_range(all, service, n);
        assert(n as u16 == n);
    }
    if has_int(list@, service, "port"@, p as int) {
        lemma_field_speaks(list@, service, "port"@);
        devenv::lemma_all_drafts_fine(all, devenv::service_names(all));
        assert(devenv::service_names(all).contains(service));
    }
}

/// A service has a socket exactly where its field `socket`, or its route in
/// the older form, names that file.
pub proof fn declared_socket(
    list: &Vec<Binding>,
    r: Result<Vec<ServiceDecl>, String>,
    v: Vec<ServiceDecl>,
    service: Seq<char>,
    file: Seq<char>,
)
    requires
        bound_once(list@),
        call_ensures(devenv::declared_services, (list,), r),
        r == Ok::<Vec<ServiceDecl>, String>(v),
    ensures
        lists_socket(v@, service, file) <==> has_text(list@, service, "socket"@, file) || (
        has_route(list@, service, file) && file != "tcp"@),
{
    let all = nix::bounds(list@);
    let x = devenv::Service { service, kind: devenv::Kind::Unix { socket_file: file } };
    lemma_lists_socket(v@, service, file);
    lemma_has_text(list@, service, "socket"@, file);
    lemma_has_route(list@, service, file);
    lemma_about(list@, service);
    assert(devenv::services(v@).contains(x) <==> devenv::declares(all, x));
    if has_text(list@, service, "socket"@, file) {
        lemma_field_speaks(list@, service, "socket"@);
        devenv::lemma_all_drafts_fine(all, devenv::service_names(all));
        assert(devenv::service_names(all).contains(service));
    }
    if has_route(list@, service, file) && file != "tcp"@ {
        let path = devenv::route_path(service);
        nix::lemma_value_at(all, path);
        let j = choose|j: int|
            0 <= j < all.len() && (#[trigger] all[j]).path == path && Some(all[j].value)
                == nix::value_at(all, path);
        devenv::lemma_no_route_problem(devenv::service_names(all), all, j);
        assert(devenv::is_route_binding(all[j]));
    }
}

/// A service takes any port exactly where its route in the older form says
/// `tcp`, and it then has a route of the reverse proxy.
pub proof fn declared_any_port(
    list: &Vec<Binding>,
    r: Result<Vec<ServiceDecl>, String>,
    v: Vec<ServiceDecl>,
    service: Seq<char>,
    proxied: bool,
)
    requires
        bound_once(list@),
        call_ensures(devenv::declared_services, (list,), r),
        r == Ok::<Vec<ServiceDecl>, String>(v),
    ensures
        lists_any_port(v@, service, proxied) <==> proxied && has_route(list@, service, "tcp"@),
{
    let all = nix::bounds(list@);
    let x = devenv::Service {
        service,
        kind: devenv::Kind::Tcp { preferred_port: None, proxy: proxied },
    };
    lemma_lists_any_port(v@, service, proxied);
    lemma_has_route(list@, service, "tcp"@);
    assert(devenv::services(v@).contains(x) <==> devenv::declares(all, x));
}

/// Whether the value of a field of a service is one that the field can have.
pub open spec fn is_fit(field: Seq<char>, value: NixLit) -> bool {
    match value {
        NixLit::Int(n) => field == "port"@ && 1 <= n <= 65535,
        NixLit::Bool(_) => field == "proxy"@,
        NixLit::Str(s) => field == "socket"@ && is_file(s@),
    }
}

/// Whether each binding below `services` is that of a field of a service with
/// a proper name, to a value that the field can have.
pub open spec fn fields_are_fit(list: Seq<Binding>) -> bool {
    forall|i: int|
        0 <= i < list.len() && (#[trigger] list[i]).path@.len() >= 2 && list[i].path@[0]@
            == "services"@ ==> list[i].path@.len() == 3 && is_label(list[i].path@[1]@) && is_fit(
            list[i].path@[2]@,
            list[i].value,
        )
}

/// Whether some field of a service is bound.
pub open spec fn has_field(list: Seq<Binding>, service: Seq<char>, field: Seq<char>) -> bool {
    exists|i: int| 0 <= i < list.len() && is_field(#[trigger] list[i], service, field)
}

/// Whether each service that is spoken of has a port or a socket but not both,
/// and none with a socket is kept from the reverse proxy.
pub open spec fn services_are_whole(list: Seq<Binding>) -> bool {
    forall|s: Seq<char>| #[trigger]
        speaks_of(list, s) ==> {
            &&& has_field(list, s, "port"@) != has_field(list, s, "socket"@)
            &&& has_field(list, s, "socket"@) ==> !has_bool(list, s, "proxy"@, false)
        }
}

/// Whether each route in the older form has a proper name, which no service
/// has, and says `tcp` or names a file.
pub open spec fn routes_are_fit(list: Seq<Binding>) -> bool {
    forall|i: int|
        0 <= i < list.len() && (#[trigger] list[i]).path@.len() == 2 && list[i].path@[0]@
            == "route"@ ==> is_label(list[i].path@[1]@) && !speaks_of(list, list[i].path@[1]@) && (
        list[i].value matches NixLit::Str(s) && (s@ == "tcp"@ || is_file(s@)))
}

proof fn lemma_fit(list: Seq<Binding>)
    ensures
        fields_are_fit(list) <==> devenv::first_service_problem(nix::bounds(list)) is None,
{
    let all = nix::bounds(list);
    devenv::lemma_all_services_fine(all);
    reveal_strlit("port");
    reveal_strlit("proxy");
    reveal_strlit("socket");
    assert("port"@.len() == 4 && "proxy"@.len() == 5 && "socket"@.len() == 6);
    assert forall|i: int| 0 <= i < list.len() implies (devenv::service_problem(
        #[trigger] all[i],
    ) is None <==> (list[i].path@.len() >= 2 && list[i].path@[0]@ == "services"@
        ==> list[i].path@.len() == 3 && is_label(list[i].path@[1]@) && is_fit(
        list[i].path@[2]@,
        list[i].value,
    ))) by {
        assert(all[i] == list[i]@);
        assert(all[i].path.len() == list[i].path@.len());
        if list[i].path@.len() >= 2 {
            assert(all[i].path[0] == list[i].path@[0]@);
            assert(all[i].path[1] == list[i].path@[1]@);
            lemma_label(list[i].path@[1]@);
        }
        if list[i].path@.len() == 3 {
            assert(all[i].path[2] == list[i].path@[2]@);
        }
        if let NixLit::Str(s) = list[i].value {
            lemma_file(s@);
        }
    }
    if fields_are_fit(list) {
        assert forall|i: int| 0 <= i < all.len() implies devenv::service_problem(
            #[trigger] all[i],
        ) is None by {
            assert(list[i].path@.len() >= 0);
        }
    }
    if devenv::first_service_problem(all) is None {
        assert forall|i: int|
            0 <= i < list.len() && (#[trigger] list[i]).path@.len() >= 2 && list[i].path@[0]@
                == "services"@ implies list[i].path@.len() == 3 && is_label(list[i].path@[1]@)
            && is_fit(list[i].path@[2]@, list[i].value) by {
            assert(devenv::service_problem(all[i]) is None);
        }
    }
}

proof fn lemma_has_field(list: Seq<Binding>, service: Seq<char>, field: Seq<char>)
    ensures
        has_field(list, service, field) <==> nix::value_at(
            nix::bounds(list),
            devenv::field_path(service, field),
        ) is Some,
{
    let all = nix::bounds(list);
    let path = devenv::field_path(service, field);
    nix::lemma_value_at(all, path);
    if has_field(list, service, field) {
        let i = choose|i: int| 0 <= i < list.len() && is_field(#[trigger] list[i], service, field);
        lemma_field(list, i, service, field);
        assert(all[i].path == path);
    }
    if nix::value_at(all, path) is Some {
        let i = choose|i: int|
            0 <= i < all.len() && (#[trigger] all[i]).path == path && Some(all[i].value)
                == nix::value_at(all, path);
        lemma_field(list, i, service, field);
        assert(is_field(list[i], service, field));
    }
}

/// Where the fields are fit, a field is bound to a value of its own kind.
proof fn lemma_field_value(list: Seq<Binding>, service: Seq<char>, field: Seq<char>)
    requires
        fields_are_fit(list),
        nix::value_at(nix::bounds(list), devenv::field_path(service, field)) is Some,
    ensures
        match nix::value_at(nix::bounds(list), devenv::field_path(service, field)) {
            Some(nix::Lit::Int(_)) => field == "port"@,
            Some(nix::Lit::Bool(_)) => field == "proxy"@,
            Some(nix::Lit::Str(_)) => field == "socket"@,
            None => false,
        },
{
    let all = nix::bounds(list);
    let path = devenv::field_path(service, field);
    nix::lemma_value_at(all, path);
    let i = choose|i: int|
        0 <= i < all.len() && (#[trigger] all[i]).path == path && Some(all[i].value)
            == nix::value_at(all, path);
    lemma_field(list, i, service, field);
    assert(all[i].value == list[i].value@);
    assert(is_field(list[i], service, field));
}

proof fn lemma_whole(list: Seq<Binding>, s: Seq<char>)
    requires
        bound_once(list),
        fields_are_fit(list),
    ensures
        devenv::kind_of(s, devenv::draft_of(nix::bounds(list), s)) is Ok <==> {
            &&& has_field(list, s, "port"@) != has_field(list, s, "socket"@)
            &&& has_field(list, s, "socket"@) ==> !has_bool(list, s, "proxy"@, false)
        },
{
    let all = nix::bounds(list);
    reveal_strlit("port");
    reveal_strlit("proxy");
    reveal_strlit("socket");
    assert("port"@.len() == 4 && "proxy"@.len() == 5 && "socket"@.len() == 6);
    lemma_has_field(list, s, "port"@);
    lemma_has_field(list, s, "socket"@);
    lemma_has_bool(list, s, "proxy"@, false);
    if has_field(list, s, "port"@) {
        lemma_field_value(list, s, "port"@);
    }
    if has_field(list, s, "socket"@) {
        lemma_field_value(list, s, "socket"@);
    }
}

proof fn lemma_accepted(list: Seq<Binding>)
    requires
        bound_once(list),
    ensures
        devenv::services_problem(nix::bounds(list)) is None <==> fields_are_fit(list)
            && services_are_whole(list) && routes_are_fit(list),
{
    let all = nix::bounds(list);
    let names = devenv::service_names(all);
    lemma_fit(list);
    if fields_are_fit(list) {
        devenv::lemma_all_drafts_fine(all, names);
        assert forall|s: Seq<char>| #[trigger] names.contains(s) <==> speaks_of(list, s) by {
            lemma_about(list, s);
        }
        if services_are_whole(list) {
            assert forall|s: Seq<char>| #[trigger] names.contains(s) implies devenv::kind_of(
                s,
                devenv::draft_of(all, s),
            ) is Ok by {
                assert(speaks_of(list, s));
                lemma_whole(list, s);
            }
        }
        if devenv::first_draft_problem(all, names) is None {
            assert forall|s: Seq<char>| #[trigger] speaks_of(list, s) implies {
                &&& has_field(list, s, "port"@) != has_field(list, s, "socket"@)
                &&& has_field(list, s, "socket"@) ==> !has_bool(list, s, "proxy"@, false)
            } by {
                assert(names.contains(s));
                lemma_whole(list, s);
            }
        }
        devenv::lemma_all_routes_fine(names, all);
        assert forall|i: int| 0 <= i < list.len() implies (devenv::route_problem(
            names,
            #[trigger] all[i],
        ) is None <==> (list[i].path@.len() == 2 && list[i].path@[0]@ == "route"@ ==> is_label(
            list[i].path@[1]@,
        ) && !speaks_of(list, list[i].path@[1]@) && (list[i].value matches NixLit::Str(s) && (s@
            == "tcp"@ || is_file(s@))))) by {
            assert(all[i] == list[i]@);
            assert(all[i].path.len() == list[i].path@.len());
            if list[i].path@.len() == 2 {
                assert(all[i].path[0] == list[i].path@[0]@);
                assert(all[i].path[1] == list[i].path@[1]@);
                lemma_label(list[i].path@[1]@);
                assert(names.contains(list[i].path@[1]@) <==> speaks_of(list, list[i].path@[1]@));
            }
            if let NixLit::Str(s) = list[i].value {
                lemma_file(s@);
            }
        }
        if routes_are_fit(list) {
            assert forall|i: int| 0 <= i < all.len() implies devenv::route_problem(
                names,
                #[trigger] all[i],
            ) is None by {
                assert(list[i].path@.len() >= 0);
            }
        }
        if devenv::first_route_problem(names, all) is None {
            assert forall|i: int|
                0 <= i < list.len() && (#[trigger] list[i]).path@.len() == 2
                    && list[i].path@[0]@ == "route"@ implies is_label(list[i].path@[1]@)
                && !speaks_of(list, list[i].path@[1]@) && (list[i].value matches NixLit::Str(s)
                && (s@ == "tcp"@ || is_file(s@))) by {
                assert(devenv::route_problem(names, all[i]) is None);
            }
        }
    }
}

/// Bindings are accepted exactly where every field is fit, every service is
/// whole and every route is fit.
pub proof fn accepted_bindings(list: &Vec<Binding>, r: Result<Vec<ServiceDecl>, String>)
    requires
        bound_once(list@),
        call_ensures(devenv::declared_services, (list,), r),
    ensures
        r is Ok <==> fields_are_fit(list@) && services_are_whole(list@) && routes_are_fit(list@),
{
    lemma_accepted(list@);
}

/// Declared services come in the order of a dictionary, so none comes twice.
pub proof fn declared_in_order(
    list: &Vec<Binding>,
    r: Result<Vec<ServiceDecl>, String>,
    v: Vec<ServiceDecl>,
    i: int,
    j: int,
)
    requires
        call_ensures(devenv::declared_services, (list,), r),
        r == Ok::<Vec<ServiceDecl>, String>(v),
        0 <= i < j < v@.len(),
    ensures
        texts::earlier(v@[i].service@, v@[j].service@),
{
    let all = devenv::services(v@);
    assert(all[i] == v@[i]@);
    assert(all[j] == v@[j]@);
    texts::lemma_earlier(v@[i].service@, v@[j].service@);
}

/// A source declares what its literals declare, and where its literals are
/// refused, so is the source.
pub proof fn source_declares_its_literals(
    src: &str,
    l: Result<Vec<Binding>, String>,
    r: Result<Vec<ServiceDecl>, String>,
    s: Result<Vec<ServiceDecl>, String>,
)
    requires
        call_ensures(nix::collect_neals_literals, (src,), l),
        call_ensures(devenv::parse_neals_services, (src,), r),
        l matches Ok(list) ==> call_ensures(devenv::declared_services, (&list,), s),
    ensures
        l matches Err(m) ==> (r matches Err(n) && n@ == m@),
        l is Ok ==> (r is Ok <==> s is Ok),
        l is Ok ==> ((r, s) matches (Err(m), Err(n)) ==> m@ == n@),
        l is Ok ==> ((r, s) matches (Ok(v), Ok(w)) ==> v@.len() == w@.len() && forall|k: int|
            0 <= k < v@.len() ==> (#[trigger] v@[k])@ == w@[k]@),
{
    if let Ok(list) = l {
        if let (Ok(v), Ok(w)) = (r, s) {
            let a = devenv::services(v@);
            let b = devenv::services(w@);
            assert forall|x: devenv::Service| #[trigger] a.contains(x) <==> b.contains(x) by {
                assert(a.contains(x) <==> devenv::declares(nix::bounds(list@), x));
            }
            devenv::lemma_same_sorted(a, b);
            assert(a.len() == v@.len());
            assert(b.len() == w@.len());
            assert forall|k: int| 0 <= k < v@.len() implies (#[trigger] v@[k])@ == w@[k]@ by {
                assert(a[k] == v@[k]@);
                assert(b[k] == w@[k]@);
            }
        }
    }
}

/// Whether the name of the project is bound to a text.
pub open spec fn has_name(list: Seq<Binding>, t: Seq<char>) -> bool {
    exists|i: int|
        0 <= i < list.len() && (#[trigger] list[i]).path@.len() == 1 && list[i].path@[0]@
            == "name"@ && (list[i].value matches NixLit::Str(s) && s@ == t)
}

proof fn lemma_has_name(list: Seq<Binding>, t: Seq<char>)
    requires
        bound_once(list),
    ensures
        has_name(list, t) <==> nix::value_at(nix::bounds(list), seq!["name"@]) == Some(
            nix::Lit::Str(t),
        ),
{
    let all = nix::bounds(list);
    let path = seq!["name"@];
    lemma_once(list);
    nix::lemma_value_at(all, path);
    if has_name(list, t) {
        let i = choose|i: int|
            0 <= i < list.len() && (#[trigger] list[i]).path@.len() == 1 && list[i].path@[0]@
                == "name"@ && (list[i].value matches NixLit::Str(s) && s@ == t);
        assert(all[i] == list[i]@);
        assert(all[i].path[0] == list[i].path@[0]@);
        assert(all[i].path == path);
        nix::lemma_found_by_path(all, i);
    }
    if nix::value_at(all, path) == Some(nix::Lit::Str(t)) {
        let i = choose|i: int|
            0 <= i < all.len() && (#[trigger] all[i]).path == path && all[i].value
                == nix::Lit::Str(t);
        assert(all[i] == list[i]@);
        assert(all[i].path.len() == 1);
        assert(list[i].path@.len() == 1);
        assert(all[i].path[0] == list[i].path@[0]@);
        assert(path[0] == "name"@);
    }
}

/// The name of a project is the text that `name` is bound to, if that is a
/// proper name.
pub proof fn declared_project_name(list: &Vec<Binding>, r: Option<String>, t: Seq<char>)
    requires
        bound_once(list@),
        call_ensures(devenv::declared_name, (list,), r),
    ensures
        (r matches Some(n) && n@ == t) <==> has_name(list@, t) && is_label(t),
{
    lemma_has_name(list@, t);
    lemma_label(t);
}

/// A source names the project as its literals do.
pub proof fn source_names_its_project(
    src: &str,
    l: Result<Vec<Binding>, String>,
    r: Option<String>,
    n: Option<String>,
)
    requires
        call_ensures(nix::collect_neals_literals, (src,), l),
        call_ensures(devenv::parse_neals_name, (src,), r),
        l matches Ok(list) ==> call_ensures(devenv::declared_name, (&list,), n),
    ensures
        l is Err ==> r is None,
        l is Ok ==> (r is Some <==> n is Some),
        l is Ok ==> ((r, n) matches (Some(a), Some(b)) ==> a@ == b@),
{
}

/// The name that a project declares goes before that of its folder, and a
/// folder is only taken by its name if that is a proper one.
pub proof fn resolved_name(
    dir: &str,
    source: Option<&str>,
    r: Result<devenv::ProjectName, String>,
    declared: Option<String>,
    folder: Option<String>,
)
    requires
        call_ensures(devenv::resolve_project_name, (dir, source), r),
        call_ensures(paths::file_name, (dir,), folder),
        match source {
            Some(src) => call_ensures(devenv::parse_neals_name, (src,), declared),
            None => declared is None,
        },
    ensures
        declared matches Some(n) ==> (r matches Ok(devenv::ProjectName::FromDevenv(m)) && m@ == n@),
        declared is None && folder is None ==> (r matches Err(m) && m@
            == "current directory has no valid name"@),
        declared is None ==> (folder matches Some(f) ==> (r matches Err(m) ==> m@
            == "folder name `"@ + f@
            + "` is not a valid project name (use lowercase letters, digits, hyphens; set neals.name in devenv.nix)"@)),
        declared is None ==> (folder matches Some(f) ==> (r is Ok <==> is_label(f@))),
        declared is None ==> (folder matches Some(f) ==> (r matches Ok(p) ==> (
        p matches devenv::ProjectName::Fallback(m) && m@ == f@))),
{
    if let Some(f) = folder {
        lemma_label(f@);
    }
}

/// A project without `devenv.nix` has no services; with one it has those that
/// the file declares.
pub proof fn services_of_a_project(
    source: Option<&str>,
    r: Result<Vec<ServiceDecl>, String>,
    s: Result<Vec<ServiceDecl>, String>,
)
    requires
        call_ensures(devenv::read_neals_services, (source,), r),
        source matches Some(src) ==> call_ensures(devenv::parse_neals_services, (src,), s),
    ensures
        source is None ==> (r matches Ok(v) && v@.len() == 0),
        source is Some ==> (r is Ok <==> s is Ok),
        source is Some ==> ((r, s) matches (Err(m), Err(n)) ==> m@ == n@),
        source is Some ==> ((r, s) matches (Ok(v), Ok(w)) ==> v@.len() == w@.len() && forall|k: int|
            0 <= k < v@.len() ==> (#[trigger] v@[k])@ == w@[k]@),
{
    if let Some(src) = source {
        if let (Ok(v), Ok(w)) = (r, s) {
            let list = nix::source_literals(src@)->Ok_0;
            let a = devenv::services(v@);
            let b = devenv::services(w@);
            assert forall|x: devenv::Service| #[trigger] a.contains(x) <==> b.contains(x) by {
                assert(a.contains(x) <==> devenv::declares(list, x));
            }
            devenv::lemma_same_sorted(a, b);
            assert(a.len() == v@.len());
            assert(b.len() == w@.len());
            assert forall|k: int| 0 <= k < v@.len() implies (#[trigger] v@[k])@ == w@[k]@ by {
                assert(a[k] == v@[k]@);
                assert(b[k] == w@[k]@);
            }
        }
    }
}

/// The coarser form of a list of services: the same names in the same order,
/// a socket with its file, and `tcp` for any port.
pub proof fn coarser_form(list: Vec<ServiceDecl>, r: Vec<RouteDecl>, k: int)
    requires
        call_ensures(devenv::to_routes, (list,), r),
        0 <= k < list@.len(),
    ensures
        r@.len() == list@.len(),
        r@[k].service@ == list@[k].service@,
        match list@[k].kind {
            ServiceKind::Unix { socket_file } => r@[k].kind matches RouteKind::Unix {
                socket_file: f,
            } && f@ == socket_file@,
            ServiceKind::Tcp { .. } => r@[k].kind == RouteKind::Tcp,
        },
{
    assert(devenv::is_route_of(r@[k], list@[k]@));
}

/// What a service is asked about: whether it has a socket, whether it gets a
/// route of the reverse proxy, and under which host name.
pub proof fn facts_of_a_service(d: &ServiceDecl, project: &str, u: bool, w: bool, h: String)
    requires
        call_ensures(ServiceDecl::is_unix, (d,), u),
        call_ensures(ServiceDecl::wants_proxy, (d,), w),
        call_ensures(ServiceDecl::public_host, (d, project), h),
    ensures
        u <==> d.kind is Unix,
        w <==> d.kind is Unix || d.kind->proxy,
        h@ == d.service@ + "."@ + project@ + ".localhost"@,
{
}

/// The variable that holds the port of a service: each letter is a capital,
/// digits stay, and anything else is an underscore.
pub proof fn variable_of_a_service(service: &str, r: String, k: int)
    requires
        call_ensures(devenv::env_port_var, (service,), r),
        0 <= k < service@.len(),
    ensures
        r@.len() == 11 + service@.len(),
        r@.take(6) == "NEALS_"@,
        r@.skip(6 + service@.len() as int) == "_PORT"@,
        'a' <= service@[k] <= 'z' ==> r@[6 + k] as int == service@[k] as int - 32,
        ('A' <= service@[k] <= 'Z') || ('0' <= service@[k] <= '9') ==> r@[6 + k] == service@[k],
        !('a' <= service@[k] <= 'z') && !('A' <= service@[k] <= 'Z') && !('0' <= service@[k]
            <= '9') ==> r@[6 + k] == '_',
{
    reveal_strlit("NEALS_");
    reveal_strlit("_PORT");
    let key = devenv::service_key(service@);
    assert(key.len() == service@.len());
    assert(r@ == "NEALS_"@ + key + "_PORT"@);
    assert(r@.take(6) == "NEALS_"@);
    assert(r@.skip(6 + service@.len() as int) == "_PORT"@);
    assert(r@[6 + k] == key[k]);
    assert(key[k] == devenv::key_char(service@[k]));
}

/// The key of a service, its host name, and the name of a project.
pub proof fn names_made_of_names(
    service: &str,
    key: String,
    var: String,
    project: &str,
    host: String,
    name: &devenv::ProjectName,
    shown: &str,
    fallback: bool,
)
    requires
        call_ensures(devenv::env_service_key, (service,), key),
        call_ensures(devenv::env_port_var, (service,), var),
        call_ensures(devenv::host_text, (service, project), host),
        call_ensures(devenv::ProjectName::as_str, (name,), shown),
        call_ensures(devenv::ProjectName::is_fallback, (name,), fallback),
    ensures
        var@ == "NEALS_"@ + key@ + "_PORT"@,
        key@.len() == service@.len(),
        host@ == service@ + "."@ + project@ + ".localhost"@,
        fallback <==> name is Fallback,
        shown@ == match *name {
            devenv::ProjectName::FromDevenv(n) => n@,
            devenv::ProjectName::Fallback(n) => n@,
        },
{
}

/// The routes that a source declares in their coarser form are its services:
/// the same names in the same order, sockets with their files.
pub proof fn routes_are_the_services(
    src: &str,
    r: Result<Vec<RouteDecl>, String>,
    s: Result<Vec<ServiceDecl>, String>,
    k: int,
)
    requires
        call_ensures(devenv::parse_neals_routes, (src,), r) || call_ensures(
            devenv::read_neals_routes,
            (Some(src),),
            r,
        ),
        call_ensures(devenv::parse_neals_services, (src,), s),
    ensures
        r is Ok <==> s is Ok,
        (r, s) matches (Err(m), Err(n)) ==> m@ == n@,
        (r, s) matches (Ok(v), Ok(w)) ==> v@.len() == w@.len(),
        (r, s) matches (Ok(v), Ok(w)) ==> (0 <= k < v@.len() ==> v@[k].service@ == w@[k].service@
            && match w@[k].kind {
            ServiceKind::Unix { socket_file } => v@[k].kind matches RouteKind::Unix {
                socket_file: f,
            } && f@ == socket_file@,
            ServiceKind::Tcp { .. } => v@[k].kind == RouteKind::Tcp,
        }),
{
    let t = choose|t: Result<Vec<ServiceDecl>, String>|
        devenv::is_source_services(t, src@) && #[trigger] devenv::is_route_list(r, t);
    if let (Ok(w), Ok(x)) = (s, t) {
        let list = nix::source_literals(src@)->Ok_0;
        let a = devenv::services(w@);
        let b = devenv::services(x@);
        assert forall|y: devenv::Service| #[trigger] a.contains(y) <==> b.contains(y) by {
            assert(a.contains(y) <==> devenv::declares(list, y));
        }
        devenv::lemma_same_sorted(a, b);
        assert(a.len() == w@.len());
        assert(b.len() == x@.len());
        if let Ok(v) = r {
            if 0 <= k < v@.len() {
                assert(devenv::is_route_of(v@[k], x@[k]@));
                assert(a[k] == w@[k]@);
                assert(b[k] == x@[k]@);
            }
        }
    }
}

/// A project without `devenv.nix` has no routes.
pub proof fn no_routes_without_a_source(r: Result<Vec<RouteDecl>, String>)
    requires
        call_ensures(devenv::read_neals_routes, (None,), r),
    ensures
        r matches Ok(v) && v@.len() == 0,
{
}

/// The value at a path is what is bound there, and there is none where nothing
/// is.
pub proof fn value_at_a_path(
    list: &Vec<Binding>,
    path: &Vec<String>,
    r: Option<&NixLit>,
    i: int,
)
    requires
        bound_once(list@),
        call_ensures(nix::find_value, (list, path), r),
        0 <= i < list@.len(),
    ensures
        texts::same_texts(list@[i].path@, path@) ==> (r matches Some(v) && v@ == list@[i].value@),
        r is None ==> !texts::same_texts(list@[i].path@, path@),
        r is Some ==> exists|j: int|
            0 <= j < list@.len() && texts::same_texts((#[trigger] list@[j]).path@, path@),
{
    let all = nix::bounds(list@);
    let p = text::views(path@);
    lemma_once(list@);
    nix::lemma_value_at(all, p);
    texts::lemma_same_texts(list@[i].path@, path@);
    assert(all[i] == list@[i]@);
    if texts::same_texts(list@[i].path@, path@) {
        nix::lemma_found_by_path(all, i);
    }
    if r is Some {
        let j = choose|j: int|
            0 <= j < all.len() && (#[trigger] all[j]).path == p && Some(all[j].value)
                == nix::value_at(all, p);
        assert(all[j] == list@[j]@);
        texts::lemma_same_texts(list@[j].path@, path@);
        assert(texts::same_texts(list@[j].path@, path@));
    }
}

/// How a literal is shown, and that a copy of one is the same.
pub proof fn shown_literal(v: &NixLit, r: String, copy: NixLit)
    requires
        call_ensures(NixLit::debug_text, (v,), r),
        call_ensures(NixLit::copied, (v,), copy),
    ensures
        match *v {
            NixLit::Str(s) => r@ == "Str("@ + text::debug_quoted(s@) + ")"@ && (
            copy matches NixLit::Str(t) && t@ == s@),
            NixLit::Int(n) => r@ == "Int("@ + text::signed_decimal(n as int) + ")"@ && copy
                == NixLit::Int(n),
            NixLit::Bool(b) => copy == NixLit::Bool(b) && r@ == if b {
                "Bool(true)"@
            } else {
                "Bool(false)"@
            },
        },
{
}

// ---------------------------------------------------------------------------
// Complaints
// ---------------------------------------------------------------------------
/// Whether a binding is none below `services`, or that of a field to a value
/// that it can have.
pub open spec fn is_fine(b: Binding) -> bool {
    b.path@.len() >= 2 && b.path@[0]@ == "services"@ ==> b.path@.len() == 3 && is_label(b.path@[1]@)
        && is_fit(b.path@[2]@, b.value)
}

proof fn lemma_fine(b: Binding)
    ensures
        is_fine(b) <==> devenv::service_problem(b@) is None,
{
    reveal_strlit("port");
    reveal_strlit("proxy");
    reveal_strlit("socket");
    assert("port"@.len() == 4 && "proxy"@.len() == 5 && "socket"@.len() == 6);
    assert(b@.path.len() == b.path@.len());
    if b.path@.len() >= 2 {
        assert(b@.path[0] == b.path@[0]@);
        assert(b@.path[1] == b.path@[1]@);
        lemma_label(b.path@[1]@);
    }
    if b.path@.len() == 3 {
        assert(b@.path[2] == b.path@[2]@);
    }
    if let NixLit::Str(s) = b.value {
        lemma_file(s@);
    }
}

/// The first binding below `services` that is not fine is what is complained
/// about, and the complaint says what it should be.
pub proof fn complaint_about_a_field(
    list: &Vec<Binding>,
    r: Result<Vec<ServiceDecl>, String>,
    i: int,
    dotted: String,
)
    requires
        bound_once(list@),
        call_ensures(devenv::declared_services, (list,), r),
        0 <= i < list@.len(),
        !is_fine(list@[i]),
        forall|j: int| 0 <= j < i ==> is_fine(#[trigger] list@[j]),
        call_ensures(words::join, (&list@[i].path, "."), dotted),
    ensures
        r matches Err(m) && {
            let p = list@[i].path@;
            let whole = "neals.services."@ + p[1]@;
            let field = "`"@ + whole + "."@ + p[2]@ + "`"@;
            let own = is_label(p[1]@) && p.len() == 3;
            &&& !is_label(p[1]@) ==> m@ == "invalid neals.services service name `"@ + p[1]@ + "`"@
            &&& is_label(p[1]@) && p.len() == 2 ==> m@ == whole
                + " must be an attrset (e.g. { port = 6379; } or { port = 8025; proxy = true; })"@
            &&& is_label(p[1]@) && p.len() > 3 ==> m@ == "unsupported neals.services path `"@
                + dotted@ + "`"@
            &&& own && p[2]@ == "port"@ ==> m@ == match list@[i].value {
                NixLit::Int(n) => field + " must be in 1..=65535, got "@ + text::signed_decimal(
                    n as int,
                ),
                _ => field + " must be an integer literal"@,
            }
            &&& own && p[2]@ == "proxy"@ ==> m@ == field
                + " must be a boolean literal (true/false)"@
            &&& own && p[2]@ == "socket"@ ==> m@ == match list@[i].value {
                NixLit::Str(s) => "invalid "@ + whole + ".socket `"@ + s@
                    + "` (expected a bare filename like backend.sock)"@,
                _ => field + " must be a string literal"@,
            }
            &&& own && p[2]@ != "port"@ && p[2]@ != "proxy"@ && p[2]@ != "socket"@ ==> m@
                == "unknown "@ + whole + " field `"@ + p[2]@ + "`"@
        },
{
    let all = nix::bounds(list@);
    let front = all.take(i);
    assert forall|j: int| 0 <= j < front.len() implies devenv::service_problem(
        #[trigger] front[j],
    ) is None by {
        assert(front[j] == list@[j]@);
        lemma_fine(list@[j]);
    }
    devenv::lemma_all_services_fine(front);
    lemma_fine(list@[i]);
    let b = list@[i]@;
    assert(all[i] == b);
    assert(all.take(i + 1).drop_last() == front);
    assert(all.take(i + 1).last() == b);
    devenv::lemma_first_service_problem(all, i + 1);
    assert(devenv::services_problem(all) == devenv::service_problem(b));
    reveal_strlit("port");
    reveal_strlit("proxy");
    reveal_strlit("socket");
    assert("port"@.len() == 4 && "proxy"@.len() == 5 && "socket"@.len() == 6);
    let p = list@[i].path@;
    assert(b.path.len() == p.len());
    assert(b.path[0] == p[0]@);
    assert(b.path[1] == p[1]@);
    lemma_label(p[1]@);
    if p.len() == 3 {
        assert(b.path[2] == p[2]@);
    }
    if let NixLit::Str(s) = list@[i].value {
        lemma_file(s@);
    }
}

/// Whether a message says what a service lacks or has too much of.
pub open spec fn says_what_is_missing(list: Seq<Binding>, s: Seq<char>, m: Seq<char>) -> bool {
    let port = has_field(list, s, "port"@);
    let socket = has_field(list, s, "socket"@);
    let whole = "neals.services."@ + s;
    ||| port && socket && m == whole + " cannot set both port and socket"@
    ||| !port && !socket && m == whole + " needs port = <n> or socket = \"file.sock\""@
    ||| !port && socket && has_bool(list, s, "proxy"@, false) && m == whole
        + ".socket cannot set proxy = false (UNIX services are always reverse-proxied)"@
}

proof fn lemma_draft_reason(all: Seq<nix::Bound>, names: Seq<Seq<char>>) -> (s: Seq<char>)
    requires
        devenv::first_draft_problem(all, names) is Some,
    ensures
        names.contains(s),
        devenv::kind_of(s, devenv::draft_of(all, s)) == Err::<devenv::Kind, Seq<char>>(
            devenv::first_draft_problem(all, names)->0,
        ),
    decreases names.len(),
{
    let front = names.drop_last();
    if devenv::first_draft_problem(all, front) is Some {
        let s = lemma_draft_reason(all, front);
        let k = front.index_of(s);
        assert(names[k] == s);
        s
    } else {
        assert(names[names.len() - 1] == names.last());
        names.last()
    }
}

/// Where each field is fit, a complaint is about a service that is not whole.
pub proof fn complaint_about_a_service(list: &Vec<Binding>, r: Result<Vec<ServiceDecl>, String>)
    requires
        bound_once(list@),
        call_ensures(devenv::declared_services, (list,), r),
        fields_are_fit(list@),
        !services_are_whole(list@),
    ensures
        r matches Err(m) && exists|s: Seq<char>| #[trigger]
            speaks_of(list@, s) && says_what_is_missing(list@, s, m@),
{
    let all = nix::bounds(list@);
    let names = devenv::service_names(all);
    lemma_fit(list@);
    devenv::lemma_all_drafts_fine(all, names);
    assert forall|s: Seq<char>| #[trigger] names.contains(s) <==> speaks_of(list@, s) by {
        lemma_about(list@, s);
    }
    if devenv::first_draft_problem(all, names) is None {
        assert forall|s: Seq<char>| #[trigger] speaks_of(list@, s) implies {
            &&& has_field(list@, s, "port"@) != has_field(list@, s, "socket"@)
            &&& has_field(list@, s, "socket"@) ==> !has_bool(list@, s, "proxy"@, false)
        } by {
            assert(names.contains(s));
            lemma_whole(list@, s);
        }
        assert(services_are_whole(list@));
    }
    let s = lemma_draft_reason(all, names);
    lemma_reason(list@, s);
    assert(speaks_of(list@, s));
}

proof fn lemma_reason(list: Seq<Binding>, s: Seq<char>)
    requires
        bound_once(list),
        fields_are_fit(list),
    ensures
        devenv::kind_of(s, devenv::draft_of(nix::bounds(list), s)) matches Err(m)
            ==> says_what_is_missing(list, s, m),
{
    reveal_strlit("port");
    reveal_strlit("proxy");
    reveal_strlit("socket");
    assert("port"@.len() == 4 && "proxy"@.len() == 5 && "socket"@.len() == 6);
    lemma_has_field(list, s, "port"@);
    lemma_has_field(list, s, "socket"@);
    lemma_has_bool(list, s, "proxy"@, false);
    if has_field(list, s, "port"@) {
        lemma_field_value(list, s, "port"@);
    }
    if has_field(list, s, "socket"@) {
        lemma_field_value(list, s, "socket"@);
    }
}

/// Whether a binding is no route, or one with a proper name that no service
/// has, which says `tcp` or names a file.
pub open spec fn is_fine_route(list: Seq<Binding>, b: Binding) -> bool {
    b.path@.len() == 2 && b.path@[0]@ == "route"@ ==> is_label(b.path@[1]@) && !speaks_of(
        list,
        b.path@[1]@,
    ) && (b.value matches NixLit::Str(s) && (s@ == "tcp"@ || is_file(s@)))
}

proof fn lemma_fine_route(list: Seq<Binding>, b: Binding)
    ensures
        is_fine_route(list, b) <==> devenv::route_problem(
            devenv::service_names(nix::bounds(list)),
            b@,
        ) is None,
{
    assert(b@.path.len() == b.path@.len());
    if b.path@.len() == 2 {
        assert(b@.path[0] == b.path@[0]@);
        assert(b@.path[1] == b.path@[1]@);
        lemma_label(b.path@[1]@);
        lemma_about(list, b.path@[1]@);
    }
    if let NixLit::Str(s) = b.value {
        lemma_file(s@);
    }
}

/// Where the services are fine, the first route that is not is what is
/// complained about.
pub proof fn complaint_about_a_route(
    list: &Vec<Binding>,
    r: Result<Vec<ServiceDecl>, String>,
    i: int,
)
    requires
        bound_once(list@),
        call_ensures(devenv::declared_services, (list,), r),
        fields_are_fit(list@),
        services_are_whole(list@),
        0 <= i < list@.len(),
        !is_fine_route(list@, list@[i]),
        forall|j: int| 0 <= j < i ==> is_fine_route(list@, #[trigger] list@[j]),
    ensures
        r matches Err(m) && {
            let s = list@[i].path@[1]@;
            let whole = "neals.route."@ + s;
            let proper = is_label(s) && !speaks_of(list@, s);
            &&& !is_label(s) ==> m@ == "invalid neals.route service name `"@ + s + "`"@
            &&& is_label(s) && speaks_of(list@, s) ==> m@ == whole
                + " conflicts with neals.services."@ + s + " (use only neals.services)"@
            &&& proper ==> m@ == match list@[i].value {
                NixLit::Str(t) => "invalid "@ + whole + " value `"@ + t@
                    + "` (expected \"tcp\" or a bare filename like backend.sock)"@,
                _ => whole + " must be a string literal"@,
            }
        },
{
    let all = nix::bounds(list@);
    let names = devenv::service_names(all);
    lemma_fit(list@);
    devenv::lemma_all_drafts_fine(all, names);
    assert forall|s: Seq<char>| #[trigger] names.contains(s) implies devenv::kind_of(
        s,
        devenv::draft_of(all, s),
    ) is Ok by {
        lemma_about(list@, s);
        assert(speaks_of(list@, s));
        lemma_whole(list@, s);
    }
    let front = all.take(i);
    assert forall|j: int| 0 <= j < front.len() implies devenv::route_problem(
        names,
        #[trigger] front[j],
    ) is None by {
        assert(front[j] == list@[j]@);
        lemma_fine_route(list@, list@[j]);
    }
    devenv::lemma_all_routes_fine(names, front);
    lemma_fine_route(list@, list@[i]);
    let b = list@[i]@;
    assert(all[i] == b);
    assert(all.take(i + 1).drop_last() == front);
    assert(all.take(i + 1).last() == b);
    devenv::lemma_first_route_problem(names, all, i + 1);
    assert(devenv::services_problem(all) == devenv::route_problem(names, b));
    let p = list@[i].path@;
    assert(b.path.len() == p.len());
    assert(b.path[0] == p[0]@);
    assert(b.path[1] == p[1]@);
    lemma_label(p[1]@);
    lemma_about(list@, p[1]@);
    if let NixLit::Str(s) = list@[i].value {
        lemma_file(s@);
    }
    reveal_strlit(" conflicts with ");
    reveal_strlit("neals.services.");
    reveal_strlit(" conflicts with neals.services.");
    assert(" conflicts with "@ + "neals.services."@ == " conflicts with neals.services."@);
    let whole = "neals.route."@ + p[1]@;
    assert(whole + " conflicts with "@ + ("neals.services."@ + p[1]@)
        + " (use only neals.services)"@ == whole + " conflicts with neals.services."@ + p[1]@
        + " (use only neals.services)"@);
}

} // verus!
