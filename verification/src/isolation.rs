//! The isolation rules a resolved Compose model must satisfy before a
//! rehearsal may start: no host namespaces, privileges, bind mounts, devices,
//! published ports, Docker API access or weakened security options, and no
//! external or unscoped networks and volumes.
use vstd::prelude::*;
use vstd::string::StringExecFns;
use crate::config::{
    first_issue, first_of, lemma_first_issue_at, lemma_first_issue_none,
    lemma_first_issue_none_each, outcome,
};
use crate::json::{
    extends_at, has_items, inner, json_bool, json_get, json_str, lemma_element_kept,
    lemma_lookup_kept, lemma_member_kept, lemma_scalar_kept, value_has_items, JsonValue,
};
use crate::text::{
    ascii_lowercase, chars_of, contains_chars, contains_text, lowercase_chars, starts_with,
    same_chars, starts_with_chars, string_of,
};

verus! {

/// The beginning of every refusal of a Compose model.
pub const UNSAFE_COMPOSE_PREFIX: &'static str = "unsafe Compose isolation:";

/// A refusal of a Compose model, with `message` saying why.
pub open spec fn unsafe_text(message: Seq<char>) -> Seq<char> {
    UNSAFE_COMPOSE_PREFIX@ + seq![' '] + message
}

/// The refusal with the given reason.
pub fn unsafe_compose(message: &str) -> (r: String)
    ensures
        r@ == unsafe_text(message@),
        starts_with(r@, UNSAFE_COMPOSE_PREFIX@),
{
    let mut r = String::from_str(UNSAFE_COMPOSE_PREFIX);
    r.push(' ');
    r.append(message);
    assert(r@.subrange(0, UNSAFE_COMPOSE_PREFIX@.len() as int) == UNSAFE_COMPOSE_PREFIX@);
    r
}

/// The string member `field` of `service`, when it is a non-empty string other than `allowed`.
pub open spec fn overrides_mode(service: JsonValue, field: Seq<char>, allowed: Seq<char>) -> bool {
    json_str(json_get(service, field)) matches Some(mode) && mode.len() > 0 && mode != allowed
}

/// The boolean member `field` of `service` is `true`.
pub open spec fn flag_set(service: JsonValue, field: Seq<char>) -> bool {
    json_bool(json_get(service, field)) == Some(true)
}

/// The service joins a host namespace of kind `namespace`.
pub open spec fn namespace_issue(name: Seq<char>, service: JsonValue, namespace: Seq<char>) -> Option<
    Seq<char>,
> {
    if overrides_mode(service, namespace, "private"@) {
        Some(unsafe_text("service "@ + name + " overrides its "@ + namespace + " namespace"@))
    } else {
        None
    }
}

/// The service declares the host-facing field `field`.
pub open spec fn host_facing_issue(name: Seq<char>, service: JsonValue, field: Seq<char>) -> Option<
    Seq<char>,
> {
    if has_items(json_get(service, field)) {
        Some(unsafe_text("service "@ + name + " declares host-facing `"@ + field + "` access"@))
    } else {
        None
    }
}

/// The service declares the host-scoped field `field`.
pub open spec fn host_scoped_issue(name: Seq<char>, service: JsonValue, field: Seq<char>) -> Option<
    Seq<char>,
> {
    if has_items(json_get(service, field)) {
        Some(unsafe_text("service "@ + name + " declares host-scoped `"@ + field + "` access"@))
    } else {
        None
    }
}

/// Some entry of the service's `volumes` array is a bind mount.
pub open spec fn has_bind_mount(service: JsonValue) -> bool {
    json_get(service, "volumes"@) matches Some(JsonValue::Array(volumes)) && exists|i: int|
        0 <= i < volumes@.len() && json_str(json_get(#[trigger] volumes@[i], "type"@)) == Some(
            "bind"@,
        )
}

/// A security option that switches a container boundary off.
pub open spec fn weakening_option(option: Seq<char>) -> bool {
    let o = ascii_lowercase(option);
    contains_text(o, "unconfined"@) || o == "label:disable"@ || o == "no-new-privileges:false"@
}

/// Some string entry of the service's `security_opt` array switches a boundary off.
pub open spec fn has_weakening_option(service: JsonValue) -> bool {
    json_get(service, "security_opt"@) matches Some(JsonValue::Array(options)) && exists|i: int|
        0 <= i < options@.len() && (#[trigger] options@[i] matches JsonValue::Str(s)
            && weakening_option(s@))
}

/// The first isolation rule the service `name` breaks, in the order they are checked.
pub open spec fn service_issue(name: Seq<char>, service: JsonValue) -> Option<Seq<char>> {
    let prefix = "service "@ + name;
    if overrides_mode(service, "network_mode"@, "none"@) {
        Some(unsafe_text(prefix + " overrides its project network namespace"@))
    } else {
        first_of(
            namespace_issue(name, service, "pid"@),
            first_of(
                namespace_issue(name, service, "ipc"@),
                first_of(
                    namespace_issue(name, service, "uts"@),
                    first_of(
                        namespace_issue(name, service, "userns_mode"@),
                        first_of(
                            namespace_issue(name, service, "cgroup"@),
                            service_access_issue(name, service),
                        ),
                    ),
                ),
            ),
        )
    }
}

/// The rules on privileges, mounts, host-facing and host-scoped fields, the
/// Docker API socket and security options, in the order they are checked.
pub open spec fn service_access_issue(name: Seq<char>, service: JsonValue) -> Option<Seq<char>> {
    let prefix = "service "@ + name;
    if flag_set(service, "privileged"@) {
        Some(unsafe_text(prefix + " is privileged"@))
    } else if has_bind_mount(service) {
        Some(
            unsafe_text(prefix + " uses a host bind mount; copy artifacts explicitly instead"@),
        )
    } else {
        first_of(
            host_facing_issue(name, service, "cap_add"@),
            first_of(
                host_facing_issue(name, service, "devices"@),
                first_of(
                    host_facing_issue(name, service, "device_cgroup_rules"@),
                    first_of(
                        host_facing_issue(name, service, "external_links"@),
                        first_of(
                            host_facing_issue(name, service, "ports"@),
                            first_of(
                                host_facing_issue(name, service, "volumes_from"@),
                                service_scope_issue(name, service),
                            ),
                        ),
                    ),
                ),
            ),
        )
    }
}

/// The rules on host-scoped fields, the Docker API socket and security options.
pub open spec fn service_scope_issue(name: Seq<char>, service: JsonValue) -> Option<Seq<char>> {
    let prefix = "service "@ + name;
    first_of(
        host_scoped_issue(name, service, "container_name"@),
        first_of(
            host_scoped_issue(name, service, "credential_spec"@),
            first_of(
                host_scoped_issue(name, service, "provider"@),
                first_of(
                    host_scoped_issue(name, service, "runtime"@),
                    if flag_set(service, "use_api_socket"@) {
                        Some(unsafe_text(prefix + " requests the Docker API socket"@))
                    } else if has_weakening_option(service) {
                        Some(unsafe_text(prefix + " disables a container security boundary"@))
                    } else {
                        None
                    },
                ),
            ),
        ),
    )
}

/// The rules on one entry of the top-level `networks` or `volumes` object.
pub open spec fn scope_issue(group: Seq<char>, name: Seq<char>, item: JsonValue, project: Seq<char>) -> Option<
    Seq<char>,
> {
    if flag_set(item, "external"@) {
        Some(unsafe_text("external "@ + group + " entry is not isolated: "@ + name))
    } else if json_str(json_get(item, "name"@)) matches Some(resolved) && !starts_with(
        resolved,
        project + seq!['_'],
    ) {
        Some(
            unsafe_text(
                group + " entry `"@ + name + "` is not scoped to project `"@ + project + "`"@,
            ),
        )
    } else {
        None
    }
}

/// The members of the object at `key` of the document, when it is an object.
pub open spec fn object_members(config: JsonValue, key: Seq<char>) -> Seq<(String, JsonValue)> {
    match json_get(config, key) {
        Some(JsonValue::Object(members)) => members@,
        _ => Seq::empty(),
    }
}

/// The first service that breaks an isolation rule, in member order.
pub open spec fn services_issue(config: JsonValue) -> Option<Seq<char>> {
    let services = object_members(config, "services"@);
    first_issue(|i: int| service_issue(services[i].0@, services[i].1), 0, services.len() as int)
}

/// The first entry of `group` that is external or not scoped to the project.
pub open spec fn group_issue(config: JsonValue, group: Seq<char>, project: Seq<char>) -> Option<
    Seq<char>,
> {
    let items = object_members(config, group);
    first_issue(|i: int| scope_issue(group, items[i].0@, items[i].1, project), 0, items.len() as int)
}

/// The first isolation rule the resolved Compose model breaks for the project.
pub open spec fn compose_issue(config: JsonValue, project: Seq<char>) -> Option<Seq<char>> {
    first_of(
        services_issue(config),
        first_of(
            group_issue(config, "networks"@, project),
            group_issue(config, "volumes"@, project),
        ),
    )
}

fn overrides(service: &JsonValue, field: &str, allowed: &str) -> (r: bool)
    ensures
        r == overrides_mode(*service, field@, allowed@),
{
    match service.get(field) {
        Some(value) => match value.as_str() {
            Some(mode) => {
                let mode_chars = chars_of(mode);
                let allowed_chars = chars_of(allowed);
                mode_chars.len() > 0 && !same_chars(&mode_chars, &allowed_chars)
            },
            None => false,
        },
        None => false,
    }
}

fn flag(service: &JsonValue, field: &str) -> (r: bool)
    ensures
        r == flag_set(*service, field@),
{
    match service.get(field) {
        Some(value) => match value.as_bool() {
            Some(b) => b,
            None => false,
        },
        None => false,
    }
}

fn service_message(name: &str, text: &str) -> (r: String)
    ensures
        r@ == unsafe_text("service "@ + name@ + text@),
        starts_with(r@, UNSAFE_COMPOSE_PREFIX@),
{
    let mut message = String::from_str("service ");
    message.append(name);
    message.append(text);
    unsafe_compose(message.as_str())
}

fn check_namespace(name: &str, service: &JsonValue, namespace: &str) -> (r: Result<(), String>)
    ensures
        outcome(r) == namespace_issue(name@, *service, namespace@),
        r matches Err(e) ==> starts_with(e@, UNSAFE_COMPOSE_PREFIX@),
{
    if overrides(service, namespace, "private") {
        let mut message = String::from_str("service ");
        message.append(name);
        message.append(" overrides its ");
        message.append(namespace);
        message.append(" namespace");
        return Err(unsafe_compose(message.as_str()));
    }
    Ok(())
}

fn check_host_facing(name: &str, service: &JsonValue, field: &str) -> (r: Result<(), String>)
    ensures
        outcome(r) == host_facing_issue(name@, *service, field@),
        r matches Err(e) ==> starts_with(e@, UNSAFE_COMPOSE_PREFIX@),
{
    if value_has_items(service.get(field)) {
        let mut message = String::from_str("service ");
        message.append(name);
        message.append(" declares host-facing `");
        message.append(field);
        message.append("` access");
        return Err(unsafe_compose(message.as_str()));
    }
    Ok(())
}

fn check_host_scoped(name: &str, service: &JsonValue, field: &str) -> (r: Result<(), String>)
    ensures
        outcome(r) == host_scoped_issue(name@, *service, field@),
        r matches Err(e) ==> starts_with(e@, UNSAFE_COMPOSE_PREFIX@),
{
    if value_has_items(service.get(field)) {
        let mut message = String::from_str("service ");
        message.append(name);
        message.append(" declares host-scoped `");
        message.append(field);
        message.append("` access");
        return Err(unsafe_compose(message.as_str()));
    }
    Ok(())
}

#[verifier::loop_isolation(false)]
fn bind_mount(service: &JsonValue) -> (r: bool)
    ensures
        r == has_bind_mount(*service),
{
    match service.get("volumes") {
        Some(JsonValue::Array(volumes)) => {
            let n = volumes.len();
            let bind = String::from_str("bind");
            for i in 0..n
                invariant
                    n == volumes@.len(),
                    bind@ == "bind"@,
                    forall|j: int|
                        0 <= j < i ==> json_str(json_get(#[trigger] volumes@[j], "type"@)) != Some(
                            "bind"@,
                        ),
            {
                match volumes[i].get("type") {
                    Some(t) => match t.as_str() {
                        Some(kind) => {
                            if String::from_str(kind) == bind {
                                assert(json_str(json_get(volumes@[i as int], "type"@)) == Some(
                                    "bind"@,
                                ));
                                return true;
                            }
                        },
                        None => {},
                    },
                    None => {},
                }
            }
            false
        },
        _ => false,
    }
}

fn weakening(option: &str) -> (r: bool)
    ensures
        r == weakening_option(option@),
{
    let chars = chars_of(option);
    let lower = lowercase_chars(&chars);
    let unconfined = chars_of("unconfined");
    if contains_chars(&lower, &unconfined) {
        return true;
    }
    let text = string_of(&lower);
    text == String::from_str("label:disable") || text == String::from_str("no-new-privileges:false")
}

#[verifier::loop_isolation(false)]
fn weakening_option_present(service: &JsonValue) -> (r: bool)
    ensures
        r == has_weakening_option(*service),
{
    match service.get("security_opt") {
        Some(JsonValue::Array(options)) => {
            let n = options.len();
            for i in 0..n
                invariant
                    n == options@.len(),
                    forall|j: int|
                        0 <= j < i ==> !(#[trigger] options@[j] matches JsonValue::Str(s)
                            && weakening_option(s@)),
            {
                match &options[i] {
                    JsonValue::Str(s) => {
                        if weakening(s.as_str()) {
                            assert(options@[i as int] matches JsonValue::Str(t) && weakening_option(
                                t@,
                            ));
                            return true;
                        }
                    },
                    _ => {},
                }
            }
            false
        },
        _ => false,
    }
}

fn check_scope(name: &str, service: &JsonValue) -> (r: Result<(), String>)
    ensures
        outcome(r) == service_scope_issue(name@, *service),
        r matches Err(e) ==> starts_with(e@, UNSAFE_COMPOSE_PREFIX@),
{
    let r = check_host_scoped(name, service, "container_name");
    if r.is_err() {
        return r;
    }
    let r = check_host_scoped(name, service, "credential_spec");
    if r.is_err() {
        return r;
    }
    let r = check_host_scoped(name, service, "provider");
    if r.is_err() {
        return r;
    }
    let r = check_host_scoped(name, service, "runtime");
    if r.is_err() {
        return r;
    }
    if flag(service, "use_api_socket") {
        return Err(service_message(name, " requests the Docker API socket"));
    }
    if weakening_option_present(service) {
        return Err(service_message(name, " disables a container security boundary"));
    }
    Ok(())
}

fn check_access(name: &str, service: &JsonValue) -> (r: Result<(), String>)
    ensures
        outcome(r) == service_access_issue(name@, *service),
        r matches Err(e) ==> starts_with(e@, UNSAFE_COMPOSE_PREFIX@),
{
    if flag(service, "privileged") {
        return Err(service_message(name, " is privileged"));
    }
    if bind_mount(service) {
        return Err(
            service_message(name, " uses a host bind mount; copy artifacts explicitly instead"),
        );
    }
    let r = check_host_facing(name, service, "cap_add");
    if r.is_err() {
        return r;
    }
    let r = check_host_facing(name, service, "devices");
    if r.is_err() {
        return r;
    }
    let r = check_host_facing(name, service, "device_cgroup_rules");
    if r.is_err() {
        return r;
    }
    let r = check_host_facing(name, service, "external_links");
    if r.is_err() {
        return r;
    }
    let r = check_host_facing(name, service, "ports");
    if r.is_err() {
        return r;
    }
    let r = check_host_facing(name, service, "volumes_from");
    if r.is_err() {
        return r;
    }
    check_scope(name, service)
}

fn check_service(name: &str, service: &JsonValue) -> (r: Result<(), String>)
    ensures
        outcome(r) == service_issue(name@, *service),
        r matches Err(e) ==> starts_with(e@, UNSAFE_COMPOSE_PREFIX@),
{
    if overrides(service, "network_mode", "none") {
        return Err(service_message(name, " overrides its project network namespace"));
    }
    let r = check_namespace(name, service, "pid");
    if r.is_err() {
        return r;
    }
    let r = check_namespace(name, service, "ipc");
    if r.is_err() {
        return r;
    }
    let r = check_namespace(name, service, "uts");
    if r.is_err() {
        return r;
    }
    let r = check_namespace(name, service, "userns_mode");
    if r.is_err() {
        return r;
    }
    let r = check_namespace(name, service, "cgroup");
    if r.is_err() {
        return r;
    }
    check_access(name, service)
}

fn check_scope_entry(group: &str, name: &str, item: &JsonValue, project: &str) -> (r: Result<
    (),
    String,
>)
    ensures
        outcome(r) == scope_issue(group@, name@, *item, project@),
        r matches Err(e) ==> starts_with(e@, UNSAFE_COMPOSE_PREFIX@),
{
    if flag(item, "external") {
        let mut message = String::from_str("external ");
        message.append(group);
        message.append(" entry is not isolated: ");
        message.append(name);
        return Err(unsafe_compose(message.as_str()));
    }
    match item.get("name") {
        Some(value) => match value.as_str() {
            Some(resolved) => {
                let resolved_chars = chars_of(resolved);
                let mut scope = chars_of(project);
                scope.push('_');
                assert(scope@ == project@ + seq!['_']);
                if !starts_with_chars(&resolved_chars, &scope) {
                    let mut message = String::from_str(group);
                    message.append(" entry `");
                    message.append(name);
                    message.append("` is not scoped to project `");
                    message.append(project);
                    message.append("`");
                    return Err(unsafe_compose(message.as_str()));
                }
            },
            None => {},
        },
        None => {},
    }
    Ok(())
}

/// The members of the object at `key`, or none.
fn members_at<'a>(config: &'a JsonValue, key: &str) -> (r: &'a [(String, JsonValue)])
    ensures
        r@ == object_members(*config, key@),
{
    match config.get(key) {
        Some(JsonValue::Object(members)) => members.as_slice(),
        _ => &[],
    }
}

#[verifier::loop_isolation(false)]
fn check_group(config: &JsonValue, group: &str, project: &str) -> (r: Result<(), String>)
    ensures
        outcome(r) == group_issue(*config, group@, project@),
        r matches Err(e) ==> starts_with(e@, UNSAFE_COMPOSE_PREFIX@),
{
    let items = members_at(config, group);
    let ghost f = |i: int| scope_issue(group@, items@[i].0@, items@[i].1, project@);
    let n = items.len();
    for i in 0..n
        invariant
            n == items@.len(),
            forall|k: int| 0 <= k < i ==> #[trigger] f(k) is None,
    {
        let r = check_scope_entry(group, items[i].0.as_str(), &items[i].1, project);
        if r.is_err() {
            proof {
                lemma_first_issue_at(f, 0, n as int, i as int);
            }
            return r;
        }
    }
    proof {
        lemma_first_issue_none(f, 0, n as int);
    }
    Ok(())
}

/// Refuses a resolved Compose model that lets the rehearsal reach the host or
/// anything outside the declared project, naming the first rule it breaks.
#[verifier::loop_isolation(false)]
pub fn reject_unsafe_compose(config: &JsonValue, project: &str) -> (r: Result<(), String>)
    ensures
        outcome(r) == compose_issue(*config, project@),
        r matches Err(e) ==> starts_with(e@, UNSAFE_COMPOSE_PREFIX@),
{
    let services = members_at(config, "services");
    let ghost f = |i: int| service_issue(services@[i].0@, services@[i].1);
    let n = services.len();
    for i in 0..n
        invariant
            n == services@.len(),
            forall|k: int| 0 <= k < i ==> #[trigger] f(k) is None,
    {
        let r = check_service(services[i].0.as_str(), &services[i].1);
        if r.is_err() {
            proof {
                lemma_first_issue_at(f, 0, n as int, i as int);
            }
            return r;
        }
    }
    proof {
        lemma_first_issue_none(f, 0, n as int);
    }
    let r = check_group(config, "networks", project);
    if r.is_err() {
        return r;
    }
    check_group(config, "volumes", project)
}


// ---------------------------------------------------------------------------
// Adding configuration never lifts a refusal
// ---------------------------------------------------------------------------
proof fn lemma_fields_kept(big: JsonValue, small: JsonValue, n: nat)
    requires
        extends_at(big, small, n),
    ensures
        forall|field: Seq<char>, allowed: Seq<char>|
            #[trigger] overrides_mode(small, field, allowed) ==> overrides_mode(big, field, allowed),
        forall|field: Seq<char>| #[trigger] flag_set(small, field) ==> flag_set(big, field),
        forall|field: Seq<char>|
            #[trigger] has_items(json_get(small, field)) ==> has_items(json_get(big, field)),
{
    assert forall|field: Seq<char>, allowed: Seq<char>|
        #[trigger] overrides_mode(small, field, allowed) implies overrides_mode(big, field, allowed) by {
        lemma_lookup_kept(big, small, n, field);
    }
    assert forall|field: Seq<char>| #[trigger] flag_set(small, field) implies flag_set(big, field) by {
        lemma_lookup_kept(big, small, n, field);
    }
    assert forall|field: Seq<char>|
        #[trigger] has_items(json_get(small, field)) implies has_items(json_get(big, field)) by {
        lemma_lookup_kept(big, small, n, field);
    }
}

proof fn lemma_bind_mount_kept(big: JsonValue, small: JsonValue, n: nat)
    requires
        extends_at(big, small, n),
        has_bind_mount(small),
    ensures
        has_bind_mount(big),
{
    lemma_lookup_kept(big, small, n, "volumes"@);
    let sv = json_get(small, "volumes"@)->0;
    let bv = json_get(big, "volumes"@)->0;
    let vols = sv->Array_0@;
    let i = choose|i: int|
        0 <= i < vols.len() && json_str(json_get(#[trigger] vols[i], "type"@)) == Some("bind"@);
    let j = lemma_element_kept(bv, sv, inner(n), i);
    let bvols = bv->Array_0@;
    lemma_lookup_kept(bvols[j], vols[i], inner(inner(n)), "type"@);
    assert(json_str(json_get(bvols[j], "type"@)) == Some("bind"@));
}

proof fn lemma_weakening_kept(big: JsonValue, small: JsonValue, n: nat)
    requires
        extends_at(big, small, n),
        has_weakening_option(small),
    ensures
        has_weakening_option(big),
{
    lemma_lookup_kept(big, small, n, "security_opt"@);
    let so = json_get(small, "security_opt"@)->0;
    let bo = json_get(big, "security_opt"@)->0;
    let options = so->Array_0@;
    let i = choose|i: int|
        0 <= i < options.len() && (#[trigger] options[i] matches JsonValue::Str(s) && weakening_option(
            s@,
        ));
    let j = lemma_element_kept(bo, so, inner(n), i);
    let boptions = bo->Array_0@;
    lemma_scalar_kept(boptions[j], options[i], inner(inner(n)));
    assert(boptions[j] == options[i]);
}

/// A service that breaks an isolation rule still breaks one with
/// configuration added.
pub proof fn lemma_service_refusal_kept(name: Seq<char>, big: JsonValue, small: JsonValue, n: nat)
    requires
        extends_at(big, small, n),
        service_issue(name, small) is Some,
    ensures
        service_issue(name, big) is Some,
{
    lemma_fields_kept(big, small, n);
    if has_bind_mount(small) {
        lemma_bind_mount_kept(big, small, n);
    }
    if has_weakening_option(small) {
        lemma_weakening_kept(big, small, n);
    }
}

/// A network or volume that breaks a scoping rule still breaks one with
/// configuration added.
pub proof fn lemma_scope_refusal_kept(
    group: Seq<char>,
    name: Seq<char>,
    big: JsonValue,
    small: JsonValue,
    project: Seq<char>,
    n: nat,
)
    requires
        extends_at(big, small, n),
        scope_issue(group, name, small, project) is Some,
    ensures
        scope_issue(group, name, big, project) is Some,
{
    lemma_fields_kept(big, small, n);
    lemma_lookup_kept(big, small, n, "name"@);
}

/// Where entry `k` of the object at `key` lies in the extended document.
proof fn lemma_entry_kept(big: JsonValue, small: JsonValue, n: nat, key: Seq<char>, k: int) -> (j: int)
    requires
        extends_at(big, small, n),
        0 <= k < object_members(small, key).len(),
    ensures
        json_get(big, key) matches Some(JsonValue::Object(bm)) && 0 <= j < bm@.len() && bm@ == object_members(big, key)
            && bm@[j].0@ == object_members(small, key)[k].0@ && extends_at(
            bm@[j].1,
            object_members(small, key)[k].1,
            inner(inner(n)),
        ),
{
    lemma_lookup_kept(big, small, n, key);
    let sv = json_get(small, key)->0;
    let bv = json_get(big, key)->0;
    lemma_member_kept(bv, sv, inner(n), k)
}

/// Adding configuration never turns a refused Compose model into an accepted
/// one: if `small` breaks an isolation rule for `project`, so does every model
/// that adds object members under new keys or array elements to it, at any
/// depth, without changing or removing anything it holds.
pub proof fn lemma_refusal_survives_additions(
    small: JsonValue,
    big: JsonValue,
    project: Seq<char>,
    n: nat,
)
    requires
        extends_at(big, small, n),
        compose_issue(small, project) is Some,
    ensures
        compose_issue(big, project) is Some,
{
    let services = object_members(small, "services"@);
    let big_services = object_members(big, "services"@);
    let f1 = |i: int| service_issue(services[i].0@, services[i].1);
    let f2 = |i: int| service_issue(big_services[i].0@, big_services[i].1);
    if first_issue(f1, 0, services.len() as int) is Some {
        if forall|k: int| 0 <= k < services.len() ==> #[trigger] f1(k) is None {
            lemma_first_issue_none(f1, 0, services.len() as int);
        }
        let k = choose|k: int| 0 <= k < services.len() && #[trigger] f1(k) is Some;
        let j = lemma_entry_kept(big, small, n, "services"@, k);
        lemma_service_refusal_kept(services[k].0@, big_services[j].1, services[k].1, inner(inner(n)));
        assert(f2(j) is Some);
        if first_issue(f2, 0, big_services.len() as int) is None {
            lemma_first_issue_none_each(f2, 0, big_services.len() as int);
        }
        assert(services_issue(big) is Some);
    } else {
        let group = if group_issue(small, "networks"@, project) is Some {
            "networks"@
        } else {
            "volumes"@
        };
        assert(group_issue(small, group, project) is Some);
        let items = object_members(small, group);
        let big_items = object_members(big, group);
        let g1 = |i: int| scope_issue(group, items[i].0@, items[i].1, project);
        let g2 = |i: int| scope_issue(group, big_items[i].0@, big_items[i].1, project);
        if forall|k: int| 0 <= k < items.len() ==> #[trigger] g1(k) is None {
            lemma_first_issue_none(g1, 0, items.len() as int);
        }
        let k = choose|k: int| 0 <= k < items.len() && #[trigger] g1(k) is Some;
        let j = lemma_entry_kept(big, small, n, group, k);
        lemma_scope_refusal_kept(group, items[k].0@, big_items[j].1, items[k].1, project, inner(inner(n)));
        assert(g2(j) is Some);
        if first_issue(g2, 0, big_items.len() as int) is None {
            lemma_first_issue_none_each(g2, 0, big_items.len() as int);
        }
        assert(group_issue(big, group, project) is Some);
    }
}


// ---------------------------------------------------------------------------
// Weakened security boundaries
// ---------------------------------------------------------------------------
/// A security option, in any ASCII case, that switches a container boundary
/// off: any option mentioning `unconfined`, `label:disable`, or
/// `no-new-privileges:false`.
pub proof fn lemma_weakening_options(option: Seq<char>)
    ensures
        ascii_lowercase(option) == "label:disable"@ ==> weakening_option(option),
        ascii_lowercase(option) == "no-new-privileges:false"@ ==> weakening_option(option),
        contains_text(ascii_lowercase(option), "unconfined"@) ==> weakening_option(option),
{
}

/// The text of entry `i` of the service's `security_opt` array, when that
/// entry is a string.
pub open spec fn security_option(service: JsonValue, i: int) -> Option<Seq<char>> {
    match json_get(service, "security_opt"@) {
        Some(JsonValue::Array(options)) => if 0 <= i < options@.len() {
            match options@[i] {
                JsonValue::Str(text) => Some(text@),
                _ => None,
            }
        } else {
            None
        },
        _ => None,
    }
}

/// A service whose `security_opt` array holds a string that switches a
/// boundary off (`label:disable` in any ASCII case among them) is refused,
/// and so is every Compose model that declares it among its services.
pub proof fn lemma_weakened_boundary_refused(
    config: JsonValue,
    project: Seq<char>,
    k: int,
    i: int,
)
    requires
        0 <= k < object_members(config, "services"@).len(),
        security_option(object_members(config, "services"@)[k].1, i) is Some,
        ({
            let s = security_option(object_members(config, "services"@)[k].1, i)->0;
            ascii_lowercase(s) == "label:disable"@ || ascii_lowercase(s) == "no-new-privileges:false"@
                || contains_text(ascii_lowercase(s), "unconfined"@)
        }),
    ensures
        service_issue(
            object_members(config, "services"@)[k].0@,
            object_members(config, "services"@)[k].1,
        ) is Some,
        compose_issue(config, project) is Some,
{
    let services = object_members(config, "services"@);
    let (name, service) = (services[k].0@, services[k].1);
    lemma_weakening_options(security_option(service, i)->0);
    assert(has_weakening_option(service));
    let f = |j: int| service_issue(services[j].0@, services[j].1);
    assert(f(k) is Some);
    if first_issue(f, 0, services.len() as int) is None {
        lemma_first_issue_none_each(f, 0, services.len() as int);
    }
}

} // verus!
