use restore_rehearsal_card::isolation::{reject_unsafe_compose, unsafe_compose, UNSAFE_COMPOSE_PREFIX};
use restore_rehearsal_card::json::JsonValue;

fn text(value: &str) -> JsonValue {
    JsonValue::Str(value.to_string())
}

fn list(items: Vec<JsonValue>) -> JsonValue {
    JsonValue::Array(items)
}

fn object(members: Vec<(&str, JsonValue)>) -> JsonValue {
    JsonValue::Object(members.into_iter().map(|(key, value)| (key.to_string(), value)).collect())
}

fn service(field: &str, value: JsonValue) -> JsonValue {
    object(vec![("services", object(vec![("db", object(vec![(field, value)]))]))])
}

fn postgres_with(group: &str, entry: &str, item: JsonValue) -> JsonValue {
    object(vec![
        ("services", object(vec![("db", object(vec![("image", text("postgres"))]))])),
        (group, object(vec![(entry, item)])),
    ])
}

#[test]
fn compose_safety_rejects_host_and_external_access() {
    let unsafe_models = [
        service("network_mode", text("host")),
        service("pid", text("host")),
        service("ipc", text("service:other")),
        service("uts", text("host")),
        service("userns_mode", text("host")),
        service("cgroup", text("host")),
        service("privileged", JsonValue::Bool(true)),
        service("volumes", list(vec![object(vec![("type", text("bind"))])])),
        service("cap_add", list(vec![text("SYS_ADMIN")])),
        service("devices", list(vec![text("/dev/kvm")])),
        service("device_cgroup_rules", list(vec![text("c 1:3 mr")])),
        service("external_links", list(vec![text("production-db")])),
        service(
            "ports",
            list(vec![object(vec![("target", JsonValue::Number), ("published", text("5432"))])]),
        ),
        service("volumes_from", list(vec![text("production-db")])),
        service("container_name", text("production-db")),
        service("credential_spec", object(vec![("file", text("host.json"))])),
        service("runtime", text("nvidia")),
        service("use_api_socket", JsonValue::Bool(true)),
        service("security_opt", list(vec![text("seccomp=unconfined")])),
        postgres_with("networks", "default", object(vec![("external", JsonValue::Bool(true))])),
        postgres_with("volumes", "data", object(vec![("external", JsonValue::Bool(true))])),
        postgres_with("networks", "default", object(vec![("name", text("shared"))])),
    ];
    for model in unsafe_models {
        let error = reject_unsafe_compose(&model, "rrc-test").unwrap_err();
        assert!(error.starts_with(UNSAFE_COMPOSE_PREFIX), "{error}");
    }

    let safe = object(vec![
        (
            "services",
            object(vec![("db", object(vec![("image", text("postgres")), ("ipc", text("private"))]))]),
        ),
        ("networks", object(vec![("default", object(vec![("name", text("rrc-test_default"))]))])),
        ("volumes", object(vec![("data", object(vec![("name", text("rrc-test_data"))]))])),
    ]);
    assert!(reject_unsafe_compose(&safe, "rrc-test").is_ok());
}

#[test]
fn refusals_name_the_service_and_the_rule() {
    let error = reject_unsafe_compose(&service("network_mode", text("host")), "rrc-test").unwrap_err();
    assert_eq!(error, "unsafe Compose isolation: service db overrides its project network namespace");
    let error = reject_unsafe_compose(&service("cap_add", list(vec![text("NET_ADMIN")])), "rrc-test").unwrap_err();
    assert_eq!(error, "unsafe Compose isolation: service db declares host-facing `cap_add` access");
    let error = reject_unsafe_compose(
        &postgres_with("volumes", "data", object(vec![("name", text("other_data"))])),
        "rrc-test",
    )
    .unwrap_err();
    assert_eq!(error, "unsafe Compose isolation: volumes entry `data` is not scoped to project `rrc-test`");
}

#[test]
fn harmless_values_pass() {
    assert!(reject_unsafe_compose(&service("network_mode", text("none")), "rrc-test").is_ok());
    assert!(reject_unsafe_compose(&service("privileged", JsonValue::Bool(false)), "rrc-test").is_ok());
    assert!(reject_unsafe_compose(&service("ports", list(vec![])), "rrc-test").is_ok());
    assert!(reject_unsafe_compose(&service("volumes", list(vec![object(vec![("type", text("volume"))])])), "rrc-test").is_ok());
    assert!(reject_unsafe_compose(&service("security_opt", list(vec![text("no-new-privileges:true")])), "rrc-test").is_ok());
    assert!(reject_unsafe_compose(&JsonValue::Null, "rrc-test").is_ok());
}

#[test]
fn unsafe_messages_carry_the_prefix() {
    assert_eq!(unsafe_compose("service x is privileged"), "unsafe Compose isolation: service x is privileged");
}

#[test]
fn added_configuration_keeps_a_refusal() {
    let refused = service("ports", list(vec![text("5432:5432")]));
    assert!(reject_unsafe_compose(&refused, "rrc-test").is_err());
    let extended = object(vec![
        (
            "services",
            object(vec![
                ("cache", object(vec![("image", text("redis"))])),
                (
                    "db",
                    object(vec![
                        ("image", text("postgres")),
                        ("ports", list(vec![text("5432:5432"), text("6432:6432")])),
                    ]),
                ),
            ]),
        ),
        ("volumes", object(vec![("data", object(vec![("name", text("rrc-test_data"))]))])),
    ]);
    assert!(reject_unsafe_compose(&extended, "rrc-test").is_err());
}
