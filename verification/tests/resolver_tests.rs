use filen_relay::common::{ServerId, ServerSpec, ServerState, ServerStatus, ServerType};
use filen_relay::resolver::{resolve_path, u16_to_dec, ServerResolver, MIN_PREFIX_LEN};

fn state(full_id: &str, status: ServerStatus) -> ServerState {
    ServerState {
        spec: ServerSpec {
            id: ServerId::from_string(full_id.to_string()),
            name: "n".to_string(),
            server_type: ServerType::Http,
            root: "/".to_string(),
            read_only: false,
            password: None,
            filen_email: "e@x".to_string(),
            filen_password: "pw".to_string(),
            filen_2fa_code: None,
        },
        logs_id: "logs".to_string(),
        status,
    }
}

fn running_snapshot(port: u16) -> Vec<ServerState> {
    vec![state(
        "ab12cd34-0000-4000-8000-000000000000",
        ServerStatus::Running { port },
    )]
}

#[test]
fn bare_id_resolves_to_bare_target() {
    let states = running_snapshot(8080);
    let r = resolve_path("/s/ab12cd34", &states);
    assert_eq!(r.as_deref(), Some("http://127.0.0.1:8080"));
}

#[test]
fn trailing_slash_is_preserved() {
    let states = running_snapshot(8080);
    let r = resolve_path("/s/ab12cd34/", &states);
    assert_eq!(r.as_deref(), Some("http://127.0.0.1:8080/"));
}

#[test]
fn rest_path_is_appended() {
    let states = running_snapshot(8080);
    let r = resolve_path("/s/ab12cd34/docs/file.txt", &states);
    assert_eq!(r.as_deref(), Some("http://127.0.0.1:8080/docs/file.txt"));
}

#[test]
fn route_resolvers_match_the_three_shapes() {
    let states = running_snapshot(9090);
    let bare = ServerResolver { with_rest: false, append_slash: false };
    let slash = ServerResolver { with_rest: false, append_slash: true };
    let rest = ServerResolver { with_rest: true, append_slash: false };
    assert_eq!(
        bare.resolve("ab12cd34", None, &states).as_deref(),
        Some("http://127.0.0.1:9090")
    );
    assert_eq!(
        slash.resolve("ab12cd34", None, &states).as_deref(),
        Some("http://127.0.0.1:9090/")
    );
    assert_eq!(
        rest.resolve("ab12cd34", Some("docs/file.txt"), &states).as_deref(),
        Some("http://127.0.0.1:9090/docs/file.txt")
    );
}

#[test]
fn too_short_id_is_not_found() {
    let states = running_snapshot(8080);
    assert_eq!(MIN_PREFIX_LEN, 4);
    assert!(resolve_path("/s/ab1", &states).is_none());
    let bare = ServerResolver { with_rest: false, append_slash: false };
    assert!(bare.resolve("ab1", None, &states).is_none());
}

#[test]
fn unknown_id_is_not_found() {
    let states = running_snapshot(8080);
    assert!(resolve_path("/s/ffffffff", &states).is_none());
    assert!(resolve_path("/other/ab12cd34", &states).is_none());
    assert!(resolve_path("", &states).is_none());
}

#[test]
fn starting_and_error_instances_are_not_found() {
    let starting = vec![state("ab12cd34-0000-4000-8000-000000000000", ServerStatus::Starting)];
    let failed = vec![state("ab12cd34-0000-4000-8000-000000000000", ServerStatus::Error)];
    assert!(resolve_path("/s/ab12cd34", &starting).is_none());
    assert!(resolve_path("/s/ab12cd34", &failed).is_none());
}

#[test]
fn resolution_follows_the_snapshot_it_is_given() {
    // ports change across restarts: each call consults its own snapshot
    let r = resolve_path("/s/ab12cd34", &running_snapshot(8080));
    assert_eq!(r.as_deref(), Some("http://127.0.0.1:8080"));
    let r = resolve_path("/s/ab12cd34", &running_snapshot(9191));
    assert_eq!(r.as_deref(), Some("http://127.0.0.1:9191"));
}

#[test]
fn first_match_wins_when_short_ids_collide() {
    let states = vec![
        state("ab12cd34-1111-4000-8000-000000000000", ServerStatus::Error),
        state("ab12cd34-2222-4000-8000-000000000000", ServerStatus::Running { port: 7777 }),
    ];
    // the first matching row decides, even when a later one is running
    assert!(resolve_path("/s/ab12cd34", &states).is_none());

    let reordered = vec![
        state("ffffffff-1111-4000-8000-000000000000", ServerStatus::Running { port: 1111 }),
        state("ab12cd34-2222-4000-8000-000000000000", ServerStatus::Running { port: 7777 }),
    ];
    assert_eq!(
        resolve_path("/s/ab12cd34", &reordered).as_deref(),
        Some("http://127.0.0.1:7777")
    );
}

#[test]
fn ports_render_in_decimal() {
    assert_eq!(u16_to_dec(0), "0");
    assert_eq!(u16_to_dec(7), "7");
    assert_eq!(u16_to_dec(80), "80");
    assert_eq!(u16_to_dec(8080), "8080");
    assert_eq!(u16_to_dec(65535), "65535");
}
