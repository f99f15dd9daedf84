use azap_codegen::generate::generate_code;
use azap_codegen::router::{requires_state, write_escaped, write_route};
use azap_codegen::{
    collect_run, generate_router, DeclarationError, DiscoveredRoute, DiscoveryError, Guard,
    GuardType, HttpMethod, ModulePath, RoleError, SourceFile,
};

fn file(path: &str, content: &str) -> SourceFile {
    SourceFile { path: path.to_string(), content: content.to_string() }
}

fn guard(name: &str, role: GuardType) -> Guard {
    Guard {
        name: name.to_string(),
        module: ModulePath::construct(&format!("/g/{}.rs", name), "/g", name).unwrap(),
        guard_type: role,
    }
}

fn route(method: HttpMethod, path: &str, handler: &str, guards: Vec<Guard>) -> DiscoveredRoute {
    DiscoveredRoute {
        method,
        path: path.to_string(),
        handler: handler.to_string(),
        module: ModulePath::construct_in("/r/api.rs", "/r", "routes", handler).unwrap(),
        guards,
        unresolved: Vec::new(),
    }
}

const PLAIN_HEADER: &str =
    "pub fn register_routes() -> azap::Router {\n    let mut router = azap::Router::new();\n";
const STATE_HEADER: &str = "pub fn register_routes<S>(state: S) -> azap::Router\nwhere\n    S: Clone + Send + Sync + 'static,\n{\n    let mut router = azap::Router::new();\n";
const FOOTER: &str = "    router\n}\n";

#[test]
fn no_routes_give_an_empty_table() {
    assert_eq!(generate_router(&[]), format!("{}{}", PLAIN_HEADER, FOOTER));
}

#[test]
fn a_route_without_guards_is_one_statement() {
    let routes = vec![route(HttpMethod::Get, "/users/{id}", "get_user", Vec::new())];
    assert_eq!(
        write_route(&routes[0]),
        "    router = router.merge(azap::Router::new().route(\"/users/{id}\", azap::axum::routing::get(routes::api::get_user)));\n"
    );
    assert_eq!(
        generate_router(&routes),
        format!(
            "{}    router = router.merge(azap::Router::new().route(\"/users/{{id}}\", azap::axum::routing::get(routes::api::get_user)));\n{}",
            PLAIN_HEADER, FOOTER
        )
    );
}

#[test]
fn function_guards_are_layered_onto_the_handler_in_order() {
    let routes = vec![route(
        HttpMethod::Post,
        "/",
        "create",
        vec![guard("tracing", GuardType::FromFn), guard("audit", GuardType::FromFn)],
    )];
    assert_eq!(
        write_route(&routes[0]),
        "    router = router.merge(azap::Router::new().route(\"/\", azap::axum::routing::post(routes::api::create).layer(azap::axum::middleware::from_fn(guards::tracing::tracing)).layer(azap::axum::middleware::from_fn(guards::audit::audit))));\n"
    );
    assert!(!requires_state(&routes));
}

#[test]
fn a_stateful_guard_is_handed_the_state() {
    let routes = vec![
        route(HttpMethod::Get, "/a", "a", Vec::new()),
        route(HttpMethod::Delete, "/b", "b", vec![guard("auth", GuardType::FromFnWithState)]),
    ];
    assert!(requires_state(&routes));
    assert_eq!(
        generate_router(&routes),
        format!(
            "{}{}{}{}",
            STATE_HEADER,
            "    router = router.merge(azap::Router::new().route(\"/a\", azap::axum::routing::get(routes::api::a)));\n",
            "    router = router.merge(azap::Router::new().route(\"/b\", azap::axum::routing::delete(routes::api::b).layer(azap::axum::middleware::from_fn_with_state(state.clone(), guards::auth::auth))));\n",
            FOOTER
        )
    );
}

#[test]
fn a_layer_wraps_the_route_as_a_whole() {
    let routes = vec![route(
        HttpMethod::Put,
        "/x",
        "x",
        vec![
            guard("cors", GuardType::Layer),
            guard("tracing", GuardType::FromFn),
            guard("limits", GuardType::Layer),
            guard("auth", GuardType::FromFnWithState),
        ],
    )];
    assert_eq!(
        write_route(&routes[0]),
        "    router = router.merge(azap::Router::new().route(\"/x\", azap::axum::routing::put(routes::api::x).layer(azap::axum::middleware::from_fn(guards::tracing::tracing)).layer(azap::axum::middleware::from_fn_with_state(state.clone(), guards::auth::auth))).layer(azap::axum::middleware::from_fn(guards::cors::cors)).layer(azap::axum::middleware::from_fn(guards::limits::limits)));\n"
    );
}

#[test]
fn statements_come_in_the_order_of_the_routes() {
    let first = route(HttpMethod::Get, "/same", "first", Vec::new());
    let second = route(HttpMethod::Get, "/same", "second", Vec::new());
    let both = vec![
        route(HttpMethod::Get, "/same", "first", Vec::new()),
        route(HttpMethod::Get, "/same", "second", Vec::new()),
    ];
    assert_eq!(
        generate_router(&both),
        format!("{}{}{}{}", PLAIN_HEADER, write_route(&first), write_route(&second), FOOTER)
    );
}

fn example_guards() -> Vec<SourceFile> {
    vec![
        file("/p/src/guards/mod.rs", "pub mod auth;"),
        file(
            "/p/src/guards/auth.rs",
            "#[register_guard(guard_type = \"fn_with_state\")] pub async fn auth() {}",
        ),
    ]
}

fn example_routes() -> Vec<SourceFile> {
    vec![
        file(
            "/p/src/routes/health.rs",
            "#[get(\"/\")]\n#[guards(auth)]\npub async fn health_check() -> &'static str { \"OK\" }",
        ),
        file("/p/src/routes/auth/login.rs", "#[post(\"/login\")] pub async fn login() {}"),
    ]
}

const EXAMPLE_CODE: &str = "pub fn register_routes<S>(state: S) -> azap::Router\nwhere\n    S: Clone + Send + Sync + 'static,\n{\n    let mut router = azap::Router::new();\n    router = router.merge(azap::Router::new().route(\"/\", azap::axum::routing::get(routes::health::health_check).layer(azap::axum::middleware::from_fn_with_state(state.clone(), guards::auth::auth))));\n    router = router.merge(azap::Router::new().route(\"/login\", azap::axum::routing::post(routes::auth::login::login)));\n    router\n}\n";

#[test]
fn a_run_registers_guards_then_routes_then_writes() {
    let code = generate_code(
        "/p/src/routes",
        Some(&example_routes()),
        "/p/src/guards",
        Some(&example_guards()),
    );
    assert_eq!(code, Ok(Some(EXAMPLE_CODE.to_string())));
}

#[test]
fn a_second_run_gives_the_same_text() {
    let first = generate_code(
        "/p/src/routes",
        Some(&example_routes()),
        "/p/src/guards",
        Some(&example_guards()),
    );
    let second = generate_code(
        "/p/src/routes",
        Some(&example_routes()),
        "/p/src/guards",
        Some(&example_guards()),
    );
    assert_eq!(first, second);
    assert_eq!(first.unwrap().unwrap().as_bytes(), second.unwrap().unwrap().as_bytes());
}

#[test]
fn without_routes_directory_nothing_is_generated() {
    assert_eq!(generate_code("/p/src/routes", None, "/p/src/guards", Some(&example_guards())), Ok(None));
    assert_eq!(generate_code("/p/src/routes", None, "/p/src/guards", None), Ok(None));
}

#[test]
fn without_guards_directory_no_guard_is_known() {
    let code = generate_code("/p/src/routes", Some(&example_routes()), "/p/src/guards", None);
    assert_eq!(
        code,
        Ok(Some(format!(
            "{}{}{}{}",
            PLAIN_HEADER,
            "    router = router.merge(azap::Router::new().route(\"/\", azap::axum::routing::get(routes::health::health_check)));\n",
            "    router = router.merge(azap::Router::new().route(\"/login\", azap::axum::routing::post(routes::auth::login::login)));\n",
            FOOTER
        )))
    );
}

#[test]
fn with_no_routes_the_table_is_empty() {
    let none: Vec<SourceFile> = Vec::new();
    assert_eq!(
        generate_code("/p/src/routes", Some(&none), "/p/src/guards", None),
        Ok(Some(format!("{}{}", PLAIN_HEADER, FOOTER)))
    );
}

#[test]
fn a_failure_among_the_guards_fails_the_run() {
    let guards = vec![file("/p/src/guards/auth.rs", "pub async fn auth() {}")];
    assert_eq!(
        generate_code("/p/src/routes", Some(&example_routes()), "/p/src/guards", Some(&guards)),
        Err(DiscoveryError::Declaration {
            file: "/p/src/guards/auth.rs".to_string(),
            error: DeclarationError::GuardRole {
                declaration: "auth".to_string(),
                reason: RoleError::Missing,
            },
        })
    );
}

#[test]
fn a_failure_among_the_routes_fails_the_run() {
    let routes = vec![file("/p/src/routes/a.rs", "#[get(\"/\")] fn a() {}")];
    assert!(matches!(
        generate_code("/p/src/routes", Some(&routes), "/p/src/guards", Some(&example_guards())),
        Err(DiscoveryError::Declaration { error: DeclarationError::Handler { .. }, .. })
    ));
}

#[test]
fn a_run_collects_the_routes_that_it_writes() {
    let found = collect_run(
        "/p/src/routes",
        Some(&example_routes()),
        "/p/src/guards",
        Some(&example_guards()),
    )
    .unwrap()
    .unwrap();
    assert_eq!(found.len(), 2);
    assert_eq!(generate_router(&found), EXAMPLE_CODE);
    let unguarded =
        collect_run("/p/src/routes", Some(&example_routes()), "/p/src/guards", None)
            .unwrap()
            .unwrap();
    assert_eq!(unguarded[0].unresolved, vec!["auth"]);
    assert!(unguarded[0].guards.is_empty());
    assert_eq!(collect_run("/p/src/routes", None, "/p/src/guards", None), Ok(None));
}

#[test]
fn names_that_no_guard_goes_by_are_not_written() {
    let mut with_unresolved = route(HttpMethod::Get, "/a", "a", Vec::new());
    with_unresolved.unresolved = vec!["ghost".to_string()];
    let without = route(HttpMethod::Get, "/a", "a", Vec::new());
    assert_eq!(write_route(&with_unresolved), write_route(&without));
    assert!(matches!(
        DiscoveryError::MissingDirectory { path: String::new() },
        DiscoveryError::MissingDirectory { .. }
    ));
}

#[test]
fn a_path_is_written_as_a_string_literal_holds_it() {
    assert_eq!(write_escaped("/users/{id}"), "/users/{id}");
    assert_eq!(write_escaped(""), "");
    assert_eq!(write_escaped("/a\"b"), "/a\\\"b");
    assert_eq!(write_escaped("\\"), "\\\\");
    assert_eq!(write_escaped("a\nb\rc\td\0e"), "a\\nb\\rc\\td\\0e");
    assert_eq!(write_escaped("\"\""), "\\\"\\\"");
    assert_eq!(write_escaped("/caf\u{e9}/\u{1F980}"), "/caf\u{e9}/\u{1F980}");
    let routes = vec![route(HttpMethod::Get, "/a\"b\\", "a", Vec::new())];
    assert_eq!(
        write_route(&routes[0]),
        "    router = router.merge(azap::Router::new().route(\"/a\\\"b\\\\\", azap::axum::routing::get(routes::api::a)));\n"
    );
}
