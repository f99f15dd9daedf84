use azap_codegen::expand::compose_name;
use azap_codegen::{
    parse_declarations, register_guard_macro, route_macro, DeclarationError, DiscoveryError,
    Fault, FnDecl, GuardType, HttpMethod, RoleError, RouteMetaData, RouteRecord,
};

fn function(source: &str) -> FnDecl {
    parse_declarations(source).unwrap().remove(0)
}

#[test]
fn a_fit_handler_leaves_a_record() {
    let input = function("pub async fn get_user() {}");
    assert_eq!(
        route_macro(HttpMethod::Get, "\"/users/{id}\"", &input),
        Ok(RouteRecord {
            name: "__AZAP_ROUTE_GET_GET_USER".to_string(),
            method: "get".to_string(),
            path: "/users/{id}".to_string(),
            handler_name: "get_user".to_string(),
        })
    );
}

#[test]
fn the_record_name_is_in_upper_case() {
    let input = function("pub async fn straße_ü1() {}");
    let record = route_macro(HttpMethod::Delete, "\"/\"", &input).unwrap();
    assert_eq!(record.name, "__AZAP_ROUTE_DELETE_STRASSE_Ü1");
}

#[test]
fn an_unfit_handler_is_reported() {
    let not_async = function("pub fn a() {}");
    let outcome = route_macro(HttpMethod::Get, "\"/a\"", &not_async);
    assert_eq!(
        outcome,
        Err(DeclarationError::Handler {
            declaration: "a".to_string(),
            method: HttpMethod::Get,
            path: "/a".to_string(),
            fault: Fault::NotAsync,
        })
    );
    assert_eq!(
        outcome.unwrap_err().message(),
        "Route handler 'a' must be async.\nHelp: Add 'async' keyword before 'fn':\n#[get(\"/a\")]\npub async fn a(...) { ... }"
    );
    let private = function("async fn a() {}");
    assert!(matches!(
        route_macro(HttpMethod::Get, "\"/a\"", &private),
        Err(DeclarationError::Handler { fault: Fault::NotPublic, .. })
    ));
    let fit = function("pub async fn a() {}");
    assert_eq!(
        route_macro(HttpMethod::Get, "\"/a\\tb\"", &fit).unwrap().path,
        "/a\tb"
    );
    assert_eq!(
        route_macro(HttpMethod::Post, "a", &fit),
        Err(DeclarationError::RoutePath { declaration: "a".to_string(), method: HttpMethod::Post })
    );
}

#[test]
fn a_fit_guard_gets_its_role() {
    let item = function("pub async fn auth() {}");
    assert_eq!(register_guard_macro("guard_type = \"fn\"", &item), Ok(GuardType::FromFn));
    assert_eq!(register_guard_macro("guard_type = \"layer\"", &item), Ok(GuardType::Layer));
}

#[test]
fn an_unfit_guard_is_reported() {
    let not_async = function("pub fn auth() {}");
    let outcome = register_guard_macro("guard_type = \"fn_with_state\"", &not_async);
    assert_eq!(
        outcome,
        Err(DeclarationError::Guard {
            declaration: "auth".to_string(),
            role: GuardType::FromFnWithState,
            fault: Fault::NotAsync,
        })
    );
    assert_eq!(
        outcome.unwrap_err().message(),
        "Route handler 'auth' must be async.\nHelp: Add 'async' keyword before 'fn':\n#[register_guard(\"guard_type = fn_with_state\")]\npub async fn auth(...) { ... }"
    );
    let private = function("async fn auth() {}");
    let outcome = register_guard_macro("guard_type = \"layer\"", &private);
    assert_eq!(
        outcome.unwrap_err().message(),
        "Route handler 'auth' must be public.\nHelp: Add 'pub' keyword:\n#[register_guard(\"guard_type = layer\")]\npub async fn auth(...) { ... }"
    );
}

#[test]
fn a_guard_with_unusable_arguments_is_reported_before_its_form() {
    let not_async = function("fn auth() {}");
    assert_eq!(
        register_guard_macro("kind = \"fn\"", &not_async),
        Err(DeclarationError::GuardRole {
            declaration: "auth".to_string(),
            reason: RoleError::ExpectedKey,
        })
    );
    assert_eq!(
        register_guard_macro("guard_type = \"x\"", &not_async).unwrap_err().message(),
        "Guard 'auth': Unknown guard type: 'x'. Expected 'fn', 'fn_with_state', or 'layer'"
    );
}

#[test]
fn path_outside_root_says_which_path() {
    assert_eq!(
        DiscoveryError::PathOutsideRoot { path: "/x/a.rs".to_string() }.message(),
        "path must be under the root directory: /x/a.rs"
    );
}

#[test]
fn route_metadata_holds_what_a_handler_records() {
    let data = RouteMetaData {
        method: "get",
        path: "/",
        handler_name: "health_check",
        module: "routes::health",
        file: "src/routes/health.rs",
        line: 4,
        column: 1,
    };
    let copy = data;
    assert_eq!(copy.method, "get");
    assert_eq!(data.handler_name, "health_check");
    assert_eq!(copy.line, 4);
}

#[test]
fn a_record_name_is_made_of_prefix_verb_and_handler() {
    assert_eq!(compose_name("GET", "HEALTH_CHECK"), "__AZAP_ROUTE_GET_HEALTH_CHECK");
    assert_eq!(compose_name("", ""), "__AZAP_ROUTE__");
}
