use azap_codegen::{
    parse_declarations, Annotation, DeclarationError, DiscoveryError, FnDecl, Guard, GuardStore,
    GuardType, ModulePath, RoleError, SourceFile,
};

fn file(path: &str, content: &str) -> SourceFile {
    SourceFile { path: path.to_string(), content: content.to_string() }
}

fn guard(name: &str, file: &str, role: GuardType) -> Guard {
    Guard {
        name: name.to_string(),
        module: ModulePath::construct(file, "/src/guards", name).unwrap(),
        guard_type: role,
    }
}

fn example_guards() -> Vec<SourceFile> {
    vec![
        file(
            "/home/gauravlohar/personal/azap/examples/basic/src/guards/auth.rs",
            "use crate::AppState;\n\
             #[register_guard(guard_type = \"fn_with_state\")]\n\
             pub async fn auth(req: Request, next: Next) -> Result<Response, StatusCode> {\n\
                 Ok(next.run(req).await)\n\
             }\n",
        ),
        file(
            "/home/gauravlohar/personal/azap/examples/basic/src/guards/tracing.rs",
            "#[register_guard(guard_type = \"fn\")]\n\
             pub async fn tracing(req: Request, next: Next) -> Result<Response, StatusCode> {\n\
                 Ok(next.run(req).await)\n\
             }\n",
        ),
    ]
}

#[test]
fn test_guard_store() {
    let guard_dir = "/home/gauravlohar/personal/azap/examples/basic/src/guards";
    let mut guards = GuardStore::new();
    guards.discover_guards(guard_dir, Some(&example_guards())).unwrap();

    assert_eq!(1, 1);
    assert_eq!(guards.len(), 2);
    let auth = guards.get("auth").unwrap();
    assert_eq!(auth.guard_type, GuardType::FromFnWithState);
    assert_eq!(auth.module.to_string(), "guards::auth::auth");
    let tracing = guards.get("tracing").unwrap();
    assert_eq!(tracing.guard_type, GuardType::FromFn);
    assert_eq!(tracing.module.segments(), &vec!["guards", "tracing", "tracing"]);
}

#[test]
fn roles_go_by_their_tags() {
    assert_eq!(GuardType::FromFn.as_str(), "fn");
    assert_eq!(GuardType::FromFnWithState.as_str(), "fn_with_state");
    assert_eq!(GuardType::Layer.as_str(), "layer");
    assert_eq!(GuardType::FromFn.to_string(), "fn");
    assert_eq!(GuardType::FromFnWithState.to_string(), "fn_with_state");
    assert_eq!(GuardType::Layer.to_string(), "layer");
    assert_eq!(GuardType::from_str("fn"), Ok(GuardType::FromFn));
    assert_eq!(GuardType::from_str("fn_with_state"), Ok(GuardType::FromFnWithState));
    assert_eq!(GuardType::from_str("layer"), Ok(GuardType::Layer));
    assert_eq!(GuardType::from_str("Layer"), Err(()));
    assert_eq!(GuardType::from_str(""), Err(()));
}

#[test]
fn parse_reports_an_unknown_role_with_its_text() {
    assert_eq!(GuardType::parse("layer"), Ok(GuardType::Layer));
    let unknown = GuardType::parse("tower").unwrap_err();
    assert_eq!(unknown, RoleError::Unknown { value: "tower".to_string() });
    assert_eq!(
        unknown.message(),
        "Unknown guard type: 'tower'. Expected 'fn', 'fn_with_state', or 'layer'"
    );
}

#[test]
fn the_first_role_annotation_decides() {
    let decls = parse_declarations(
        "#[inline]\n\
         #[register_guard(guard_type = \"layer\")]\n\
         #[register_guard(guard_type = \"fn\")]\n\
         pub async fn g() {}\n",
    )
    .unwrap();
    assert_eq!(GuardType::parse_from_attrs(&decls[0].annotations), Ok(GuardType::Layer));
}

#[test]
fn a_declaration_without_role_annotation_has_no_role() {
    let none: Vec<Annotation> = Vec::new();
    assert_eq!(GuardType::parse_from_attrs(&none), Err(RoleError::Missing));
    let bare = vec![Annotation { name: Some("register_guard".to_string()), tokens: None }];
    assert_eq!(GuardType::parse_from_attrs(&bare), Err(RoleError::Malformed));
    assert_eq!(
        RoleError::Missing.message(),
        "Missing #[register_guard(guard_type = \"...\")] attribute"
    );
    assert_eq!(RoleError::ExpectedKey.message(), "Expected 'guard_type'");
    assert_eq!(RoleError::Malformed.message(), "Expected guard_type = \"...\"");
}

#[test]
fn a_new_store_holds_nothing() {
    let store = GuardStore::new();
    assert_eq!(store.len(), 0);
    assert!(!store.contains("auth"));
    assert_eq!(store.get("auth"), None);
    assert_eq!(GuardStore::default().len(), 0);
}

#[test]
fn a_later_guard_replaces_an_earlier_one_of_its_name() {
    let mut store = GuardStore::new();
    store.insert(guard("auth", "/src/guards/auth.rs", GuardType::FromFn));
    store.insert(guard("tracing", "/src/guards/tracing.rs", GuardType::FromFn));
    store.insert(guard("auth", "/src/guards/session/auth.rs", GuardType::Layer));
    assert_eq!(store.len(), 2);
    assert!(store.contains("auth"));
    assert!(store.contains("tracing"));
    let auth = store.get("auth").unwrap();
    assert_eq!(auth.guard_type, GuardType::Layer);
    assert_eq!(auth.module.to_string(), "guards::session::auth::auth");
    assert_eq!(store.get("tracing").unwrap().guard_type, GuardType::FromFn);
}

#[test]
fn a_missing_guards_directory_is_reported() {
    let mut store = GuardStore::new();
    let outcome = store.discover_guards("/src/guards", None);
    assert_eq!(
        outcome,
        Err(DiscoveryError::MissingDirectory { path: "/src/guards".to_string() })
    );
    assert_eq!(store.len(), 0);
    assert_eq!(
        outcome.unwrap_err().message(),
        "/src/guards dir doesn't exist \u{2014} skipping guards"
    );
}

#[test]
fn index_files_and_other_files_hold_no_guards() {
    let files = vec![
        file("/src/guards/mod.rs", "pub fn not_a_guard() {}"),
        file("/src/guards/notes.txt", "this is no source text {"),
        file("/src/guards/deep/mod.rs", "this is no source text {"),
        file("/src/guards/auth.rs", "#[register_guard(guard_type = \"fn\")] pub async fn auth() {}"),
    ];
    let mut store = GuardStore::new();
    assert_eq!(store.discover_guards("/src/guards", Some(&files)), Ok(()));
    assert_eq!(store.len(), 1);
    assert!(store.contains("auth"));
    assert!(!store.contains("not_a_guard"));
}

#[test]
fn a_guard_without_role_stops_discovery_and_is_named() {
    let files = vec![
        file(
            "/src/guards/a.rs",
            "#[register_guard(guard_type = \"fn\")] pub async fn first() {}\n\
             pub async fn second() {}\n\
             #[register_guard(guard_type = \"fn\")] pub async fn third() {}\n",
        ),
        file("/src/guards/b.rs", "#[register_guard(guard_type = \"fn\")] pub async fn fourth() {}"),
    ];
    let mut store = GuardStore::new();
    let outcome = store.discover_guards("/src/guards", Some(&files));
    assert_eq!(
        outcome,
        Err(DiscoveryError::Declaration {
            file: "/src/guards/a.rs".to_string(),
            error: DeclarationError::GuardRole {
                declaration: "second".to_string(),
                reason: RoleError::Missing,
            },
        })
    );
    assert_eq!(
        outcome.unwrap_err().message(),
        "/src/guards/a.rs: Guard 'second': Missing #[register_guard(guard_type = \"...\")] attribute"
    );
    assert!(store.contains("first"));
    assert!(!store.contains("third"));
    assert!(!store.contains("fourth"));
}

#[test]
fn an_unknown_role_stops_discovery() {
    let files =
        vec![file("/g/a.rs", "#[register_guard(guard_type = \"tower\")] pub async fn a() {}")];
    let mut store = GuardStore::new();
    assert_eq!(
        store.discover_guards("/g", Some(&files)),
        Err(DiscoveryError::Declaration {
            file: "/g/a.rs".to_string(),
            error: DeclarationError::GuardRole {
                declaration: "a".to_string(),
                reason: RoleError::Unknown { value: "tower".to_string() },
            },
        })
    );
}

#[test]
fn a_malformed_guard_file_stops_discovery() {
    let files = vec![file("/g/a.rs", "pub fn broken( {")];
    let mut store = GuardStore::new();
    let outcome = store.discover_guards("/g", Some(&files));
    match outcome {
        Err(DiscoveryError::Syntax { file, message }) => {
            assert_eq!(file, "/g/a.rs");
            assert!(!message.is_empty());
        }
        other => panic!("unexpected outcome: {:?}", other),
    }
}

#[test]
fn a_guard_outside_the_root_is_rejected() {
    let decl = FnDecl {
        name: "auth".to_string(),
        is_public: true,
        is_async: true,
        annotations: vec![Annotation {
            name: Some("register_guard".to_string()),
            tokens: Some("guard_type = \"fn\"".to_string()),
        }],
    };
    assert_eq!(
        Guard::from_declaration(&decl, "/elsewhere/auth.rs", "/src/guards"),
        Err(DiscoveryError::PathOutsideRoot { path: "/elsewhere/auth.rs".to_string() })
    );
    assert_eq!(
        Guard::from_declaration(&decl, "/src/guards/auth.rs", "/src/guards"),
        Ok(guard("auth", "/src/guards/auth.rs", GuardType::FromFn))
    );
}

#[test]
fn references_resolve_in_order_and_unknown_names_are_left_out() {
    let mut store = GuardStore::new();
    store.insert(guard("auth", "/src/guards/auth.rs", GuardType::FromFnWithState));
    store.insert(guard("tracing", "/src/guards/tracing.rs", GuardType::FromFn));
    let attr = Annotation {
        name: Some("guards".to_string()),
        tokens: Some("tracing , missing , auth , rate_limit (10 , 20)".to_string()),
    };
    let found = Guard::extract_from_attr(&attr, &store);
    assert_eq!(
        found,
        Ok(vec![
            guard("tracing", "/src/guards/tracing.rs", GuardType::FromFn),
            guard("auth", "/src/guards/auth.rs", GuardType::FromFnWithState),
        ])
    );
    assert_eq!(
        Guard::references_in_attr(&attr),
        Ok(vec![
            "tracing".to_string(),
            "missing".to_string(),
            "auth".to_string(),
            "rate_limit".to_string()
        ])
    );
    let names = Guard::references_in_attr(&attr).unwrap();
    let (known, unknown) = store.resolve(&names);
    assert_eq!(known.len(), 2);
    assert_eq!(unknown, vec!["missing", "rate_limit"]);
    let bare = Annotation { name: Some("guards".to_string()), tokens: None };
    assert_eq!(Guard::extract_from_attr(&bare, &store), Ok(Vec::new()));
}

#[test]
fn an_entry_that_refers_to_no_guard_is_handed_back() {
    let store = GuardStore::new();
    for (tokens, entry) in [
        ("1 + 2", "1 + 2"),
        ("auth , 1", "1"),
        ("a + b", "a + b"),
        ("a :: b", "a :: b"),
        ("auth , , tracing", ""),
        ("auth [0]", "auth [0]"),
        ("\"auth\"", "\"auth\""),
    ] {
        let attr =
            Annotation { name: Some("guards".to_string()), tokens: Some(tokens.to_string()) };
        assert_eq!(Guard::extract_from_attr(&attr, &store), Err(entry.to_string()), "{}", tokens);
    }
}

#[test]
fn a_copy_of_a_store_holds_the_same_guards() {
    let mut store = GuardStore::new();
    store.insert(guard("auth", "/src/guards/auth.rs", GuardType::FromFn));
    let copy = store.clone();
    store.insert(guard("tracing", "/src/guards/tracing.rs", GuardType::Layer));
    assert_eq!(copy.len(), 1);
    assert_eq!(copy.get("auth"), store.get("auth"));
    assert_eq!(copy.get("tracing"), None);
    assert_eq!(store.len(), 2);
}
