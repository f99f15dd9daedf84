use azap_codegen::routes::collect_routes;
use azap_codegen::syntax::{clone_text, lower_attribute, lower_function};
use azap_codegen::{
    parse_declarations, Annotation, DeclarationError, DiscoveryError, FnDecl, GuardStore,
    GuardType, HttpMethod, RoleError, SourceFile,
};

#[test]
fn a_parsed_function_is_copied_into_plain_values() {
    let function: syn::ItemFn =
        syn::parse_str("#[post(\"/users\")] pub async fn create_user() {}").unwrap();
    assert_eq!(
        lower_function(&function),
        FnDecl {
            name: "create_user".to_string(),
            is_public: true,
            is_async: true,
            annotations: vec![Annotation {
                name: Some("post".to_string()),
                tokens: Some("\"/users\"".to_string()),
            }],
        }
    );
    let private: syn::ItemFn = syn::parse_str("pub(super) async fn helper() {}").unwrap();
    let decl = lower_function(&private);
    assert!(!decl.is_public);
    assert!(decl.is_async);
    assert!(decl.annotations.is_empty());
    let plain: syn::ItemFn = syn::parse_str("pub fn plain() {}").unwrap();
    assert!(lower_function(&plain).is_public);
    assert!(!lower_function(&plain).is_async);
}

#[test]
fn a_parsed_attribute_is_copied_into_plain_values() {
    let function: syn::ItemFn = syn::parse_str(
        "#[guards(auth)] #[a::b(c)] #[::d] #[e = \"f\"] #[g] #[h[i]] #[j{k}] fn f() {}",
    )
    .unwrap();
    let found: Vec<Annotation> = function.attrs.iter().map(lower_attribute).collect();
    let expected = vec![
        (Some("guards"), Some("auth")),
        (None, Some("c")),
        (None, None),
        (Some("e"), None),
        (Some("g"), None),
        (Some("h"), Some("i")),
        (Some("j"), Some("k")),
    ];
    assert_eq!(found.len(), expected.len());
    for (annotation, (name, tokens)) in found.iter().zip(expected) {
        assert_eq!(annotation.name.as_deref(), name);
        assert_eq!(annotation.tokens.as_deref(), tokens);
    }
}

#[test]
fn only_top_level_functions_are_declarations() {
    let source = "mod inner { #[get(\"/\")] pub async fn hidden() {} }\n\
                  impl S { #[get(\"/\")] pub async fn method(&self) {} }\n\
                  trait T { fn required(); }\n\
                  const C: u8 = 1;\n\
                  pub async fn top() {}\n";
    let decls = parse_declarations(source).unwrap();
    assert_eq!(decls.len(), 1);
    assert_eq!(decls[0].name, "top");
}

#[test]
fn copies_are_equal_to_what_they_copy() {
    let decls = parse_declarations("#[get(\"/\")] #[inline] pub async fn f() {}").unwrap();
    assert_eq!(decls[0].clone(), decls[0]);
    assert_eq!(decls[0].annotations[1].clone(), decls[0].annotations[1]);
    assert_eq!(clone_text(&Some("a".to_string())), Some("a".to_string()));
    assert_eq!(clone_text(&None), None);
    let file = SourceFile { path: "/r/a.rs".to_string(), content: "fn a() {}".to_string() };
    assert_eq!(file.clone(), file);
    let failure = DiscoveryError::Declaration {
        file: "/g/a.rs".to_string(),
        error: DeclarationError::GuardRole {
            declaration: "a".to_string(),
            reason: RoleError::Unknown { value: "x".to_string() },
        },
    };
    assert_eq!(failure.clone(), failure);
    let literal = DeclarationError::RoutePath { declaration: "a".to_string(), method: HttpMethod::Put };
    assert_eq!(literal.clone(), literal);
    let list = DeclarationError::GuardList { declaration: "a".to_string(), entry: "1".to_string() };
    assert_eq!(list.clone(), list);
    let outside = DiscoveryError::PathOutsideRoot { path: "/x".to_string() };
    assert_eq!(outside.clone(), outside);
}

#[test]
fn one_file_is_registered_at_a_time() {
    let mut store = GuardStore::new();
    let file = SourceFile {
        path: "/g/a.rs".to_string(),
        content: "#[register_guard(guard_type = \"layer\")] pub async fn cors() {}".to_string(),
    };
    assert_eq!(store.register_file(&file, "/g"), Ok(()));
    assert_eq!(store.get("cors").unwrap().guard_type, GuardType::Layer);
    let index = SourceFile { path: "/g/mod.rs".to_string(), content: "fn x() {}".to_string() };
    assert_eq!(store.register_file(&index, "/g"), Ok(()));
    assert_eq!(store.len(), 1);
    let decls = parse_declarations("pub async fn bare() {}").unwrap();
    assert_eq!(
        store.register_declarations(&decls, "/g/b.rs", "/g"),
        Err(DiscoveryError::Declaration {
            file: "/g/b.rs".to_string(),
            error: DeclarationError::GuardRole {
                declaration: "bare".to_string(),
                reason: RoleError::Missing,
            },
        })
    );
    assert_eq!(store.len(), 1);
    assert_eq!(store.register_files(&vec![file.clone(), index.clone()], "/g"), Ok(()));
    assert_eq!(store.len(), 1);
}

#[test]
fn the_routes_of_given_declarations_are_collected() {
    let decls = parse_declarations(
        "fn helper() {}\n#[get(\"/a\")] pub async fn a() {}\n#[put(\"/b\")] pub async fn b() {}",
    )
    .unwrap();
    let routes = collect_routes(&decls, "/r/x.rs", "/r", &GuardStore::new()).unwrap();
    assert_eq!(routes.len(), 2);
    assert_eq!(routes[0].handler, "a");
    assert_eq!(routes[1].method, HttpMethod::Put);
    assert_eq!(routes[1].module.to_string(), "routes::x::b");
    assert_eq!(collect_routes(&Vec::new(), "/r/x.rs", "/r", &GuardStore::new()), Ok(Vec::new()));
}
