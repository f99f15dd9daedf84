use azap_codegen::annotations::{
    extract_annotation,
    decide_role, find_annotation, find_verb, guard_references, parse_role_assignment,
};
use azap_codegen::{
    extract_path_from_attr, parse_declarations, Annotation, FnDecl, GuardType, HttpMethod,
    RoleError,
};

fn annotation(name: &str, tokens: Option<&str>) -> Annotation {
    Annotation { name: Some(name.to_string()), tokens: tokens.map(|t| t.to_string()) }
}

#[test]
fn test_extract_path_from_attr() {
    let decls = parse_declarations("#[get(\"/api-route\")] fn f() {}").unwrap();
    let attr = &decls[0].annotations[0];

    let result: Option<String> = extract_path_from_attr(attr);
    assert_eq!(result, Some("/api-route".to_string()));
}

#[test]
fn extract_path_takes_every_quote_off_both_ends() {
    assert_eq!(
        extract_path_from_attr(&annotation("get", Some("\"\"/a\"b\"\""))),
        Some("/a\"b".to_string())
    );
    assert_eq!(extract_path_from_attr(&annotation("get", Some("\"\""))), Some(String::new()));
    assert_eq!(extract_path_from_attr(&annotation("get", Some("plain"))), Some("plain".to_string()));
    assert_eq!(extract_path_from_attr(&annotation("get", None)), None);
}

#[test]
fn parse_declarations_reads_header_and_annotations() {
    let source = "use a::b;\n\
                  struct S;\n\
                  #[get(\"/\")]\n\
                  #[guards(auth, rate_limit(10, 20))]\n\
                  pub async fn health_check() -> &'static str { \"OK\" }\n\
                  #[tokio::main]\n\
                  #[inline]\n\
                  #[doc = \"x\"]\n\
                  fn helper() {}\n\
                  pub(crate) fn narrow() {}\n";
    let decls = parse_declarations(source).unwrap();
    assert_eq!(decls.len(), 3);
    assert_eq!(
        decls[0],
        FnDecl {
            name: "health_check".to_string(),
            is_public: true,
            is_async: true,
            annotations: vec![
                annotation("get", Some("\"/\"")),
                annotation("guards", Some("auth , rate_limit (10 , 20)")),
            ],
        }
    );
    assert_eq!(
        decls[1],
        FnDecl {
            name: "helper".to_string(),
            is_public: false,
            is_async: false,
            annotations: vec![
                Annotation { name: None, tokens: None },
                annotation("inline", None),
                annotation("doc", None),
            ],
        }
    );
    assert_eq!(decls[2].name, "narrow");
    assert!(!decls[2].is_public);
}

#[test]
fn parse_declarations_reports_a_syntax_error() {
    let broken = parse_declarations("pub fn broken( {");
    assert!(broken.is_err());
    assert!(!broken.unwrap_err().is_empty());
}

#[test]
fn parse_declarations_of_an_empty_text() {
    assert_eq!(parse_declarations(""), Ok(Vec::new()));
}

#[test]
fn methods_go_by_their_verb() {
    assert_eq!(HttpMethod::from_name("get"), Some(HttpMethod::Get));
    assert_eq!(HttpMethod::from_name("post"), Some(HttpMethod::Post));
    assert_eq!(HttpMethod::from_name("put"), Some(HttpMethod::Put));
    assert_eq!(HttpMethod::from_name("patch"), Some(HttpMethod::Patch));
    assert_eq!(HttpMethod::from_name("delete"), Some(HttpMethod::Delete));
    assert_eq!(HttpMethod::from_name("GET"), None);
    assert_eq!(HttpMethod::from_name("head"), None);
    assert_eq!(HttpMethod::Patch.as_str(), "patch");
    assert_eq!(HttpMethod::Delete.as_str(), "delete");
}

#[test]
fn the_first_verb_annotation_is_found() {
    let attrs = vec![
        annotation("inline", None),
        Annotation { name: None, tokens: None },
        annotation("post", Some("\"/a\"")),
        annotation("get", Some("\"/b\"")),
    ];
    assert_eq!(find_verb(&attrs), Some((2, HttpMethod::Post)));
    assert_eq!(find_verb(&attrs[..2]), None);
    assert_eq!(find_verb(&[]), None);
}

#[test]
fn the_first_annotation_of_a_name_is_found() {
    let attrs = vec![
        annotation("get", Some("\"/\"")),
        annotation("guards", Some("a")),
        annotation("guards", Some("b")),
    ];
    assert_eq!(find_annotation(&attrs, "guards"), Some(1));
    assert_eq!(find_annotation(&attrs, "register_guard"), None);
}

#[test]
fn a_role_assignment_names_one_of_three_roles() {
    assert_eq!(parse_role_assignment("guard_type = \"fn\""), Ok(GuardType::FromFn));
    assert_eq!(
        parse_role_assignment("guard_type = \"fn_with_state\""),
        Ok(GuardType::FromFnWithState)
    );
    assert_eq!(parse_role_assignment("guard_type=\"layer\""), Ok(GuardType::Layer));
    assert_eq!(parse_role_assignment("  guard_type\t=  \"layer\" \n"), Ok(GuardType::Layer));
    assert_eq!(parse_role_assignment("guard_type = r\"fn\""), Ok(GuardType::FromFn));
    assert_eq!(parse_role_assignment("guard_type = \"f\\u{6e}\""), Ok(GuardType::FromFn));
}

#[test]
fn a_role_is_decided_from_key_and_literal() {
    assert_eq!(decide_role("guard_type", true, Some("layer".to_string())), Ok(GuardType::Layer));
    assert_eq!(
        decide_role("guard_type", true, Some("fn_with_state".to_string())),
        Ok(GuardType::FromFnWithState)
    );
    assert_eq!(decide_role("kind", true, Some("layer".to_string())), Err(RoleError::ExpectedKey));
    assert_eq!(decide_role("kind", false, None), Err(RoleError::ExpectedKey));
    assert_eq!(decide_role("guard_type", false, None), Err(RoleError::Malformed));
    assert_eq!(decide_role("guard_type", true, None), Err(RoleError::Malformed));
    assert_eq!(
        decide_role("guard_type", true, Some("Layer".to_string())),
        Err(RoleError::Unknown { value: "Layer".to_string() })
    );
}

#[test]
fn a_role_assignment_fails_in_four_ways() {
    assert_eq!(parse_role_assignment("kind = \"fn\""), Err(RoleError::ExpectedKey));
    assert_eq!(parse_role_assignment(""), Err(RoleError::ExpectedKey));
    assert_eq!(parse_role_assignment("\"fn\""), Err(RoleError::ExpectedKey));
    assert_eq!(parse_role_assignment("guard_type"), Err(RoleError::Malformed));
    assert_eq!(parse_role_assignment("guard_type = fn"), Err(RoleError::Malformed));
    assert_eq!(parse_role_assignment("guard_type ="), Err(RoleError::Malformed));
    assert_eq!(parse_role_assignment("guard_type = b\"fn\""), Err(RoleError::Malformed));
    assert_eq!(parse_role_assignment("guard_type = \"fn\" , x"), Err(RoleError::Malformed));
    assert_eq!(
        parse_role_assignment("guard_type = \"tower\""),
        Err(RoleError::Unknown { value: "tower".to_string() })
    );
    assert_eq!(
        parse_role_assignment("guard_type = \"\""),
        Err(RoleError::Unknown { value: String::new() })
    );
}

#[test]
fn guard_references_keep_the_names_and_drop_the_parameters() {
    let names = |list: &[&str]| Ok(list.iter().map(|n| n.to_string()).collect::<Vec<String>>());
    assert_eq!(guard_references("auth"), names(&["auth"]));
    assert_eq!(guard_references("auth , tracing"), names(&["auth", "tracing"]));
    assert_eq!(guard_references("auth,tracing"), names(&["auth", "tracing"]));
    assert_eq!(
        guard_references("auth , rate_limit (10 , 20) , tracing"),
        names(&["auth", "rate_limit", "tracing"])
    );
    assert_eq!(guard_references("limit(a(1, 2), [3, 4]),auth,"), names(&["limit", "auth"]));
    assert_eq!(guard_references("_a1 , \u{e9}t\u{e9} ( ) , auth"), names(&["_a1", "\u{e9}t\u{e9}", "auth"]));
    assert_eq!(guard_references(""), names(&[]));
    assert_eq!(guard_references("  "), names(&[]));
    assert_eq!(guard_references("auth , auth"), names(&["auth", "auth"]));
}

#[test]
fn guard_references_hand_back_the_first_entry_that_refers_to_nothing() {
    assert_eq!(guard_references(" , ,"), Err(String::new()));
    assert_eq!(guard_references("a b"), Err("a b".to_string()));
    assert_eq!(guard_references("auth , 1 + 2 , 3"), Err("1 + 2".to_string()));
    assert_eq!(guard_references("1"), Err("1".to_string()));
    assert_eq!(guard_references("auth , a-b"), Err("a-b".to_string()));
    assert_eq!(guard_references("f ( 1 ) x"), Err("f ( 1 ) x".to_string()));
    assert_eq!(guard_references("(a)"), Err("(a)".to_string()));
}

#[test]
fn the_first_recognized_annotation_is_extracted() {
    let func = FnDecl {
        name: "f".to_string(),
        is_public: true,
        is_async: true,
        annotations: vec![
            annotation("inline", None),
            annotation("guards", Some("auth")),
            annotation("post", Some("\"/a\"")),
            annotation("get", Some("\"/b\"")),
        ],
    };
    let verbs = ["get", "post", "put", "patch", "delete"];
    assert_eq!(extract_annotation(&func, &verbs), Some(&annotation("post", Some("\"/a\""))));
    assert_eq!(extract_annotation(&func, &["guards"]), Some(&annotation("guards", Some("auth"))));
    assert_eq!(extract_annotation(&func, &["register_guard"]), None);
    assert_eq!(extract_annotation(&func, &[]), None);
}
