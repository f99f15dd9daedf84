use azap_codegen::paths::{lies_under, should_visit, split_path, strip_source_suffix};
use azap_codegen::{
    calculate_module_path, calculate_module_path_from_file_path, DiscoveryError, ModulePath,
    GUARD_BASE_DIR, ROUTE_BASE_DIR,
};

#[test]
fn test_calculate_module_path() {
    let file_path = "/home/gauravlohar/personal/azap/examples/basic/src/routes/users/get.rs";
    let route_base = "/home/gauravlohar/personal/azap/examples/basic/src/routes";

    let module = calculate_module_path(file_path, route_base, Some(ROUTE_BASE_DIR));

    assert_eq!("routes::users::get", module);
}

#[test]
fn test_calculate_module_path_from_file_path() {
    let file_path = "routes/users/get.rs";
    let module = calculate_module_path_from_file_path(file_path);

    assert_eq!("routes::users::get", module);
}

#[test]
fn module_of_a_file_without_root_label() {
    let module = calculate_module_path("/src/routes/auth/login.rs", "/src/routes", None);
    assert_eq!("auth::login", module);
}

#[test]
fn module_of_the_root_itself_keeps_the_separator() {
    let module = calculate_module_path("/src/routes", "/src/routes", Some("routes"));
    assert_eq!("routes::", module);
}

#[test]
fn only_the_last_component_loses_its_suffix_when_a_file_module_is_written() {
    assert_eq!("a.rs::b", calculate_module_path_from_file_path("a.rs/b.rs"));
    assert_eq!("a::b", calculate_module_path_from_file_path("a/b.rs"));
    assert_eq!("r::a.rs::b", calculate_module_path("/x/a.rs/b.rs", "/x", Some("r")));
    assert_ne!(
        calculate_module_path("/x/a.rs/b.rs", "/x", Some("r")),
        calculate_module_path("/x/a/b.rs", "/x", Some("r"))
    );
}

#[test]
fn a_leading_dot_is_a_component_of_its_own() {
    assert_eq!(split_path("./a"), vec![".", "a"]);
    assert_eq!(split_path("."), vec!["."]);
    assert_eq!(split_path(".//a/./b"), vec![".", "a", "b"]);
    assert_eq!(split_path("/./a"), vec!["a"]);
    assert_eq!(split_path(".a/b"), vec![".a", "b"]);
    assert!(!lies_under("./a", "a"));
    assert!(!lies_under("a", "./a"));
    assert!(!lies_under("./r/a.rs", "r"));
    assert!(lies_under("./a/b", "./a"));
    assert!(lies_under("./a", "."));
    assert!(lies_under("./a", ""));
    assert_eq!(
        ModulePath::construct("./a", "a", "m"),
        Err(DiscoveryError::PathOutsideRoot { path: "./a".to_string() })
    );
    let inside = ModulePath::construct("./g/auth.rs", "./g", "auth").unwrap();
    assert_eq!(inside.to_string(), "guards::auth::auth");
    let from_nowhere = ModulePath::construct("./g/auth.rs", "", "auth").unwrap();
    assert_eq!(from_nowhere.to_string(), "guards::g::auth::auth");
    assert_eq!("routes::users::get", calculate_module_path_from_file_path("./routes/users/get.rs"));
    assert!(!should_visit("."));
    assert!(should_visit("./a.rs"));
}

#[test]
fn special_components_name_no_module() {
    assert_eq!("a::b", calculate_module_path_from_file_path("./a//../b.rs"));
    assert_eq!("", calculate_module_path_from_file_path(""));
}

#[test]
fn split_path_passes_over_empty_and_dot_fields() {
    assert_eq!(split_path("/a//b/./c.rs/"), vec!["a", "b", "c.rs"]);
    assert_eq!(split_path("a/../b"), vec!["a", "..", "b"]);
    assert_eq!(split_path(""), Vec::<String>::new());
    assert_eq!(split_path("///"), Vec::<String>::new());
}

#[test]
fn strip_source_suffix_takes_one_suffix_off() {
    assert_eq!(strip_source_suffix("get.rs"), "get");
    assert_eq!(strip_source_suffix("get.rs.rs"), "get.rs");
    assert_eq!(strip_source_suffix("get"), "get");
    assert_eq!(strip_source_suffix(".rs"), "");
    assert_eq!(strip_source_suffix("rs"), "rs");
}

#[test]
fn construct_names_a_guard_under_the_guards_namespace() {
    let path = ModulePath::construct("/src/guards/auth.rs", "/src/guards", "auth").unwrap();
    assert_eq!(path.segments(), &vec!["guards", "auth", "auth"]);
    assert_eq!(path.to_string(), "guards::auth::auth");
    assert_eq!(GUARD_BASE_DIR, "guards");
}

#[test]
fn construct_strips_the_suffix_of_the_last_component_only() {
    let path = ModulePath::construct_in("/r/a.rs/b.rs", "/r", "routes", "f").unwrap();
    assert_eq!(path.segments(), &vec!["routes", "a.rs", "b", "f"]);
}

#[test]
fn construct_rejects_a_file_outside_the_root() {
    let outside = ModulePath::construct("/src/other/auth.rs", "/src/guards", "auth");
    assert_eq!(
        outside,
        Err(DiscoveryError::PathOutsideRoot { path: "/src/other/auth.rs".to_string() })
    );
    let relative = ModulePath::construct("src/guards/auth.rs", "/src/guards", "auth");
    assert!(matches!(relative, Err(DiscoveryError::PathOutsideRoot { .. })));
    let partial = ModulePath::construct("/src/guards2/auth.rs", "/src/guards", "auth");
    assert!(matches!(partial, Err(DiscoveryError::PathOutsideRoot { .. })));
}

#[test]
fn two_declarations_of_one_file_differ_in_the_last_segment_only() {
    let first = ModulePath::construct_in("/r/users/get.rs", "/r", "routes", "list_users").unwrap();
    let second = ModulePath::construct_in("/r/users/get.rs", "/r", "routes", "get_user").unwrap();
    assert_eq!(first.segments()[..3], second.segments()[..3]);
    assert_ne!(first, second);
}

#[test]
fn distinct_source_files_get_distinct_module_paths() {
    let first = ModulePath::construct_in("/r/a/b.rs", "/r", "routes", "f").unwrap();
    let second = ModulePath::construct_in("/r/a.rs", "/r", "routes", "f").unwrap();
    let third = ModulePath::construct_in("/r/a/b.rs", "/r", "routes", "f").unwrap();
    assert_ne!(first, second);
    assert_eq!(first, third);
}

#[test]
fn a_file_and_its_suffixless_twin_share_a_module_path() {
    let first = ModulePath::construct_in("/r/a", "/r", "routes", "f").unwrap();
    let second = ModulePath::construct_in("/r/a.rs", "/r", "routes", "f").unwrap();
    assert_eq!(first, second);
}

#[test]
fn discovery_reads_source_files_that_are_no_index_files() {
    assert!(should_visit("/r/health.rs"));
    assert!(should_visit("users/get.rs"));
    assert!(!should_visit("/r/mod.rs"));
    assert!(!should_visit("/r/users/mod.rs"));
    assert!(!should_visit("/r/notes.txt"));
    assert!(!should_visit("/r/.rs"));
    assert!(!should_visit("/r/users"));
    assert!(!should_visit("/r/users/.."));
    assert!(!should_visit(""));
    assert!(should_visit("/r/amod.rs"));
}

#[test]
fn lying_under_goes_by_whole_components() {
    assert!(lies_under("/src/routes/users/get.rs", "/src/routes"));
    assert!(lies_under("/src/routes", "/src/routes"));
    assert!(lies_under("/src//routes/./a.rs", "/src/routes/"));
    assert!(lies_under("a/b", ""));
    assert!(!lies_under("/src/routes2/a.rs", "/src/routes"));
    assert!(!lies_under("/src", "/src/routes"));
    assert!(!lies_under("src/routes/a.rs", "/src/routes"));
    assert!(!lies_under("/src/routes/a.rs", "src/routes"));
    assert!(!lies_under("/src/routes/../a.rs", "/src/a.rs"));
}

#[test]
fn the_leaf_is_the_last_segment() {
    let path = ModulePath::construct_in("/r/users/get.rs", "/r", "routes", "get_user").unwrap();
    assert_eq!(path.leaf(), "get_user");
    let shortest = ModulePath::construct_in("/r", "/r", "routes", "f").unwrap();
    assert_eq!(shortest.segments(), &vec!["routes", "f"]);
    assert_eq!(shortest.leaf(), "f");
}

#[test]
fn components_with_colons_can_be_written_alike() {
    assert_eq!(
        calculate_module_path_from_file_path("a:/b.rs"),
        calculate_module_path_from_file_path("a/:b.rs")
    );
    assert_ne!(
        calculate_module_path_from_file_path("a/b.rs"),
        calculate_module_path_from_file_path("a.rs")
    );
    assert_ne!(
        calculate_module_path_from_file_path("a/b/c.rs"),
        calculate_module_path_from_file_path("a/b.rs/c.rs")
    );
}
