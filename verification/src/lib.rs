//! Discovery of route and guard declarations in a tree of source files, and
//! generation of the program text that registers them.
//!
//! A run has three steps. The guards are registered first
//! ([`guards::GuardStore`]); the routes are collected against them
//! ([`routes::discover_routes`]); the text that registers the routes is
//! written ([`router::generate_router`]). The library reads no file itself:
//! it is handed the files that were found, as paths and texts.

use vstd::prelude::*;

pub mod annotations;
pub mod errors;
pub mod expand;
pub mod generate;
pub mod guards;
pub mod paths;
pub mod router;
pub mod routes;
pub mod sources;
pub mod syntax;
pub mod text;

pub use annotations::{extract_path_from_attr, HttpMethod};
pub use errors::{DeclarationError, DiscoveryError, Fault, RoleError};
pub use expand::{register_guard_macro, route_macro, RouteRecord};
pub use generate::{collect_run, generate_code};
pub use guards::{Guard, GuardStore, GuardType};
pub use paths::{
    calculate_module_path, calculate_module_path_from_file_path, ModulePath, GUARD_BASE_DIR,
    ROUTE_BASE_DIR,
};
pub use router::generate_router;
pub use routes::{
    discover_routes, extract_route_from_func, parse_route_file, DiscoveredRoute,
};
pub use sources::SourceFile;
pub use syntax::{parse_declarations, Annotation, FnDecl};

verus! {

/// What a route handler records about itself for the running program.
#[derive(Debug, Clone, Copy)]
pub struct RouteMetaData {
    pub method: &'static str,
    pub path: &'static str,
    pub handler_name: &'static str,
    pub module: &'static str,
    pub file: &'static str,
    pub line: u32,
    pub column: u32,
}

} // verus!
