//! One run of generation: from the files of a routes directory and of a
//! guards directory to the program text.

use vstd::prelude::*;
use crate::errors::{DiscoveryError, DiscoveryErrorView};
use crate::guards::{lemma_index_files_hold_no_guards, register_files, GuardStore, GuardView};
use crate::paths::is_visited;
use crate::router::{generate_router, rendered};
use crate::routes::{
    discover_routes, discovered_routes, has_verb, lemma_index_files_hold_no_routes,
    lemma_unfit_handler_fails_discovery, route_views, DiscoveredRoute, RouteView,
};
use crate::sources::{listing_view, without_index_files, SourceFile, SourceFileView};
use crate::syntax::declarations;

verus! {

/// The guards that a run may refer to: those registered from `guards`, the
/// files found under the guards directory, or none where there is no such
/// directory. A failure while they are registered is the run's failure.
pub open spec fn available_guards(
    guards_dir: Seq<char>,
    guards: Option<Seq<SourceFileView>>,
) -> Result<Map<Seq<char>, GuardView>, DiscoveryErrorView> {
    match guards {
        None => Ok(Map::empty()),
        Some(files) => {
            let outcome = register_files(Map::empty(), files, guards_dir);
            match outcome.failure {
                Some(e) => Err(e),
                None => Ok(outcome.registry),
            }
        },
    }
}

/// The routes that a run collects. Without a routes directory it collects
/// nothing. Otherwise the guards are registered first and the routes are
/// collected against them.
pub open spec fn collection(
    routes_dir: Seq<char>,
    routes: Option<Seq<SourceFileView>>,
    guards_dir: Seq<char>,
    guards: Option<Seq<SourceFileView>>,
) -> Result<Option<Seq<RouteView>>, DiscoveryErrorView> {
    match routes {
        None => Ok(None),
        Some(files) => match available_guards(guards_dir, guards) {
            Err(e) => Err(e),
            Ok(registry) => match discovered_routes(files, routes_dir, registry) {
                Err(e) => Err(e),
                Ok(found) => Ok(Some(found)),
            },
        },
    }
}

/// What a run generates: the text that registers the routes it collects, or
/// nothing where there is no routes directory.
pub open spec fn generation(
    routes_dir: Seq<char>,
    routes: Option<Seq<SourceFileView>>,
    guards_dir: Seq<char>,
    guards: Option<Seq<SourceFileView>>,
) -> Result<Option<Seq<char>>, DiscoveryErrorView> {
    match collection(routes_dir, routes, guards_dir, guards) {
        Err(e) => Err(e),
        Ok(None) => Ok(None),
        Ok(Some(found)) => Ok(Some(rendered(found))),
    }
}

/// The view of a text that may be absent.
pub open spec fn code_view(code: Option<String>) -> Option<Seq<char>> {
    match code {
        Some(code) => Some(code@),
        None => None,
    }
}

/// The view of routes that may be absent.
pub open spec fn collected_view(found: Option<Vec<DiscoveredRoute>>) -> Option<Seq<RouteView>> {
    match found {
        Some(found) => Some(route_views(found@)),
        None => None,
    }
}

/// Collects the routes of a run from the files found under the routes
/// directory `routes_dir` and under the guards directory `guards_dir`, each
/// given in the order in which they were found, or as `None` where there is
/// no such directory. Returns `None` where there is no routes directory.
pub fn collect_run(
    routes_dir: &str,
    routes: Option<&Vec<SourceFile>>,
    guards_dir: &str,
    guards: Option<&Vec<SourceFile>>,
) -> (r: Result<Option<Vec<DiscoveredRoute>>, DiscoveryError>)
    ensures
        match r {
            Ok(found) => collection(
                routes_dir@,
                listing_view(routes),
                guards_dir@,
                listing_view(guards),
            ) == Ok::<Option<Seq<RouteView>>, DiscoveryErrorView>(collected_view(found)),
            Err(e) => collection(
                routes_dir@,
                listing_view(routes),
                guards_dir@,
                listing_view(guards),
            ) == Err::<Option<Seq<RouteView>>, DiscoveryErrorView>(e@),
        },
{
    let files = match routes {
        None => {
            return Ok(None);
        },
        Some(files) => files,
    };
    let mut store = GuardStore::new();
    match guards {
        None => {},
        Some(found) => {
            match store.register_files(found, guards_dir) {
                Err(e) => {
                    return Err(e);
                },
                Ok(_) => {},
            }
        },
    }
    match discover_routes(routes_dir, files, &store) {
        Err(e) => Err(e),
        Ok(found) => Ok(Some(found)),
    }
}

/// Runs generation on the files found under the routes directory
/// `routes_dir` and under the guards directory `guards_dir`, each given in
/// the order in which they were found, or as `None` where there is no such
/// directory. Returns the program text, or `None` where there is no routes
/// directory.
pub fn generate_code(
    routes_dir: &str,
    routes: Option<&Vec<SourceFile>>,
    guards_dir: &str,
    guards: Option<&Vec<SourceFile>>,
) -> (r: Result<Option<String>, DiscoveryError>)
    ensures
        match r {
            Ok(code) => generation(
                routes_dir@,
                listing_view(routes),
                guards_dir@,
                listing_view(guards),
            ) == Ok::<Option<Seq<char>>, DiscoveryErrorView>(code_view(code)),
            Err(e) => generation(
                routes_dir@,
                listing_view(routes),
                guards_dir@,
                listing_view(guards),
            ) == Err::<Option<Seq<char>>, DiscoveryErrorView>(e@),
        },
{
    match collect_run(routes_dir, routes, guards_dir, guards) {
        Err(e) => Err(e),
        Ok(None) => Ok(None),
        Ok(Some(found)) => Ok(Some(generate_router(found.as_slice()))),
    }
}

/// Index files are never read by a run: what is generated from the files
/// is what is generated from those among them that are no index files.
pub proof fn lemma_generation_passes_over_index_files(
    routes_dir: Seq<char>,
    routes: Seq<SourceFileView>,
    guards_dir: Seq<char>,
    guards: Seq<SourceFileView>,
)
    ensures
        generation(routes_dir, Some(routes), guards_dir, Some(guards)) == generation(
            routes_dir,
            Some(without_index_files(routes)),
            guards_dir,
            Some(without_index_files(guards)),
        ),
{
    lemma_index_files_hold_no_guards(Map::empty(), guards, guards_dir);
    match available_guards(guards_dir, Some(guards)) {
        Ok(registry) => {
            lemma_index_files_hold_no_routes(routes, routes_dir, registry);
        },
        Err(_) => {},
    }
}

/// One unfit handler fails the run: where a file that discovery reads under
/// the routes directory declares a function with a verb annotation that is
/// not `pub`, or not `async`, nothing is generated.
pub proof fn lemma_unfit_handler_fails_generation(
    routes_dir: Seq<char>,
    routes: Seq<SourceFileView>,
    guards_dir: Seq<char>,
    guards: Option<Seq<SourceFileView>>,
    in_file: int,
    at: int,
)
    requires
        0 <= in_file < routes.len(),
        is_visited(routes[in_file].path),
        declarations(routes[in_file].content) is Ok,
        0 <= at < declarations(routes[in_file].content)->Ok_0.len(),
        has_verb(declarations(routes[in_file].content)->Ok_0[at]),
        !declarations(routes[in_file].content)->Ok_0[at].is_public || !declarations(
            routes[in_file].content,
        )->Ok_0[at].is_async,
    ensures
        generation(routes_dir, Some(routes), guards_dir, guards) is Err,
{
    match available_guards(guards_dir, guards) {
        Ok(registry) => {
            lemma_unfit_handler_fails_discovery(routes, in_file, at, routes_dir, registry);
        },
        Err(_) => {},
    }
}

/// A run is a function of what it reads: the same files under the same
/// directories, in the same order, give the same outcome, and so the same
/// text, character for character.
pub proof fn lemma_generation_is_deterministic(
    routes_dir: Seq<char>,
    routes: Option<Seq<SourceFileView>>,
    guards_dir: Seq<char>,
    guards: Option<Seq<SourceFileView>>,
    again_routes: Option<Seq<SourceFileView>>,
    again_guards: Option<Seq<SourceFileView>>,
)
    requires
        routes == again_routes,
        guards == again_guards,
    ensures
        generation(routes_dir, routes, guards_dir, guards) == generation(
            routes_dir,
            again_routes,
            guards_dir,
            again_guards,
        ),
{
}

} // verus!
