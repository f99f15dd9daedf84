//! Routes: the declarations that a verb annotation binds to a method and a
//! path, collected from the files under a routes directory.

use vstd::prelude::*;
use crate::annotations::{
    annotation_verb, find_annotation, find_verb, is_called, is_verb, HttpMethod,
    GUARDS_ANNOTATION,
};
use crate::errors::{
    DeclarationError, DeclarationErrorView, DiscoveryError, DiscoveryErrorView, Fault,
};
use crate::guards::{
    annotation_references, clone_guards, guard_views, resolved, unknown, Guard, GuardStore,
    GuardView,
};
use crate::paths::{
    is_index_file, is_under, is_visited, module_segments, relative, should_visit, ModulePath,
    ROUTE_BASE_DIR,
};
use crate::sources::{file_views, without_index_files, SourceFile, SourceFileView};
use crate::syntax::{
    annotation_views, decl_views, declarations, literal_text, parse_declarations, read_literal,
    text_of, Annotation, AnnotationView, FnDecl, FnDeclView,
};
use crate::text::{clone_texts, first_where, lemma_first_where_found, texts};

verus! {

/// A route found in a source file: a handler bound to a method and a path,
/// with the guards that stand before it.
#[derive(Debug, PartialEq, Eq)]
pub struct DiscoveredRoute {
    pub method: HttpMethod,
    pub path: String,
    pub handler: String,
    pub module: ModulePath,
    /// The guards that stand before the handler, in the order in which the
    /// handler lists them.
    pub guards: Vec<Guard>,
    /// The names that the handler lists and no guard goes by, in order.
    /// They stand before nothing; they are kept to be reported.
    pub unresolved: Vec<String>,
}

/// A route, as contracts speak of it.
pub struct RouteView {
    pub method: HttpMethod,
    pub path: Seq<char>,
    pub handler: Seq<char>,
    pub module: Seq<Seq<char>>,
    pub guards: Seq<GuardView>,
    pub unresolved: Seq<Seq<char>>,
}

impl View for DiscoveredRoute {
    type V = RouteView;

    open spec fn view(&self) -> RouteView {
        RouteView {
            method: self.method,
            path: self.path@,
            handler: self.handler@,
            module: self.module@,
            guards: guard_views(self.guards@),
            unresolved: texts(self.unresolved@),
        }
    }
}

impl Clone for DiscoveredRoute {
    fn clone(&self) -> (r: Self)
        ensures
            r@ == self@,
    {
        DiscoveredRoute {
            method: self.method,
            path: self.path.clone(),
            handler: self.handler.clone(),
            module: self.module.clone(),
            guards: clone_guards(&self.guards),
            unresolved: clone_texts(&self.unresolved),
        }
    }
}

/// The views of a sequence of routes.
pub open spec fn route_views(v: Seq<DiscoveredRoute>) -> Seq<RouteView> {
    v.map_values(|r: DiscoveredRoute| r@)
}

/// The view of a route that may be absent.
pub open spec fn found_view(found: Option<DiscoveredRoute>) -> Option<RouteView> {
    match found {
        Some(route) => Some(route@),
        None => None,
    }
}

/// The names that a handler lists as its guards: those that its first
/// guard-reference annotation refers to, or none where it carries no such
/// annotation. Where an entry of the list refers to no guard, the first
/// such entry.
pub open spec fn route_references(annotations: Seq<AnnotationView>) -> Result<
    Seq<Seq<char>>,
    Seq<char>,
> {
    let i = first_where(annotations, is_called(GUARDS_ANNOTATION@));
    if i >= annotations.len() {
        Ok(Seq::empty())
    } else {
        annotation_references(annotations[i])
    }
}

/// What the argument of a verb annotation holds, where the argument is one
/// string literal: the path that the annotation binds its handler to.
pub open spec fn route_path(a: AnnotationView) -> Option<Seq<char>> {
    match a.tokens {
        Some(tokens) => literal_text(tokens),
        None => None,
    }
}

/// The handlers' contract, to which a declaration with a verb annotation
/// for `method` is held; `literal` is what the annotation's argument holds,
/// where it is one string literal. The argument is one string literal, and
/// the function is `async` and `pub`. Gives the path that the literal
/// holds, or the first of the three that fails.
pub open spec fn handler_verdict(
    decl: FnDeclView,
    method: HttpMethod,
    literal: Option<Seq<char>>,
) -> Result<Seq<char>, DeclarationErrorView> {
    match literal {
        None => Err(DeclarationErrorView::RoutePath { declaration: decl.name, method }),
        Some(path) => if !decl.is_async {
            Err(
                DeclarationErrorView::Handler {
                    declaration: decl.name,
                    method,
                    path,
                    fault: Fault::NotAsync,
                },
            )
        } else if !decl.is_public {
            Err(
                DeclarationErrorView::Handler {
                    declaration: decl.name,
                    method,
                    path,
                    fault: Fault::NotPublic,
                },
            )
        } else {
            Ok(path)
        },
    }
}

/// The handlers' contract, applied to a declaration with the verb
/// annotation `a` for `method`.
pub open spec fn handler_contract(
    decl: FnDeclView,
    method: HttpMethod,
    a: AnnotationView,
) -> Result<Seq<char>, DeclarationErrorView> {
    handler_verdict(decl, method, route_path(a))
}

/// The route that a declaration in the file `file` under the routes
/// directory `base` declares.
///
/// A declaration without a verb annotation declares none. Otherwise its
/// first verb annotation decides, and the declaration is held to the
/// handlers' contract. A failure of the contract is reported first, with
/// the file, then a file that does not lie under `base`, then a list of
/// guards with an entry that refers to none. A name that `registry` does
/// not know is no failure: it is left out of the guards and kept among the
/// unresolved names.
pub open spec fn route_of(
    decl: FnDeclView,
    file: Seq<char>,
    base: Seq<char>,
    registry: Map<Seq<char>, GuardView>,
) -> Result<Option<RouteView>, DiscoveryErrorView> {
    let i = first_where(decl.annotations, is_verb());
    if i >= decl.annotations.len() {
        Ok(None)
    } else {
        let method = annotation_verb(decl.annotations[i])->0;
        match handler_contract(decl, method, decl.annotations[i]) {
            Err(error) => Err(DiscoveryErrorView::Declaration { file, error }),
            Ok(path) => if !is_under(file, base) {
                Err(DiscoveryErrorView::PathOutsideRoot { path: file })
            } else {
                match route_references(decl.annotations) {
                    Err(entry) => Err(
                        DiscoveryErrorView::Declaration {
                            file,
                            error: DeclarationErrorView::GuardList {
                                declaration: decl.name,
                                entry,
                            },
                        },
                    ),
                    Ok(names) => Ok(
                        Some(
                            RouteView {
                                method,
                                path,
                                handler: decl.name,
                                module: module_segments(
                                    ROUTE_BASE_DIR@,
                                    relative(file, base),
                                    decl.name,
                                ),
                                guards: resolved(names, registry),
                                unresolved: unknown(names, registry),
                            },
                        ),
                    ),
                }
            },
        }
    }
}

/// The routes that `decls` declare, in order, or the first failure among
/// them.
pub open spec fn routes_among(
    decls: Seq<FnDeclView>,
    file: Seq<char>,
    base: Seq<char>,
    registry: Map<Seq<char>, GuardView>,
) -> Result<Seq<RouteView>, DiscoveryErrorView>
    decreases decls.len(),
{
    if decls.len() == 0 {
        Ok(Seq::empty())
    } else {
        match routes_among(decls.drop_last(), file, base, registry) {
            Err(e) => Err(e),
            Ok(before) => match route_of(decls.last(), file, base, registry) {
                Err(e) => Err(e),
                Ok(Some(route)) => Ok(before.push(route)),
                Ok(None) => Ok(before),
            },
        }
    }
}

/// The routes that the text `content` of the file `file` declares.
pub open spec fn file_routes(
    file: Seq<char>,
    base: Seq<char>,
    content: Seq<char>,
    registry: Map<Seq<char>, GuardView>,
) -> Result<Seq<RouteView>, DiscoveryErrorView> {
    match declarations(content) {
        Err(message) => Err(DiscoveryErrorView::Syntax { file, message }),
        Ok(decls) => routes_among(decls, file, base, registry),
    }
}

/// The routes declared in those of `files` that discovery reads, in the
/// order of the files and, within a file, of its declarations; or the first
/// failure among them.
pub open spec fn discovered_routes(
    files: Seq<SourceFileView>,
    base: Seq<char>,
    registry: Map<Seq<char>, GuardView>,
) -> Result<Seq<RouteView>, DiscoveryErrorView>
    decreases files.len(),
{
    if files.len() == 0 {
        Ok(Seq::empty())
    } else {
        match discovered_routes(files.drop_last(), base, registry) {
            Err(e) => Err(e),
            Ok(before) => if is_visited(files.last().path) {
                match file_routes(files.last().path, base, files.last().content, registry) {
                    Err(e) => Err(e),
                    Ok(found) => Ok(before + found),
                }
            } else {
                Ok(before)
            },
        }
    }
}

/// Holds `func`, which carries a verb annotation for `method`, to the
/// handlers' contract; `literal` is what the annotation's argument holds,
/// where it is one string literal. Returns the path that the annotation
/// binds `func` to.
pub fn judge_handler(func: &FnDecl, method: HttpMethod, literal: Option<String>) -> (r: Result<
    String,
    DeclarationError,
>)
    ensures
        match r {
            Ok(path) => handler_verdict(func@, method, text_of(literal)) == Ok::<
                Seq<char>,
                DeclarationErrorView,
            >(path@),
            Err(e) => handler_verdict(func@, method, text_of(literal)) == Err::<
                Seq<char>,
                DeclarationErrorView,
            >(e@),
        },
{
    let path = match literal {
        None => {
            return Err(DeclarationError::RoutePath { declaration: func.name.clone(), method });
        },
        Some(path) => path,
    };
    if !func.is_async {
        return Err(
            DeclarationError::Handler {
                declaration: func.name.clone(),
                method,
                path,
                fault: Fault::NotAsync,
            },
        );
    }
    if !func.is_public {
        return Err(
            DeclarationError::Handler {
                declaration: func.name.clone(),
                method,
                path,
                fault: Fault::NotPublic,
            },
        );
    }
    Ok(path)
}

/// Holds `func`, which carries the verb annotation `attr` for `method`, to
/// the handlers' contract, and returns the path that `attr` binds it to.
pub fn check_handler(func: &FnDecl, method: HttpMethod, attr: &Annotation) -> (r: Result<
    String,
    DeclarationError,
>)
    ensures
        match r {
            Ok(path) => handler_contract(func@, method, attr@) == Ok::<
                Seq<char>,
                DeclarationErrorView,
            >(path@),
            Err(e) => handler_contract(func@, method, attr@) == Err::<
                Seq<char>,
                DeclarationErrorView,
            >(e@),
        },
{
    let literal = match &attr.tokens {
        Some(tokens) => read_literal(tokens.as_str()),
        None => None,
    };
    judge_handler(func, method, literal)
}

/// The route that `func`, found in the file at `file_path` under the routes
/// directory `route_base`, declares, with its guards looked up in
/// `guard_store`; `None` where `func` carries no verb annotation.
pub fn extract_route_from_func(
    func: &FnDecl,
    file_path: &str,
    route_base: &str,
    guard_store: &GuardStore,
) -> (r: Result<Option<DiscoveredRoute>, DiscoveryError>)
    ensures
        match r {
            Ok(found) => route_of(func@, file_path@, route_base@, guard_store@) == Ok::<
                Option<RouteView>,
                DiscoveryErrorView,
            >(found_view(found)),
            Err(e) => route_of(func@, file_path@, route_base@, guard_store@) == Err::<
                Option<RouteView>,
                DiscoveryErrorView,
            >(e@),
        },
{
    let attrs = func.annotations.as_slice();
    let (i, method) = match find_verb(attrs) {
        None => {
            return Ok(None);
        },
        Some(found) => found,
    };
    proof {
        assert(annotation_views(attrs@)[i as int] == attrs@[i as int]@);
    }
    let path = match check_handler(func, method, &attrs[i]) {
        Err(error) => {
            return Err(DiscoveryError::Declaration { file: file_path.to_owned(), error });
        },
        Ok(path) => path,
    };
    let module = match ModulePath::construct_in(
        file_path,
        route_base,
        ROUTE_BASE_DIR,
        func.name.as_str(),
    ) {
        Err(e) => {
            return Err(e);
        },
        Ok(module) => module,
    };
    let listed = match find_annotation(attrs, GUARDS_ANNOTATION) {
        Some(g) => {
            proof {
                assert(annotation_views(attrs@)[g as int] == attrs@[g as int]@);
            }
            Guard::references_in_attr(&attrs[g])
        },
        None => {
            let none: Vec<String> = Vec::new();
            proof {
                assert(texts(none@) =~= Seq::<Seq<char>>::empty());
            }
            Ok(none)
        },
    };
    let names = match listed {
        Err(entry) => {
            return Err(
                DiscoveryError::Declaration {
                    file: file_path.to_owned(),
                    error: DeclarationError::GuardList { declaration: func.name.clone(), entry },
                },
            );
        },
        Ok(names) => names,
    };
    let (guards, unresolved) = guard_store.resolve(&names);
    Ok(
        Some(
            DiscoveredRoute {
                method,
                path,
                handler: func.name.clone(),
                module,
                guards,
                unresolved,
            },
        ),
    )
}

/// Once a declaration has failed, the declarations after it change nothing.
pub proof fn lemma_routes_among_failed(
    decls: Seq<FnDeclView>,
    file: Seq<char>,
    base: Seq<char>,
    registry: Map<Seq<char>, GuardView>,
    n: int,
)
    requires
        0 <= n <= decls.len(),
        routes_among(decls.take(n), file, base, registry) is Err,
    ensures
        routes_among(decls, file, base, registry) == routes_among(
            decls.take(n),
            file,
            base,
            registry,
        ),
    decreases decls.len() - n,
{
    if n < decls.len() {
        assert(decls.take(n + 1).drop_last() =~= decls.take(n));
        lemma_routes_among_failed(decls, file, base, registry, n + 1);
    } else {
        assert(decls.take(n) =~= decls);
    }
}

/// Once a file has failed, the files after it change nothing.
pub proof fn lemma_discovered_routes_failed(
    files: Seq<SourceFileView>,
    base: Seq<char>,
    registry: Map<Seq<char>, GuardView>,
    n: int,
)
    requires
        0 <= n <= files.len(),
        discovered_routes(files.take(n), base, registry) is Err,
    ensures
        discovered_routes(files, base, registry) == discovered_routes(
            files.take(n),
            base,
            registry,
        ),
    decreases files.len() - n,
{
    if n < files.len() {
        assert(files.take(n + 1).drop_last() =~= files.take(n));
        lemma_discovered_routes_failed(files, base, registry, n + 1);
    } else {
        assert(files.take(n) =~= files);
    }
}

/// The routes that `decls`, found in the file at `file_path` under the
/// routes directory `route_base`, declare, in order.
pub fn collect_routes(
    decls: &Vec<FnDecl>,
    file_path: &str,
    route_base: &str,
    guard_store: &GuardStore,
) -> (r: Result<Vec<DiscoveredRoute>, DiscoveryError>)
    ensures
        match r {
            Ok(routes) => routes_among(decl_views(decls@), file_path@, route_base@, guard_store@)
                == Ok::<Seq<RouteView>, DiscoveryErrorView>(route_views(routes@)),
            Err(e) => routes_among(decl_views(decls@), file_path@, route_base@, guard_store@)
                == Err::<Seq<RouteView>, DiscoveryErrorView>(e@),
        },
{
    let mut routes: Vec<DiscoveredRoute> = Vec::new();
    let mut i: usize = 0;
    proof {
        assert(decl_views(decls@).take(0) =~= Seq::<FnDeclView>::empty());
        assert(route_views(routes@) =~= Seq::<RouteView>::empty());
    }
    while i < decls.len()
        invariant
            i <= decls.len(),
            routes_among(decl_views(decls@).take(i as int), file_path@, route_base@, guard_store@)
                == Ok::<Seq<RouteView>, DiscoveryErrorView>(route_views(routes@)),
        decreases decls.len() - i,
    {
        proof {
            assert(decl_views(decls@).take(i + 1).drop_last() =~= decl_views(decls@).take(
                i as int,
            ));
            assert(decl_views(decls@).take(i + 1).last() == decls@[i as int]@);
        }
        match extract_route_from_func(&decls[i], file_path, route_base, guard_store) {
            Err(e) => {
                proof {
                    lemma_routes_among_failed(
                        decl_views(decls@),
                        file_path@,
                        route_base@,
                        guard_store@,
                        i + 1,
                    );
                }
                return Err(e);
            },
            Ok(Some(route)) => {
                proof {
                    assert(route_views(routes@.push(route)) =~= route_views(routes@).push(route@));
                }
                routes.push(route);
            },
            Ok(None) => {},
        }
        i = i + 1;
    }
    proof {
        assert(decl_views(decls@).take(decls.len() as int) =~= decl_views(decls@));
    }
    Ok(routes)
}

/// The routes declared in the text `content` of the file at `file_path`
/// under the routes directory `route_base`, in order.
pub fn parse_route_file(
    file_path: &str,
    route_base: &str,
    content: &str,
    guard_store: &GuardStore,
) -> (r: Result<Vec<DiscoveredRoute>, DiscoveryError>)
    ensures
        match r {
            Ok(routes) => file_routes(file_path@, route_base@, content@, guard_store@) == Ok::<
                Seq<RouteView>,
                DiscoveryErrorView,
            >(route_views(routes@)),
            Err(e) => file_routes(file_path@, route_base@, content@, guard_store@) == Err::<
                Seq<RouteView>,
                DiscoveryErrorView,
            >(e@),
        },
{
    match parse_declarations(content) {
        Err(message) => Err(DiscoveryError::Syntax { file: file_path.to_owned(), message }),
        Ok(decls) => collect_routes(&decls, file_path, route_base, guard_store),
    }
}

/// The routes declared under the routes directory `route`. `files` are the
/// files found under it, in the order in which they were found. Index files
/// and files that are no source files are passed over. The routes come in
/// the order of the files and, within a file, of its declarations.
pub fn discover_routes(route: &str, files: &Vec<SourceFile>, guard_store: &GuardStore) -> (r:
    Result<Vec<DiscoveredRoute>, DiscoveryError>)
    ensures
        match r {
            Ok(routes) => discovered_routes(file_views(files@), route@, guard_store@) == Ok::<
                Seq<RouteView>,
                DiscoveryErrorView,
            >(route_views(routes@)),
            Err(e) => discovered_routes(file_views(files@), route@, guard_store@) == Err::<
                Seq<RouteView>,
                DiscoveryErrorView,
            >(e@),
        },
{
    let mut routes: Vec<DiscoveredRoute> = Vec::new();
    let mut i: usize = 0;
    proof {
        assert(file_views(files@).take(0) =~= Seq::<SourceFileView>::empty());
        assert(route_views(routes@) =~= Seq::<RouteView>::empty());
    }
    while i < files.len()
        invariant
            i <= files.len(),
            discovered_routes(file_views(files@).take(i as int), route@, guard_store@) == Ok::<
                Seq<RouteView>,
                DiscoveryErrorView,
            >(route_views(routes@)),
        decreases files.len() - i,
    {
        proof {
            assert(file_views(files@).take(i + 1).drop_last() =~= file_views(files@).take(
                i as int,
            ));
            assert(file_views(files@).take(i + 1).last() == files@[i as int]@);
        }
        let file = &files[i];
        if should_visit(file.path.as_str()) {
            match parse_route_file(
                file.path.as_str(),
                route,
                file.content.as_str(),
                guard_store,
            ) {
                Err(e) => {
                    proof {
                        lemma_discovered_routes_failed(
                            file_views(files@),
                            route@,
                            guard_store@,
                            i + 1,
                        );
                    }
                    return Err(e);
                },
                Ok(found) => {
                    let mut found = found;
                    proof {
                        assert(route_views(routes@ + found@) =~= route_views(routes@)
                            + route_views(found@));
                    }
                    routes.append(&mut found);
                },
            }
        }
        i = i + 1;
    }
    proof {
        assert(file_views(files@).take(files.len() as int) =~= file_views(files@));
    }
    Ok(routes)
}


/// Whether a declaration carries a verb annotation.
pub open spec fn has_verb(decl: FnDeclView) -> bool {
    exists|i: int| 0 <= i < decl.annotations.len() && annotation_verb(decl.annotations[i]) is Some
}

/// How many of `decls` carry a verb annotation.
pub open spec fn count_with_verb(decls: Seq<FnDeclView>) -> nat
    decreases decls.len(),
{
    if decls.len() == 0 {
        0
    } else if has_verb(decls.last()) {
        count_with_verb(decls.drop_last()) + 1
    } else {
        count_with_verb(decls.drop_last())
    }
}

/// A declaration carries a verb annotation exactly when the search for its
/// first verb annotation finds one.
pub proof fn lemma_has_verb(decl: FnDeclView)
    ensures
        has_verb(decl) <==> first_where(decl.annotations, is_verb()) < decl.annotations.len(),
{
    lemma_first_where_found(decl.annotations, is_verb());
    let k = first_where(decl.annotations, is_verb());
    if has_verb(decl) {
        let i = choose|i: int|
            0 <= i < decl.annotations.len() && annotation_verb(decl.annotations[i]) is Some;
        assert(is_verb()(decl.annotations[i]));
    }
    if k < decl.annotations.len() {
        assert(is_verb()(decl.annotations[k]));
        assert(annotation_verb(decl.annotations[k]) is Some);
    }
}

/// A declaration without a verb annotation declares no route, whatever
/// else it carries and wherever it stands.
pub proof fn lemma_no_verb_no_route(
    decl: FnDeclView,
    file: Seq<char>,
    base: Seq<char>,
    registry: Map<Seq<char>, GuardView>,
)
    requires
        !has_verb(decl),
    ensures
        route_of(decl, file, base, registry) == Ok::<Option<RouteView>, DiscoveryErrorView>(None),
{
    lemma_has_verb(decl);
}

/// A declaration with a verb annotation declares a route or fails: it is
/// never passed over.
pub proof fn lemma_verb_is_not_passed_over(
    decl: FnDeclView,
    file: Seq<char>,
    base: Seq<char>,
    registry: Map<Seq<char>, GuardView>,
)
    requires
        has_verb(decl),
    ensures
        route_of(decl, file, base, registry) != Ok::<Option<RouteView>, DiscoveryErrorView>(None),
{
    lemma_has_verb(decl);
}

/// Where collection succeeds, there is one route for each declaration with
/// a verb annotation and none for the others.
pub proof fn lemma_routes_stem_from_verbs(
    decls: Seq<FnDeclView>,
    file: Seq<char>,
    base: Seq<char>,
    registry: Map<Seq<char>, GuardView>,
)
    requires
        routes_among(decls, file, base, registry) is Ok,
    ensures
        routes_among(decls, file, base, registry)->Ok_0.len() == count_with_verb(decls),
    decreases decls.len(),
{
    if decls.len() > 0 {
        lemma_routes_stem_from_verbs(decls.drop_last(), file, base, registry);
        lemma_has_verb(decls.last());
    }
}

/// Declarations of which none carries a verb annotation give no route.
pub proof fn lemma_no_verbs_no_routes(
    decls: Seq<FnDeclView>,
    file: Seq<char>,
    base: Seq<char>,
    registry: Map<Seq<char>, GuardView>,
)
    requires
        forall|i: int| 0 <= i < decls.len() ==> !has_verb(#[trigger] decls[i]),
    ensures
        routes_among(decls, file, base, registry) == Ok::<Seq<RouteView>, DiscoveryErrorView>(
            Seq::empty(),
        ),
    decreases decls.len(),
{
    if decls.len() > 0 {
        assert forall|i: int| 0 <= i < decls.drop_last().len() implies !has_verb(
            #[trigger] decls.drop_last()[i],
        ) by {
            assert(decls.drop_last()[i] == decls[i]);
        }
        lemma_no_verbs_no_routes(decls.drop_last(), file, base, registry);
        assert(!has_verb(decls[decls.len() - 1]));
        lemma_no_verb_no_route(decls.last(), file, base, registry);
    }
}

/// Files whose declarations carry no verb annotation give no route: where
/// every file that discovery reads is well-formed and none of its
/// declarations carries a verb annotation, nothing is discovered.
pub proof fn lemma_no_verbs_nothing_discovered(
    files: Seq<SourceFileView>,
    base: Seq<char>,
    registry: Map<Seq<char>, GuardView>,
)
    requires
        forall|f: int|
            0 <= f < files.len() && is_visited(#[trigger] files[f].path) ==> declarations(
                files[f].content,
            ) is Ok,
        forall|f: int, i: int|
            0 <= f < files.len() && is_visited(#[trigger] files[f].path) && 0 <= i
                < declarations(files[f].content)->Ok_0.len() ==> !has_verb(
                #[trigger] declarations(files[f].content)->Ok_0[i],
            ),
    ensures
        discovered_routes(files, base, registry) == Ok::<Seq<RouteView>, DiscoveryErrorView>(
            Seq::empty(),
        ),
    decreases files.len(),
{
    if files.len() > 0 {
        let rest = files.drop_last();
        assert forall|f: int|
            0 <= f < rest.len() && is_visited(#[trigger] rest[f].path) implies declarations(
            rest[f].content,
        ) is Ok by {
            assert(rest[f] == files[f]);
        }
        assert forall|f: int, i: int|
            0 <= f < rest.len() && is_visited(#[trigger] rest[f].path) && 0 <= i < declarations(
                rest[f].content,
            )->Ok_0.len() implies !has_verb(#[trigger] declarations(rest[f].content)->Ok_0[i]) by {
            assert(rest[f] == files[f]);
        }
        lemma_no_verbs_nothing_discovered(rest, base, registry);
        let last = files[files.len() - 1];
        if is_visited(last.path) {
            let decls = declarations(last.content)->Ok_0;
            lemma_no_verbs_no_routes(decls, last.path, base, registry);
            assert(Seq::<RouteView>::empty() + Seq::<RouteView>::empty() =~= Seq::<
                RouteView,
            >::empty());
        }
    }
}

/// Index files are never read: the routes of `files` are the routes of
/// those among them that are no index files.
pub proof fn lemma_index_files_hold_no_routes(
    files: Seq<SourceFileView>,
    base: Seq<char>,
    registry: Map<Seq<char>, GuardView>,
)
    ensures
        discovered_routes(files, base, registry) == discovered_routes(
            without_index_files(files),
            base,
            registry,
        ),
    decreases files.len(),
{
    if files.len() > 0 {
        let rest = files.drop_last();
        lemma_index_files_hold_no_routes(rest, base, registry);
        if !is_index_file(files.last().path) {
            let kept = without_index_files(rest).push(files.last());
            assert(kept.drop_last() =~= without_index_files(rest));
            assert(kept.last() == files.last());
        }
    }
}

/// Whether a failure is a breach of the handlers' contract by the
/// declaration called `name`.
pub open spec fn blames(e: DiscoveryErrorView, name: Seq<char>) -> bool {
    match e {
        DiscoveryErrorView::Declaration { error, .. } => match error {
            DeclarationErrorView::Handler { declaration, .. } => declaration == name,
            DeclarationErrorView::RoutePath { declaration, .. } => declaration == name,
            _ => false,
        },
        _ => false,
    }
}

/// A declaration with a verb annotation that is not `pub`, or not `async`,
/// is rejected with a failure that names it.
pub proof fn lemma_unfit_handler_is_rejected(
    decl: FnDeclView,
    file: Seq<char>,
    base: Seq<char>,
    registry: Map<Seq<char>, GuardView>,
)
    requires
        has_verb(decl),
        !decl.is_public || !decl.is_async,
    ensures
        route_of(decl, file, base, registry) is Err,
        blames(route_of(decl, file, base, registry)->Err_0, decl.name),
{
    lemma_has_verb(decl);
}

/// One unfit handler among the declarations of a file fails the file.
pub proof fn lemma_unfit_handler_fails_file(
    decls: Seq<FnDeclView>,
    at: int,
    file: Seq<char>,
    base: Seq<char>,
    registry: Map<Seq<char>, GuardView>,
)
    requires
        0 <= at < decls.len(),
        has_verb(decls[at]),
        !decls[at].is_public || !decls[at].is_async,
    ensures
        routes_among(decls, file, base, registry) is Err,
    decreases decls.len(),
{
    if at == decls.len() - 1 {
        lemma_unfit_handler_is_rejected(decls.last(), file, base, registry);
    } else {
        assert(decls.drop_last()[at] == decls[at]);
        lemma_unfit_handler_fails_file(decls.drop_last(), at, file, base, registry);
    }
}

/// One unfit handler in a file that discovery reads fails the whole
/// discovery.
pub proof fn lemma_unfit_handler_fails_discovery(
    files: Seq<SourceFileView>,
    in_file: int,
    at: int,
    base: Seq<char>,
    registry: Map<Seq<char>, GuardView>,
)
    requires
        0 <= in_file < files.len(),
        is_visited(files[in_file].path),
        declarations(files[in_file].content) is Ok,
        0 <= at < declarations(files[in_file].content)->Ok_0.len(),
        has_verb(declarations(files[in_file].content)->Ok_0[at]),
        !declarations(files[in_file].content)->Ok_0[at].is_public || !declarations(
            files[in_file].content,
        )->Ok_0[at].is_async,
    ensures
        discovered_routes(files, base, registry) is Err,
    decreases files.len(),
{
    if in_file == files.len() - 1 {
        lemma_unfit_handler_fails_file(
            declarations(files.last().content)->Ok_0,
            at,
            files.last().path,
            base,
            registry,
        );
    } else {
        assert(files.drop_last()[in_file] == files[in_file]);
        lemma_unfit_handler_fails_discovery(files.drop_last(), in_file, at, base, registry);
    }
}

/// A name that no guard goes by is no failure: whether a declaration
/// declares a route, declares none or fails does not depend on the guards
/// that are registered. Where it declares a route, the route's guards are
/// what the registry holds for the listed names it knows, and the others
/// are its unresolved names.
pub proof fn lemma_unknown_guards_never_fail(
    decl: FnDeclView,
    file: Seq<char>,
    base: Seq<char>,
    registry: Map<Seq<char>, GuardView>,
    other: Map<Seq<char>, GuardView>,
)
    ensures
        route_of(decl, file, base, registry) is Ok <==> route_of(decl, file, base, other) is Ok,
        route_of(decl, file, base, registry) is Err ==> route_of(decl, file, base, registry)
            == route_of(decl, file, base, other),
        route_of(decl, file, base, registry) matches Ok(Some(route)) ==> route_references(
            decl.annotations,
        ) matches Ok(names) && route.guards == resolved(names, registry) && route.unresolved
            == unknown(names, registry),
{
}

/// The routes of a file do not fail for a name that no guard goes by:
/// whether they are collected or fail does not depend on the guards that
/// are registered, and neither does their number.
pub proof fn lemma_unknown_guards_never_fail_a_file(
    decls: Seq<FnDeclView>,
    file: Seq<char>,
    base: Seq<char>,
    registry: Map<Seq<char>, GuardView>,
    other: Map<Seq<char>, GuardView>,
)
    ensures
        routes_among(decls, file, base, registry) is Ok <==> routes_among(
            decls,
            file,
            base,
            other,
        ) is Ok,
        routes_among(decls, file, base, registry) is Err ==> routes_among(
            decls,
            file,
            base,
            registry,
        ) == routes_among(decls, file, base, other),
        routes_among(decls, file, base, registry) is Ok ==> routes_among(
            decls,
            file,
            base,
            registry,
        )->Ok_0.len() == routes_among(decls, file, base, other)->Ok_0.len(),
    decreases decls.len(),
{
    if decls.len() > 0 {
        lemma_unknown_guards_never_fail_a_file(decls.drop_last(), file, base, registry, other);
        lemma_unknown_guards_never_fail(decls.last(), file, base, registry, other);
    }
}

/// Discovery does not fail for a name that no guard goes by: whether the
/// routes are discovered or discovery fails, and with which failure, does
/// not depend on the guards that are registered.
pub proof fn lemma_unknown_guards_never_fail_discovery(
    files: Seq<SourceFileView>,
    base: Seq<char>,
    registry: Map<Seq<char>, GuardView>,
    other: Map<Seq<char>, GuardView>,
)
    ensures
        discovered_routes(files, base, registry) is Ok <==> discovered_routes(
            files,
            base,
            other,
        ) is Ok,
        discovered_routes(files, base, registry) is Err ==> discovered_routes(
            files,
            base,
            registry,
        ) == discovered_routes(files, base, other),
    decreases files.len(),
{
    if files.len() > 0 {
        lemma_unknown_guards_never_fail_discovery(files.drop_last(), base, registry, other);
        match declarations(files.last().content) {
            Ok(decls) => {
                lemma_unknown_guards_never_fail_a_file(
                    decls,
                    files.last().path,
                    base,
                    registry,
                    other,
                );
            },
            Err(_) => {},
        }
    }
}

} // verus!
