//! What the attribute macros decide before they emit anything: whether the
//! annotated function may stand as a handler or a guard, and under which
//! name a route records itself.

use vstd::prelude::*;
use crate::annotations::{parse_role_assignment, role_assignment, verb_name, HttpMethod};
use crate::errors::{DeclarationError, DeclarationErrorView, Fault};
use crate::guards::GuardType;
use crate::routes::{check_handler, handler_contract};
use crate::syntax::{Annotation, AnnotationView, FnDecl, FnDeclView};

verus! {

/// How the name of a route's record starts.
pub const RECORD_PREFIX: &'static str = "__AZAP_ROUTE_";

/// `s` in upper case, as `str::to_uppercase` gives it.
pub uninterp spec fn uppercase(s: Seq<char>) -> Seq<char>;

/// Calls `str::to_uppercase`. Claimed: the result is a function of the
/// characters of `s` alone.
#[verifier::external_body]
fn to_uppercase(s: &str) -> (r: String)
    ensures
        r@ == uppercase(s@),
{
    s.to_uppercase()
}

/// The name made of a verb and a handler's name, both in upper case
/// already.
pub open spec fn composed_name(verb: Seq<char>, handler: Seq<char>) -> Seq<char> {
    RECORD_PREFIX@ + verb + "_"@ + handler
}

/// The name under which the route of `handler` for `method` records itself.
pub open spec fn record_name(method: HttpMethod, handler: Seq<char>) -> Seq<char> {
    composed_name(uppercase(verb_name(method)), uppercase(handler))
}

/// Writes the name made of `verb` and `handler`, both in upper case
/// already.
pub fn compose_name(verb: &str, handler: &str) -> (r: String)
    ensures
        r@ == composed_name(verb@, handler@),
{
    let mut name = RECORD_PREFIX.to_owned();
    name.append(verb);
    name.append("_");
    name.append(handler);
    name
}

/// What a verb annotation expands to, beside the function itself: a record
/// of the route.
#[derive(Debug, PartialEq, Eq)]
pub struct RouteRecord {
    /// The name of the constant that holds the record.
    pub name: String,
    /// The verb, as the annotation writes it.
    pub method: String,
    /// The path that the annotation binds the handler to.
    pub path: String,
    /// The handler's name.
    pub handler_name: String,
}

/// A record, as contracts speak of it.
pub struct RouteRecordView {
    pub name: Seq<char>,
    pub method: Seq<char>,
    pub path: Seq<char>,
    pub handler_name: Seq<char>,
}

impl View for RouteRecord {
    type V = RouteRecordView;

    open spec fn view(&self) -> RouteRecordView {
        RouteRecordView {
            name: self.name@,
            method: self.method@,
            path: self.path@,
            handler_name: self.handler_name@,
        }
    }
}

/// The record that the verb annotation for `method` with the arguments
/// `attr` leaves beside the function `input`, or the failure of the
/// handlers' contract that it reports instead.
pub open spec fn route_expansion(method: HttpMethod, attr: Seq<char>, input: FnDeclView) -> Result<
    RouteRecordView,
    DeclarationErrorView,
> {
    let annotation = AnnotationView { name: Some(verb_name(method)), tokens: Some(attr) };
    match handler_contract(input, method, annotation) {
        Err(e) => Err(e),
        Ok(path) => Ok(
            RouteRecordView {
                name: record_name(method, input.name),
                method: verb_name(method),
                path,
                handler_name: input.name,
            },
        ),
    }
}

/// Decides what the verb annotation for `method`, written with the
/// arguments `attr` above the function `input`, expands to.
pub fn route_macro(method: HttpMethod, attr: &str, input: &FnDecl) -> (r: Result<
    RouteRecord,
    DeclarationError,
>)
    ensures
        match r {
            Ok(record) => route_expansion(method, attr@, input@) == Ok::<
                RouteRecordView,
                DeclarationErrorView,
            >(record@),
            Err(e) => route_expansion(method, attr@, input@) == Err::<
                RouteRecordView,
                DeclarationErrorView,
            >(e@),
        },
{
    let annotation = Annotation {
        name: Some(method.as_str().to_owned()),
        tokens: Some(attr.to_owned()),
    };
    match check_handler(input, method, &annotation) {
        Err(e) => Err(e),
        Ok(path) => {
            let verb = to_uppercase(method.as_str());
            let handler = to_uppercase(input.name.as_str());
            Ok(
                RouteRecord {
                    name: compose_name(verb.as_str(), handler.as_str()),
                    method: method.as_str().to_owned(),
                    path,
                    handler_name: input.name.clone(),
                },
            )
        },
    }
}

/// The role that a role annotation with the arguments `attr` gives the
/// function `item`, or what it reports instead: arguments that assign no
/// role, then a function that is not `async`, then one that is not `pub`.
pub open spec fn guard_expansion(attr: Seq<char>, item: FnDeclView) -> Result<
    GuardType,
    DeclarationErrorView,
> {
    match role_assignment(attr) {
        Err(reason) => Err(DeclarationErrorView::GuardRole { declaration: item.name, reason }),
        Ok(role) => if !item.is_async {
            Err(
                DeclarationErrorView::Guard {
                    declaration: item.name,
                    role,
                    fault: Fault::NotAsync,
                },
            )
        } else if !item.is_public {
            Err(
                DeclarationErrorView::Guard {
                    declaration: item.name,
                    role,
                    fault: Fault::NotPublic,
                },
            )
        } else {
            Ok(role)
        },
    }
}

/// Decides whether the function `item` may stand as a guard under a role
/// annotation written with the arguments `attr`, and in which role.
pub fn register_guard_macro(attr: &str, item: &FnDecl) -> (r: Result<GuardType, DeclarationError>)
    ensures
        match r {
            Ok(role) => guard_expansion(attr@, item@) == Ok::<GuardType, DeclarationErrorView>(role),
            Err(e) => guard_expansion(attr@, item@) == Err::<GuardType, DeclarationErrorView>(e@),
        },
{
    match parse_role_assignment(attr) {
        Err(reason) => Err(
            DeclarationError::GuardRole { declaration: item.name.clone(), reason },
        ),
        Ok(role) => {
            if !item.is_async {
                Err(
                    DeclarationError::Guard {
                        declaration: item.name.clone(),
                        role,
                        fault: Fault::NotAsync,
                    },
                )
            } else if !item.is_public {
                Err(
                    DeclarationError::Guard {
                        declaration: item.name.clone(),
                        role,
                        fault: Fault::NotPublic,
                    },
                )
            } else {
                Ok(role)
            }
        },
    }
}

} // verus!
