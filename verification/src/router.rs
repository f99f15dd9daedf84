//! The program text that registers the discovered routes.
//!
//! The text defines one function, `register_routes`, which builds the
//! routing table. Every route becomes one statement. In it the handler is
//! innermost; the guards that are functions are layered onto it in the order
//! in which the route lists them, so that a guard nearer the head of the list
//! sits nearer the handler; the guards that are layers are then wrapped
//! around the sub-router that holds the route, in the same order. Where a guard needs the
//! shared application state, the function takes the state as its argument
//! and hands each such guard a copy.

use vstd::prelude::*;
use crate::annotations::verb_name;
use crate::guards::{guard_views, Guard, GuardType, GuardView};
use crate::paths::SEPARATOR;
use crate::routes::{route_views, DiscoveredRoute, RouteView};
use crate::text::{chars_of, join, slice_of};

verus! {

/// How the function starts where no guard needs the state.
pub const HEADER: &'static str =
    "pub fn register_routes() -> azap::Router {\n    let mut router = azap::Router::new();\n";

/// How the function starts where a guard needs the state.
pub const HEADER_WITH_STATE: &'static str =
    "pub fn register_routes<S>(state: S) -> azap::Router\nwhere\n    S: Clone + Send + Sync + 'static,\n{\n    let mut router = azap::Router::new();\n";

/// How the function ends.
pub const FOOTER: &'static str = "    router\n}\n";

/// Whether one of `guards` needs the shared application state.
pub open spec fn any_stateful(guards: Seq<GuardView>) -> bool
    decreases guards.len(),
{
    guards.len() > 0 && (any_stateful(guards.drop_last()) || guards.last().guard_type
        == GuardType::FromFnWithState)
}

/// Whether a guard of one of `routes` needs the shared application state.
pub open spec fn needs_state(routes: Seq<RouteView>) -> bool
    decreases routes.len(),
{
    routes.len() > 0 && (needs_state(routes.drop_last()) || any_stateful(routes.last().guards))
}

/// The text that puts one guard in place. A layer is written with the same
/// call as a guard that is a plain function; what tells the two apart is
/// where the call stands: a function's on the handler, a layer's on the
/// sub-router that holds the route.
pub open spec fn guard_text(guard: GuardView) -> Seq<char> {
    match guard.guard_type {
        GuardType::FromFn => ".layer(azap::axum::middleware::from_fn("@ + join(
            guard.module,
            SEPARATOR@,
        ) + "))"@,
        GuardType::FromFnWithState =>
            ".layer(azap::axum::middleware::from_fn_with_state(state.clone(), "@ + join(
            guard.module,
            SEPARATOR@,
        ) + "))"@,
        GuardType::Layer => ".layer(azap::axum::middleware::from_fn("@ + join(
            guard.module,
            SEPARATOR@,
        ) + "))"@,
    }
}

/// The text that puts in place, in order, those of `guards` that are layers
/// (`wrapping`) or those that are functions (not `wrapping`).
pub open spec fn chain_text(guards: Seq<GuardView>, wrapping: bool) -> Seq<char>
    decreases guards.len(),
{
    if guards.len() == 0 {
        Seq::empty()
    } else if (guards.last().guard_type == GuardType::Layer) == wrapping {
        chain_text(guards.drop_last(), wrapping) + guard_text(guards.last())
    } else {
        chain_text(guards.drop_last(), wrapping)
    }
}

/// How one character is written inside a string literal.
pub open spec fn escape_of(c: char) -> Seq<char> {
    if c == '"' {
        "\\\""@
    } else if c == '\\' {
        "\\\\"@
    } else if c == '\n' {
        "\\n"@
    } else if c == '\r' {
        "\\r"@
    } else if c == '\t' {
        "\\t"@
    } else if c == '\0' {
        "\\0"@
    } else {
        seq![c]
    }
}

/// Whether a character is written inside a string literal as it is.
pub open spec fn is_plain(c: char) -> bool {
    c != '"' && c != '\\' && c != '\n' && c != '\r' && c != '\t' && c != '\0'
}

/// How `s` is written inside a string literal: quotes, backslashes, line
/// ends, tabs and null characters escaped, every other character as it is.
pub open spec fn escaped(s: Seq<char>) -> Seq<char>
    decreases s.len(),
{
    if s.len() == 0 {
        Seq::empty()
    } else {
        escaped(s.drop_last()) + escape_of(s.last())
    }
}

/// The statement that registers one route.
pub open spec fn route_text(route: RouteView) -> Seq<char> {
    "    router = router.merge(azap::Router::new().route(\""@ + escaped(route.path)
        + "\", azap::axum::routing::"@ + verb_name(route.method) + "("@ + join(
        route.module,
        SEPARATOR@,
    ) + ")"@ + chain_text(route.guards, false) + ")"@ + chain_text(route.guards, true) + ");\n"@
}

/// The statements that register `routes`, in order.
pub open spec fn routes_text(routes: Seq<RouteView>) -> Seq<char>
    decreases routes.len(),
{
    if routes.len() == 0 {
        Seq::empty()
    } else {
        routes_text(routes.drop_last()) + route_text(routes.last())
    }
}

/// The whole text that registers `routes`.
pub open spec fn rendered(routes: Seq<RouteView>) -> Seq<char> {
    (if needs_state(routes) {
        HEADER_WITH_STATE@
    } else {
        HEADER@
    }) + routes_text(routes) + FOOTER@
}

/// Whether one of `guards` needs the shared application state.
fn has_stateful_guard(guards: &Vec<Guard>) -> (r: bool)
    ensures
        r == any_stateful(guard_views(guards@)),
{
    let mut found = false;
    let mut i: usize = 0;
    proof {
        assert(guard_views(guards@).take(0) =~= Seq::<GuardView>::empty());
    }
    while i < guards.len()
        invariant
            i <= guards.len(),
            found == any_stateful(guard_views(guards@).take(i as int)),
        decreases guards.len() - i,
    {
        proof {
            assert(guard_views(guards@).take(i + 1).drop_last() =~= guard_views(guards@).take(
                i as int,
            ));
            assert(guard_views(guards@).take(i + 1).last() == guards@[i as int]@);
        }
        match guards[i].guard_type {
            GuardType::FromFnWithState => {
                found = true;
            },
            _ => {},
        }
        i = i + 1;
    }
    proof {
        assert(guard_views(guards@).take(guards.len() as int) =~= guard_views(guards@));
    }
    found
}

/// Whether the function that registers `routes` takes the shared
/// application state.
pub fn requires_state(routes: &[DiscoveredRoute]) -> (r: bool)
    ensures
        r == needs_state(route_views(routes@)),
{
    let mut found = false;
    let mut i: usize = 0;
    proof {
        assert(route_views(routes@).take(0) =~= Seq::<RouteView>::empty());
    }
    while i < routes.len()
        invariant
            i <= routes@.len(),
            found == needs_state(route_views(routes@).take(i as int)),
        decreases routes@.len() - i,
    {
        proof {
            assert(route_views(routes@).take(i + 1).drop_last() =~= route_views(routes@).take(
                i as int,
            ));
            assert(route_views(routes@).take(i + 1).last() == routes@[i as int]@);
        }
        if has_stateful_guard(&routes[i].guards) {
            found = true;
        }
        i = i + 1;
    }
    proof {
        assert(route_views(routes@).take(routes@.len() as int) =~= route_views(routes@));
    }
    found
}

/// Writes the text that puts `guard` in place.
fn write_guard(guard: &Guard) -> (r: String)
    ensures
        r@ == guard_text(guard@),
{
    let path = guard.module.to_string();
    match guard.guard_type {
        GuardType::FromFn => {
            let mut out = ".layer(azap::axum::middleware::from_fn(".to_owned();
            out.append(path.as_str());
            out.append("))");
            out
        },
        GuardType::FromFnWithState => {
            let mut out =
                ".layer(azap::axum::middleware::from_fn_with_state(state.clone(), ".to_owned();
            out.append(path.as_str());
            out.append("))");
            out
        },
        GuardType::Layer => {
            let mut out = ".layer(azap::axum::middleware::from_fn(".to_owned();
            out.append(path.as_str());
            out.append("))");
            out
        },
    }
}

/// Writes the text that puts in place those of `guards` that are layers
/// (`wrapping`) or those that are functions (not `wrapping`).
fn write_chain(guards: &Vec<Guard>, wrapping: bool) -> (r: String)
    ensures
        r@ == chain_text(guard_views(guards@), wrapping),
{
    let mut out = String::new();
    let mut i: usize = 0;
    proof {
        assert(guard_views(guards@).take(0) =~= Seq::<GuardView>::empty());
    }
    while i < guards.len()
        invariant
            i <= guards.len(),
            out@ == chain_text(guard_views(guards@).take(i as int), wrapping),
        decreases guards.len() - i,
    {
        proof {
            assert(guard_views(guards@).take(i + 1).drop_last() =~= guard_views(guards@).take(
                i as int,
            ));
            assert(guard_views(guards@).take(i + 1).last() == guards@[i as int]@);
        }
        let is_layer = match guards[i].guard_type {
            GuardType::Layer => true,
            _ => false,
        };
        if is_layer == wrapping {
            let piece = write_guard(&guards[i]);
            out.append(piece.as_str());
        }
        i = i + 1;
    }
    proof {
        assert(guard_views(guards@).take(guards.len() as int) =~= guard_views(guards@));
    }
    out
}

/// A stretch of plain characters is written as it is.
pub proof fn lemma_escaped_plain(s: Seq<char>, from: int, to: int)
    requires
        0 <= from <= to <= s.len(),
        forall|j: int| from <= j < to ==> is_plain(#[trigger] s[j]),
    ensures
        escaped(s.take(to)) == escaped(s.take(from)) + s.subrange(from, to),
    decreases to - from,
{
    if from == to {
        assert(s.subrange(from, to) =~= Seq::<char>::empty());
        assert(escaped(s.take(from)) + Seq::<char>::empty() =~= escaped(s.take(from)));
    } else {
        lemma_escaped_plain(s, from, to - 1);
        assert(s.take(to).drop_last() =~= s.take(to - 1));
        assert(s.take(to).last() == s[to - 1]);
        assert(is_plain(s[to - 1]));
        assert(escaped(s.take(from)) + s.subrange(from, to - 1) + seq![s[to - 1]] =~= escaped(
            s.take(from),
        ) + s.subrange(from, to));
    }
}

/// How a character that is not plain is written inside a string literal.
fn escape_for(c: char) -> (r: &'static str)
    requires
        !is_plain(c),
    ensures
        r@ == escape_of(c),
{
    if c == '"' {
        "\\\""
    } else if c == '\\' {
        "\\\\"
    } else if c == '\n' {
        "\\n"
    } else if c == '\r' {
        "\\r"
    } else if c == '\t' {
        "\\t"
    } else {
        "\\0"
    }
}

/// Writes `text` as it stands inside a string literal.
pub fn write_escaped(text: &str) -> (r: String)
    ensures
        r@ == escaped(text@),
{
    let chars = chars_of(text);
    let n = chars.len();
    let mut out = String::new();
    let mut start: usize = 0;
    let mut i: usize = 0;
    proof {
        assert(chars@.take(0) =~= Seq::<char>::empty());
    }
    while i < n
        invariant
            chars@ == text@,
            n == chars.len(),
            start <= i <= n,
            out@ == escaped(chars@.take(start as int)),
            forall|j: int| start <= j < i ==> is_plain(#[trigger] chars@[j]),
        decreases n - i,
    {
        let c = chars[i];
        if c == '"' || c == '\\' || c == '\n' || c == '\r' || c == '\t' || c == '\0' {
            let run = slice_of(text, start, i);
            proof {
                lemma_escaped_plain(chars@, start as int, i as int);
                assert(chars@.take(i + 1).drop_last() =~= chars@.take(i as int));
                assert(chars@.take(i + 1).last() == c);
            }
            out.append(run.as_str());
            out.append(escape_for(c));
            start = i + 1;
        }
        i = i + 1;
    }
    let run = slice_of(text, start, n);
    proof {
        lemma_escaped_plain(chars@, start as int, n as int);
        assert(chars@.take(n as int) =~= chars@);
    }
    out.append(run.as_str());
    out
}

/// Writes the statement that registers `route`.
pub fn write_route(route: &DiscoveredRoute) -> (r: String)
    ensures
        r@ == route_text(route@),
{
    let path = write_escaped(route.path.as_str());
    let handler = route.module.to_string();
    let inline = write_chain(&route.guards, false);
    let wrapped = write_chain(&route.guards, true);
    let mut out = "    router = router.merge(azap::Router::new().route(\"".to_owned();
    out.append(path.as_str());
    out.append("\", azap::axum::routing::");
    out.append(route.method.as_str());
    out.append("(");
    out.append(handler.as_str());
    out.append(")");
    out.append(inline.as_str());
    out.append(")");
    out.append(wrapped.as_str());
    out.append(");\n");
    out
}

/// Writes the program text that registers `routes`, in the order in which
/// they are given.
pub fn generate_router(routes: &[DiscoveredRoute]) -> (r: String)
    ensures
        r@ == rendered(route_views(routes@)),
{
    let mut body = String::new();
    let mut i: usize = 0;
    proof {
        assert(route_views(routes@).take(0) =~= Seq::<RouteView>::empty());
    }
    while i < routes.len()
        invariant
            i <= routes@.len(),
            body@ == routes_text(route_views(routes@).take(i as int)),
        decreases routes@.len() - i,
    {
        proof {
            assert(route_views(routes@).take(i + 1).drop_last() =~= route_views(routes@).take(
                i as int,
            ));
            assert(route_views(routes@).take(i + 1).last() == routes@[i as int]@);
        }
        let statement = write_route(&routes[i]);
        body.append(statement.as_str());
        i = i + 1;
    }
    proof {
        assert(route_views(routes@).take(routes@.len() as int) =~= route_views(routes@));
    }
    let mut out = if requires_state(routes) {
        HEADER_WITH_STATE.to_owned()
    } else {
        HEADER.to_owned()
    };
    out.append(body.as_str());
    out.append(FOOTER);
    out
}

/// Generation is a function of the routes alone: the same routes, in the
/// same order, give the same text, character for character.
pub proof fn lemma_rendering_is_deterministic(first: Seq<RouteView>, second: Seq<RouteView>)
    requires
        first == second,
    ensures
        rendered(first) == rendered(second),
{
}

/// The statements come in the order of the routes: what registers `routes`
/// followed by `route` is what registers `routes`, followed by the statement
/// for `route`.
pub proof fn lemma_routes_text_push(routes: Seq<RouteView>, route: RouteView)
    ensures
        routes_text(routes.push(route)) == routes_text(routes) + route_text(route),
{
    assert(routes.push(route).drop_last() =~= routes);
}

} // verus!
