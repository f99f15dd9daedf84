//! Guards: their roles, their declarations, and the registry that routes
//! look them up in.

use vstd::prelude::*;
use crate::annotations::{
    find_annotation, guard_references, is_called, is_identifier, lemma_bare_names_are_read,
    parse_role_assignment, referenced_guards, references_view,
    role_assignment, ROLE_ANNOTATION,
};
use crate::errors::{
    DeclarationError, DeclarationErrorView, DiscoveryError, DiscoveryErrorView, RoleError,
    RoleErrorView,
};
use crate::paths::{
    is_index_file, is_under, is_visited, module_segments, relative, should_visit, ModulePath,
    GUARD_BASE_DIR,
};
use crate::sources::{
    file_views, listing_view, without_index_files, SourceFile, SourceFileView,
};
use crate::syntax::{
    annotation_views, decl_views, declarations, parse_declarations, Annotation, AnnotationView,
    FnDecl, FnDeclView,
};
use crate::text::{first_where, join, same_text, texts};

verus! {

/// The role a guard plays when it is composed around a handler.
#[derive(Debug, Clone, Copy, PartialEq, Eq, Structural)]
pub enum GuardType {
    /// A stateless filter function.
    FromFn,
    /// A filter function that also receives the shared application state.
    FromFnWithState,
    /// A middleware that wraps a whole sub-tree of routes.
    Layer,
}

/// The tag by which a role is written in a role annotation.
pub open spec fn role_tag(role: GuardType) -> Seq<char> {
    match role {
        GuardType::FromFn => "fn"@,
        GuardType::FromFnWithState => "fn_with_state"@,
        GuardType::Layer => "layer"@,
    }
}

/// The role that a tag stands for, where it stands for one.
pub open spec fn role_of_tag(tag: Seq<char>) -> Option<GuardType> {
    if tag == "fn"@ {
        Some(GuardType::FromFn)
    } else if tag == "fn_with_state"@ {
        Some(GuardType::FromFnWithState)
    } else if tag == "layer"@ {
        Some(GuardType::Layer)
    } else {
        None
    }
}

/// The three tags differ, so a role is found again from its tag.
pub proof fn lemma_role_tag_round_trip(role: GuardType)
    ensures
        role_of_tag(role_tag(role)) == Some(role),
{
    reveal_strlit("fn");
    reveal_strlit("fn_with_state");
    reveal_strlit("layer");
    assert("fn"@.len() == 2);
    assert("fn_with_state"@.len() == 13);
    assert("layer"@.len() == 5);
}

impl GuardType {
    /// The tag of this role.
    pub fn as_str(&self) -> (r: &'static str)
        ensures
            r@ == role_tag(*self),
    {
        match self {
            GuardType::FromFn => "fn",
            GuardType::FromFnWithState => "fn_with_state",
            GuardType::Layer => "layer",
        }
    }

    /// The tag of this role, owned.
    pub fn to_string(&self) -> (r: String)
        ensures
            r@ == role_tag(*self),
    {
        self.as_str().to_owned()
    }

    /// The role that `s` is the tag of.
    pub fn from_str(s: &str) -> (r: Result<GuardType, ()>)
        ensures
            match r {
                Ok(role) => role_of_tag(s@) == Some(role),
                Err(_) => role_of_tag(s@) is None,
            },
    {
        if same_text(s, "fn") {
            Ok(GuardType::FromFn)
        } else if same_text(s, "fn_with_state") {
            Ok(GuardType::FromFnWithState)
        } else if same_text(s, "layer") {
            Ok(GuardType::Layer)
        } else {
            Err(())
        }
    }

    /// The role that `s` is the tag of; any other text is reported as an
    /// unknown role.
    pub fn parse(s: &str) -> (r: Result<GuardType, RoleError>)
        ensures
            match r {
                Ok(role) => role_of_tag(s@) == Some(role),
                Err(e) => role_of_tag(s@) is None && e@ == (RoleErrorView::Unknown { value: s@ }),
            },
    {
        match GuardType::from_str(s) {
            Ok(role) => Ok(role),
            Err(_) => Err(RoleError::Unknown { value: s.to_owned() }),
        }
    }
}


/// The role that the annotations of a declaration give it: what the first
/// role annotation among them assigns.
pub open spec fn declared_role(annotations: Seq<AnnotationView>) -> Result<
    GuardType,
    RoleErrorView,
> {
    let i = first_where(annotations, is_called(ROLE_ANNOTATION@));
    if i >= annotations.len() {
        Err(RoleErrorView::Missing)
    } else {
        match annotations[i].tokens {
            Some(tokens) => role_assignment(tokens),
            None => Err(RoleErrorView::Malformed),
        }
    }
}

impl GuardType {
    /// The role that the first role annotation among `attrs` assigns. It is
    /// an error for `attrs` to hold no role annotation.
    pub fn parse_from_attrs(attrs: &[Annotation]) -> (r: Result<GuardType, RoleError>)
        ensures
            match r {
                Ok(role) => declared_role(annotation_views(attrs@)) == Ok::<
                    GuardType,
                    RoleErrorView,
                >(role),
                Err(e) => declared_role(annotation_views(attrs@)) == Err::<
                    GuardType,
                    RoleErrorView,
                >(e@),
            },
    {
        match find_annotation(attrs, ROLE_ANNOTATION) {
            None => Err(RoleError::Missing),
            Some(i) => {
                proof {
                    assert(annotation_views(attrs@)[i as int] == attrs@[i as int]@);
                }
                match &attrs[i].tokens {
                    Some(tokens) => parse_role_assignment(tokens.as_str()),
                    None => Err(RoleError::Malformed),
                }
            },
        }
    }
}

/// A guard declaration that routes can refer to by name.
#[derive(Debug, PartialEq, Eq)]
pub struct Guard {
    pub name: String,
    pub module: ModulePath,
    pub guard_type: GuardType,
}

/// A guard, as contracts speak of it.
pub struct GuardView {
    pub name: Seq<char>,
    pub module: Seq<Seq<char>>,
    pub guard_type: GuardType,
}

impl View for Guard {
    type V = GuardView;

    open spec fn view(&self) -> GuardView {
        GuardView { name: self.name@, module: self.module@, guard_type: self.guard_type }
    }
}

impl Clone for Guard {
    fn clone(&self) -> (r: Self)
        ensures
            r@ == self@,
    {
        Guard {
            name: self.name.clone(),
            module: self.module.clone(),
            guard_type: self.guard_type,
        }
    }
}

/// Copies of `guards`, in order.
pub fn clone_guards(guards: &Vec<Guard>) -> (r: Vec<Guard>)
    ensures
        r@.len() == guards@.len(),
        forall|i: int| 0 <= i < guards@.len() ==> (#[trigger] r@[i])@ == guards@[i]@,
        guard_views(r@) == guard_views(guards@),
{
    let mut out: Vec<Guard> = Vec::new();
    let mut i: usize = 0;
    while i < guards.len()
        invariant
            i <= guards.len(),
            out.len() == i,
            forall|j: int| 0 <= j < i ==> (#[trigger] out@[j])@ == guards@[j]@,
        decreases guards.len() - i,
    {
        out.push(guards[i].clone());
        i = i + 1;
    }
    proof {
        assert(guard_views(out@) =~= guard_views(guards@));
    }
    out
}

/// The views of a sequence of guards.
pub open spec fn guard_views(v: Seq<Guard>) -> Seq<GuardView> {
    v.map_values(|g: Guard| g@)
}

/// The guard that a declaration in the file `file` under the guards
/// directory `root` declares. The role is read first, the module path
/// second, and the first of the two that fails is reported; a failure of
/// the role is reported with the file.
pub open spec fn guard_of(decl: FnDeclView, file: Seq<char>, root: Seq<char>) -> Result<
    GuardView,
    DiscoveryErrorView,
> {
    match declared_role(decl.annotations) {
        Err(reason) => Err(
            DiscoveryErrorView::Declaration {
                file,
                error: DeclarationErrorView::GuardRole { declaration: decl.name, reason },
            },
        ),
        Ok(role) => if is_under(file, root) {
            Ok(
                GuardView {
                    name: decl.name,
                    module: module_segments(GUARD_BASE_DIR@, relative(file, root), decl.name),
                    guard_type: role,
                },
            )
        } else {
            Err(DiscoveryErrorView::PathOutsideRoot { path: file })
        },
    }
}

/// Those of `names` that `registry` knows, each replaced by the guard it
/// stands for, in order. A name that `registry` does not know is left out.
pub open spec fn resolved(names: Seq<Seq<char>>, registry: Map<Seq<char>, GuardView>) -> Seq<
    GuardView,
>
    decreases names.len(),
{
    if names.len() == 0 {
        Seq::empty()
    } else if registry.contains_key(names.last()) {
        resolved(names.drop_last(), registry).push(registry[names.last()])
    } else {
        resolved(names.drop_last(), registry)
    }
}

/// Those of `names` that `registry` knows, in order.
pub open spec fn known(names: Seq<Seq<char>>, registry: Map<Seq<char>, GuardView>) -> Seq<
    Seq<char>,
>
    decreases names.len(),
{
    if names.len() == 0 {
        Seq::empty()
    } else if registry.contains_key(names.last()) {
        known(names.drop_last(), registry).push(names.last())
    } else {
        known(names.drop_last(), registry)
    }
}

/// A name that the registry does not know is left out and nothing else
/// is: the guards that `names` resolve to are, one for one and in order,
/// what the registry holds for the names it knows.
pub proof fn lemma_unknown_names_are_left_out(
    names: Seq<Seq<char>>,
    registry: Map<Seq<char>, GuardView>,
)
    ensures
        resolved(names, registry).len() == known(names, registry).len(),
        forall|i: int|
            0 <= i < known(names, registry).len() ==> registry.contains_key(
                #[trigger] known(names, registry)[i],
            ) && resolved(names, registry)[i] == registry[known(names, registry)[i]],
    decreases names.len(),
{
    if names.len() > 0 {
        lemma_unknown_names_are_left_out(names.drop_last(), registry);
    }
}

/// Every name is either known or unknown: the names that the registry
/// knows and those it does not know are as many as the names, so the guards
/// that names resolve to are never more than the names.
pub proof fn lemma_known_and_unknown_share_the_names(
    names: Seq<Seq<char>>,
    registry: Map<Seq<char>, GuardView>,
)
    ensures
        known(names, registry).len() + unknown(names, registry).len() == names.len(),
        resolved(names, registry).len() <= names.len(),
    decreases names.len(),
{
    if names.len() > 0 {
        lemma_known_and_unknown_share_the_names(names.drop_last(), registry);
    }
    lemma_unknown_names_are_left_out(names, registry);
}

/// An annotation that lists bare names, joined by commas, resolves to what
/// the registry holds for those of the names it knows, in order, and does
/// not fail, whatever the registry knows.
pub proof fn lemma_listed_guards_are_resolved(
    a: AnnotationView,
    names: Seq<Seq<char>>,
    registry: Map<Seq<char>, GuardView>,
)
    requires
        forall|i: int|
            0 <= i < names.len() ==> is_identifier(#[trigger] names[i]),
        a.tokens == Some(join(names, seq![','])),
    ensures
        annotation_guards(a, registry) == Ok::<Seq<GuardView>, Seq<char>>(
            resolved(names, registry),
        ),
{
    lemma_bare_names_are_read(names);
}

/// A reference to a name that the registry does not know changes nothing.
pub proof fn lemma_unknown_name_changes_nothing(
    names: Seq<Seq<char>>,
    name: Seq<char>,
    registry: Map<Seq<char>, GuardView>,
)
    requires
        !registry.contains_key(name),
    ensures
        resolved(names.push(name), registry) == resolved(names, registry),
{
    assert(names.push(name).drop_last() =~= names);
}

/// Those of `names` that `registry` does not know, in order.
pub open spec fn unknown(names: Seq<Seq<char>>, registry: Map<Seq<char>, GuardView>) -> Seq<
    Seq<char>,
>
    decreases names.len(),
{
    if names.len() == 0 {
        Seq::empty()
    } else if registry.contains_key(names.last()) {
        unknown(names.drop_last(), registry)
    } else {
        unknown(names.drop_last(), registry).push(names.last())
    }
}

/// The names that a guard-reference annotation refers to, in the order in
/// which it lists them; an annotation without an argument list refers to
/// none. Where an entry of the list refers to no guard, the first such
/// entry.
pub open spec fn annotation_references(a: AnnotationView) -> Result<Seq<Seq<char>>, Seq<char>> {
    match a.tokens {
        Some(tokens) => referenced_guards(tokens),
        None => Ok(Seq::empty()),
    }
}

/// The guards that a guard-reference annotation refers to and `registry`
/// knows, in the order in which the annotation lists them.
pub open spec fn annotation_guards(
    a: AnnotationView,
    registry: Map<Seq<char>, GuardView>,
) -> Result<Seq<GuardView>, Seq<char>> {
    match annotation_references(a) {
        Ok(names) => Ok(resolved(names, registry)),
        Err(entry) => Err(entry),
    }
}

/// The view of the guards that an annotation was resolved to.
pub open spec fn resolution_view(r: Result<Vec<Guard>, String>) -> Result<
    Seq<GuardView>,
    Seq<char>,
> {
    match r {
        Ok(guards) => Ok(guard_views(guards@)),
        Err(entry) => Err(entry@),
    }
}

impl Guard {
    /// The guard that `decl`, found in the file at `file` under the guards
    /// directory `root`, declares.
    pub fn from_declaration(decl: &FnDecl, file: &str, root: &str) -> (r: Result<
        Guard,
        DiscoveryError,
    >)
        ensures
            match r {
                Ok(guard) => guard_of(decl@, file@, root@) == Ok::<GuardView, DiscoveryErrorView>(
                    guard@,
                ),
                Err(e) => guard_of(decl@, file@, root@) == Err::<GuardView, DiscoveryErrorView>(
                    e@,
                ),
            },
    {
        match GuardType::parse_from_attrs(decl.annotations.as_slice()) {
            Err(reason) => Err(
                DiscoveryError::Declaration {
                    file: file.to_owned(),
                    error: DeclarationError::GuardRole { declaration: decl.name.clone(), reason },
                },
            ),
            Ok(guard_type) => {
                match ModulePath::construct(file, root, decl.name.as_str()) {
                    Err(e) => Err(e),
                    Ok(module) => Ok(Guard { name: decl.name.clone(), module, guard_type }),
                }
            },
        }
    }

    /// The names that the guard-reference annotation `attr` refers to, in
    /// the order in which it lists them. Where an entry of the list is
    /// neither a name nor a name with parameters, the first such entry is
    /// handed back as the error.
    pub fn references_in_attr(attr: &Annotation) -> (r: Result<Vec<String>, String>)
        ensures
            references_view(r) == annotation_references(attr@),
    {
        match &attr.tokens {
            None => {
                let none: Vec<String> = Vec::new();
                proof {
                    assert(texts(none@) =~= Seq::<Seq<char>>::empty());
                }
                Ok(none)
            },
            Some(tokens) => guard_references(tokens.as_str()),
        }
    }

    /// The guards that the guard-reference annotation `attr` refers to, as
    /// `guard_store` knows them, in the order in which `attr` lists them.
    /// A name that `guard_store` does not know is left out. Where an entry
    /// of the list is neither a name nor a name with parameters, the first
    /// such entry is handed back as the error.
    pub fn extract_from_attr(attr: &Annotation, guard_store: &GuardStore) -> (r: Result<
        Vec<Guard>,
        String,
    >)
        ensures
            resolution_view(r) == annotation_guards(attr@, guard_store@),
    {
        match Guard::references_in_attr(attr) {
            Err(entry) => Err(entry),
            Ok(names) => {
                let (guards, _) = guard_store.resolve(&names);
                Ok(guards)
            },
        }
    }
}

/// Whether one of `entries` goes by `name`.
pub open spec fn holds(entries: Seq<Guard>, name: Seq<char>) -> bool {
    exists|i: int| 0 <= i < entries.len() && #[trigger] entries[i].name@ == name
}

/// The place of an entry that goes by `name`.
pub open spec fn place_of(entries: Seq<Guard>, name: Seq<char>) -> int {
    choose|i: int| 0 <= i < entries.len() && #[trigger] entries[i].name@ == name
}

/// No two of `entries` go by one name.
pub open spec fn distinct_names(entries: Seq<Guard>) -> bool {
    forall|i: int, j: int|
        0 <= i < entries.len() && 0 <= j < entries.len() && #[trigger] entries[i].name@
            == #[trigger] entries[j].name@ ==> i == j
}

/// The mapping from names to guards that `entries` stand for.
pub open spec fn registry_of(entries: Seq<Guard>) -> Map<Seq<char>, GuardView> {
    Map::new(
        |name: Seq<char>| holds(entries, name),
        |name: Seq<char>| entries[place_of(entries, name)]@,
    )
}

/// The guards found so far, by name. A name stands for one guard: a guard
/// that is registered under a name already taken replaces the earlier one.
#[derive(Debug)]
pub struct GuardStore {
    entries: Vec<Guard>,
}

impl View for GuardStore {
    type V = Map<Seq<char>, GuardView>;

    closed spec fn view(&self) -> Map<Seq<char>, GuardView> {
        registry_of(self.entries@)
    }
}

impl GuardStore {
    #[verifier::type_invariant]
    spec fn well_formed(&self) -> bool {
        distinct_names(self.entries@)
    }

    /// A registry without guards.
    pub fn new() -> (r: GuardStore)
        ensures
            r@ == Map::<Seq<char>, GuardView>::empty(),
    {
        let r = GuardStore { entries: Vec::new() };
        proof {
            assert(r@ =~= Map::<Seq<char>, GuardView>::empty());
        }
        r
    }

    /// The place of the entry that goes by `name`.
    fn position(&self, name: &str) -> (r: Option<usize>)
        ensures
            match r {
                Some(i) => i < self.entries@.len() && self.entries@[i as int].name@ == name@,
                None => !holds(self.entries@, name@),
            },
    {
        let mut i: usize = 0;
        while i < self.entries.len()
            invariant
                i <= self.entries@.len(),
                forall|j: int| 0 <= j < i ==> self.entries@[j].name@ != name@,
            decreases self.entries@.len() - i,
        {
            if same_text(self.entries[i].name.as_str(), name) {
                return Some(i);
            }
            i = i + 1;
        }
        None
    }

    /// Whether a guard is registered under `guard`.
    pub fn contains(&self, guard: &str) -> (r: bool)
        ensures
            r == self@.contains_key(guard@),
    {
        match self.position(guard) {
            Some(i) => true,
            None => false,
        }
    }

    /// The guard registered under `guard`.
    pub fn get(&self, guard: &str) -> (r: Option<&Guard>)
        ensures
            match r {
                Some(found) => self@.contains_key(guard@) && self@[guard@] == found@,
                None => !self@.contains_key(guard@),
            },
    {
        proof {
            use_type_invariant(self);
        }
        match self.position(guard) {
            Some(i) => Some(&self.entries[i]),
            None => None,
        }
    }

    /// Looks `names` up, in order: the guards that stand for the names
    /// this registry knows, and the names it does not know.
    pub fn resolve(&self, names: &Vec<String>) -> (r: (Vec<Guard>, Vec<String>))
        ensures
            guard_views(r.0@) == resolved(texts(names@), self@),
            texts(r.1@) == unknown(texts(names@), self@),
    {
        let mut guards: Vec<Guard> = Vec::new();
        let mut missing: Vec<String> = Vec::new();
        let mut i: usize = 0;
        proof {
            assert(guard_views(guards@) =~= Seq::<GuardView>::empty());
            assert(texts(missing@) =~= Seq::<Seq<char>>::empty());
            assert(texts(names@).take(0) =~= Seq::<Seq<char>>::empty());
        }
        while i < names.len()
            invariant
                i <= names.len(),
                guard_views(guards@) == resolved(texts(names@).take(i as int), self@),
                texts(missing@) == unknown(texts(names@).take(i as int), self@),
            decreases names.len() - i,
        {
            proof {
                assert(texts(names@).take(i + 1).drop_last() =~= texts(names@).take(i as int));
                assert(texts(names@).take(i + 1).last() == names@[i as int]@);
            }
            match self.get(names[i].as_str()) {
                Some(guard) => {
                    let found = guard.clone();
                    proof {
                        assert(guard_views(guards@.push(found)) =~= guard_views(guards@).push(
                            found@,
                        ));
                    }
                    guards.push(found);
                },
                None => {
                    let name = names[i].clone();
                    proof {
                        assert(texts(missing@.push(name)) =~= texts(missing@).push(name@));
                    }
                    missing.push(name);
                },
            }
            i = i + 1;
        }
        proof {
            assert(texts(names@).take(names.len() as int) =~= texts(names@));
        }
        (guards, missing)
    }

    /// How many guards are registered.
    pub fn len(&self) -> (r: usize)
        ensures
            r == self@.dom().len(),
            self@.dom().finite(),
    {
        proof {
            use_type_invariant(self);
            lemma_registry_size(self.entries@);
        }
        self.entries.len()
    }

    /// Registers `guard` under its name, in place of any guard registered
    /// under that name before.
    pub fn insert(&mut self, guard: Guard)
        ensures
            final(self)@ == old(self)@.insert(guard.name@, guard@),
    {
        proof {
            use_type_invariant(&*self);
        }
        let ghost before = self.entries@;
        let place = self.position(guard.name.as_str());
        let mut entries: Vec<Guard> = Vec::new();
        std::mem::swap(&mut self.entries, &mut entries);
        match place {
            Some(i) => {
                proof {
                    lemma_registry_replace(before, i as int, guard);
                }
                entries.set(i, guard);
            },
            None => {
                proof {
                    lemma_registry_push(before, guard);
                }
                entries.push(guard);
            },
        }
        std::mem::swap(&mut self.entries, &mut entries);
    }
}

impl Clone for GuardStore {
    fn clone(&self) -> (r: Self)
        ensures
            r@ == self@,
    {
        proof {
            use_type_invariant(self);
        }
        let entries = clone_guards(&self.entries);
        proof {
            lemma_registry_of_views(self.entries@, entries@);
        }
        GuardStore { entries }
    }
}

impl Default for GuardStore {
    fn default() -> (r: GuardStore)
        ensures
            r@ == Map::<Seq<char>, GuardView>::empty(),
    {
        GuardStore::new()
    }
}

/// Under distinct names, an entry is what the registry holds for its name.
pub proof fn lemma_registry_entry(entries: Seq<Guard>, i: int)
    requires
        distinct_names(entries),
        0 <= i < entries.len(),
    ensures
        registry_of(entries).contains_key(entries[i].name@),
        registry_of(entries)[entries[i].name@] == entries[i]@,
{
    assert(holds(entries, entries[i].name@));
}

/// The registry depends on the entries' views alone.
proof fn lemma_registry_of_views(first: Seq<Guard>, second: Seq<Guard>)
    requires
        distinct_names(first),
        first.len() == second.len(),
        forall|i: int| 0 <= i < first.len() ==> (#[trigger] second[i])@ == first[i]@,
    ensures
        distinct_names(second),
        registry_of(second) == registry_of(first),
{
    assert forall|i: int, j: int|
        0 <= i < second.len() && 0 <= j < second.len() && #[trigger] second[i].name@
            == #[trigger] second[j].name@ implies i == j by {
        assert(second[i]@ == first[i]@);
        assert(second[j]@ == first[j]@);
        assert(first[i].name@ == first[j].name@);
    }
    assert forall|name: Seq<char>| registry_of(second).contains_key(name) == registry_of(
        first,
    ).contains_key(name) by {
        if holds(second, name) {
            let i = place_of(second, name);
            assert(second[i]@ == first[i]@);
            assert(first[i].name@ == name);
        }
        if holds(first, name) {
            let i = place_of(first, name);
            assert(second[i]@ == first[i]@);
            assert(second[i].name@ == name);
        }
    }
    assert forall|name: Seq<char>| registry_of(second).contains_key(name) implies registry_of(
        second,
    )[name] == registry_of(first)[name] by {
        let i = place_of(second, name);
        assert(second[i]@ == first[i]@);
        lemma_registry_entry(second, i);
        lemma_registry_entry(first, i);
    }
    assert(registry_of(second) =~= registry_of(first));
}

/// An entry under a new name extends the registry by that name.
proof fn lemma_registry_push(entries: Seq<Guard>, guard: Guard)
    requires
        distinct_names(entries),
        !holds(entries, guard.name@),
    ensures
        distinct_names(entries.push(guard)),
        registry_of(entries.push(guard)) == registry_of(entries).insert(guard.name@, guard@),
{
    let after = entries.push(guard);
    assert forall|i: int, j: int|
        0 <= i < after.len() && 0 <= j < after.len() && #[trigger] after[i].name@
            == #[trigger] after[j].name@ implies i == j by {
        if i < entries.len() {
            assert(entries[i].name@ == after[i].name@);
        }
        if j < entries.len() {
            assert(entries[j].name@ == after[j].name@);
        }
    }
    let target = registry_of(entries).insert(guard.name@, guard@);
    assert forall|name: Seq<char>| registry_of(after).contains_key(name) == target.contains_key(
        name,
    ) by {
        if holds(after, name) {
            let i = place_of(after, name);
            if i < entries.len() {
                assert(entries[i].name@ == name);
            }
        }
        if holds(entries, name) {
            let i = place_of(entries, name);
            assert(after[i].name@ == name);
        }
        if name == guard.name@ {
            assert(after[entries.len() as int].name@ == name);
        }
    }
    assert forall|name: Seq<char>| registry_of(after).contains_key(name) implies registry_of(
        after,
    )[name] == target[name] by {
        let i = place_of(after, name);
        lemma_registry_entry(after, i);
        if i < entries.len() {
            assert(entries[i].name@ == name);
            lemma_registry_entry(entries, i);
        }
    }
    assert(registry_of(after) =~= target);
}

/// An entry put in the place of another of its name replaces what the
/// registry holds for that name.
proof fn lemma_registry_replace(entries: Seq<Guard>, at: int, guard: Guard)
    requires
        distinct_names(entries),
        0 <= at < entries.len(),
        entries[at].name@ == guard.name@,
    ensures
        distinct_names(entries.update(at, guard)),
        registry_of(entries.update(at, guard)) == registry_of(entries).insert(
            guard.name@,
            guard@,
        ),
{
    let after = entries.update(at, guard);
    assert forall|i: int, j: int|
        0 <= i < after.len() && 0 <= j < after.len() && #[trigger] after[i].name@
            == #[trigger] after[j].name@ implies i == j by {
        assert(entries[i].name@ == after[i].name@);
        assert(entries[j].name@ == after[j].name@);
    }
    let target = registry_of(entries).insert(guard.name@, guard@);
    assert forall|name: Seq<char>| registry_of(after).contains_key(name) == target.contains_key(
        name,
    ) by {
        if holds(after, name) {
            let i = place_of(after, name);
            assert(entries[i].name@ == name);
        }
        if holds(entries, name) {
            let i = place_of(entries, name);
            assert(after[i].name@ == name);
        }
        if name == guard.name@ {
            assert(after[at].name@ == name);
        }
    }
    assert forall|name: Seq<char>| registry_of(after).contains_key(name) implies registry_of(
        after,
    )[name] == target[name] by {
        let i = place_of(after, name);
        lemma_registry_entry(after, i);
        if i != at {
            assert(entries[i].name@ == name);
            lemma_registry_entry(entries, i);
        }
    }
    assert(registry_of(after) =~= target);
}

/// Under distinct names, the registry holds as many names as there are
/// entries.
proof fn lemma_registry_size(entries: Seq<Guard>)
    requires
        distinct_names(entries),
    ensures
        registry_of(entries).dom().finite(),
        registry_of(entries).dom().len() == entries.len(),
    decreases entries.len(),
{
    if entries.len() == 0 {
        assert(registry_of(entries).dom() =~= Set::<Seq<char>>::empty());
    } else {
        let rest = entries.drop_last();
        let last = entries.last();
        assert forall|i: int, j: int|
            0 <= i < rest.len() && 0 <= j < rest.len() && #[trigger] rest[i].name@
                == #[trigger] rest[j].name@ implies i == j by {
            assert(entries[i].name@ == rest[i].name@);
            assert(entries[j].name@ == rest[j].name@);
        }
        if holds(rest, last.name@) {
            let i = place_of(rest, last.name@);
            assert(entries[i].name@ == entries[entries.len() - 1].name@);
        }
        lemma_registry_size(rest);
        lemma_registry_push(rest, last);
        assert(rest.push(last) =~= entries);
        assert(registry_of(entries).dom() =~= registry_of(rest).dom().insert(last.name@));
    }
}


/// Where a registration stands: the guards registered, and the failure that
/// stopped it, if one did.
pub struct Registration {
    pub registry: Map<Seq<char>, GuardView>,
    pub failure: Option<DiscoveryErrorView>,
}

/// The failure that a result reports.
pub open spec fn failure_of(r: Result<(), DiscoveryError>) -> Option<DiscoveryErrorView> {
    match r {
        Ok(_) => None,
        Err(e) => Some(e@),
    }
}

/// Registering the guards that `decls` declare, in order, until one of them
/// fails.
pub open spec fn register_declarations(
    registry: Map<Seq<char>, GuardView>,
    decls: Seq<FnDeclView>,
    file: Seq<char>,
    root: Seq<char>,
) -> Registration
    decreases decls.len(),
{
    if decls.len() == 0 {
        Registration { registry, failure: None }
    } else {
        let before = register_declarations(registry, decls.drop_last(), file, root);
        if before.failure is Some {
            before
        } else {
            match guard_of(decls.last(), file, root) {
                Ok(guard) => Registration {
                    registry: before.registry.insert(guard.name, guard),
                    failure: None,
                },
                Err(e) => Registration { registry: before.registry, failure: Some(e) },
            }
        }
    }
}

/// Registering the guards of one file. A file that discovery does not read
/// changes nothing.
pub open spec fn register_file(
    registry: Map<Seq<char>, GuardView>,
    file: SourceFileView,
    root: Seq<char>,
) -> Registration {
    if !is_visited(file.path) {
        Registration { registry, failure: None }
    } else {
        match declarations(file.content) {
            Err(message) => Registration {
                registry,
                failure: Some(DiscoveryErrorView::Syntax { file: file.path, message }),
            },
            Ok(decls) => register_declarations(registry, decls, file.path, root),
        }
    }
}

/// Registering the guards of `files`, in order, until one of them fails.
pub open spec fn register_files(
    registry: Map<Seq<char>, GuardView>,
    files: Seq<SourceFileView>,
    root: Seq<char>,
) -> Registration
    decreases files.len(),
{
    if files.len() == 0 {
        Registration { registry, failure: None }
    } else {
        let before = register_files(registry, files.drop_last(), root);
        if before.failure is Some {
            before
        } else {
            register_file(before.registry, files.last(), root)
        }
    }
}

/// Registering the guards of a guards directory: `files` are the files
/// found under `root`, or nothing where there is no such directory.
pub open spec fn discovery(
    registry: Map<Seq<char>, GuardView>,
    root: Seq<char>,
    files: Option<Seq<SourceFileView>>,
) -> Registration {
    match files {
        None => Registration {
            registry,
            failure: Some(DiscoveryErrorView::MissingDirectory { path: root }),
        },
        Some(files) => register_files(registry, files, root),
    }
}

impl GuardStore {
    /// Registers the guards that `decls`, found in the file at `file` under
    /// the guards directory `root`, declare. Stops at the first declaration
    /// that fails; the guards before it stay registered.
    pub fn register_declarations(&mut self, decls: &Vec<FnDecl>, file: &str, root: &str) -> (r:
        Result<(), DiscoveryError>)
        ensures
            register_declarations(old(self)@, decl_views(decls@), file@, root@) == (Registration {
                registry: final(self)@,
                failure: failure_of(r),
            }),
    {
        let mut i: usize = 0;
        proof {
            assert(decl_views(decls@).take(0) =~= Seq::<FnDeclView>::empty());
        }
        while i < decls.len()
            invariant
                i <= decls.len(),
                register_declarations(old(self)@, decl_views(decls@).take(i as int), file@, root@)
                    == (Registration { registry: self@, failure: None }),
            decreases decls.len() - i,
        {
            proof {
                assert(decl_views(decls@).take(i + 1).drop_last() =~= decl_views(decls@).take(
                    i as int,
                ));
                assert(decl_views(decls@).take(i + 1).last() == decls@[i as int]@);
                if i + 1 == decls.len() {
                    assert(decl_views(decls@).take(i + 1) =~= decl_views(decls@));
                }
            }
            match Guard::from_declaration(&decls[i], file, root) {
                Ok(guard) => {
                    self.insert(guard);
                },
                Err(e) => {
                    proof {
                        lemma_register_declarations_failed(
                            old(self)@,
                            decl_views(decls@),
                            file@,
                            root@,
                            i + 1,
                        );
                    }
                    return Err(e);
                },
            }
            i = i + 1;
        }
        proof {
            assert(decl_views(decls@).take(decls.len() as int) =~= decl_views(decls@));
        }
        Ok(())
    }

    /// Registers the guards declared in `file`, where discovery reads it.
    pub fn register_file(&mut self, file: &SourceFile, root: &str) -> (r: Result<
        (),
        DiscoveryError,
    >)
        ensures
            register_file(old(self)@, file@, root@) == (Registration {
                registry: final(self)@,
                failure: failure_of(r),
            }),
    {
        if !should_visit(file.path.as_str()) {
            return Ok(());
        }
        match parse_declarations(file.content.as_str()) {
            Err(message) => Err(DiscoveryError::Syntax { file: file.path.clone(), message }),
            Ok(decls) => self.register_declarations(&decls, file.path.as_str(), root),
        }
    }

    /// Registers the guards declared in `files`, found under the guards
    /// directory `root`, in order. Stops at the first failure; the guards
    /// registered before it stay registered.
    pub fn register_files(&mut self, files: &Vec<SourceFile>, root: &str) -> (r: Result<
        (),
        DiscoveryError,
    >)
        ensures
            register_files(old(self)@, file_views(files@), root@) == (Registration {
                registry: final(self)@,
                failure: failure_of(r),
            }),
    {
        let mut i: usize = 0;
        proof {
            assert(file_views(files@).take(0) =~= Seq::<SourceFileView>::empty());
        }
        while i < files.len()
            invariant
                i <= files.len(),
                register_files(old(self)@, file_views(files@).take(i as int), root@)
                    == (Registration { registry: self@, failure: None }),
            decreases files.len() - i,
        {
            proof {
                assert(file_views(files@).take(i + 1).drop_last() =~= file_views(files@).take(
                    i as int,
                ));
                assert(file_views(files@).take(i + 1).last() == files@[i as int]@);
            }
            match self.register_file(&files[i], root) {
                Ok(_) => {},
                Err(e) => {
                    proof {
                        lemma_register_files_failed(old(self)@, file_views(files@), root@, i + 1);
                    }
                    return Err(e);
                },
            }
            i = i + 1;
        }
        proof {
            assert(file_views(files@).take(files.len() as int) =~= file_views(files@));
        }
        Ok(())
    }

    /// Registers the guards declared under the guards directory `path`.
    /// `files` are the files found under it, in the order in which they were
    /// found, or `None` where there is no such directory, which is reported
    /// as `MissingDirectory`. Index files and files that are no source files
    /// are passed over. Stops at the first failure; the guards registered
    /// before it stay registered.
    pub fn discover_guards(&mut self, path: &str, files: Option<&Vec<SourceFile>>) -> (r: Result<
        (),
        DiscoveryError,
    >)
        ensures
            discovery(old(self)@, path@, listing_view(files)) == (Registration {
                registry: final(self)@,
                failure: failure_of(r),
            }),
    {
        match files {
            None => Err(DiscoveryError::MissingDirectory { path: path.to_owned() }),
            Some(files) => self.register_files(files, path),
        }
    }
}

/// Once a declaration has failed, the declarations after it change nothing.
pub proof fn lemma_register_declarations_failed(
    registry: Map<Seq<char>, GuardView>,
    decls: Seq<FnDeclView>,
    file: Seq<char>,
    root: Seq<char>,
    n: int,
)
    requires
        0 <= n <= decls.len(),
        register_declarations(registry, decls.take(n), file, root).failure is Some,
    ensures
        register_declarations(registry, decls, file, root) == register_declarations(
            registry,
            decls.take(n),
            file,
            root,
        ),
    decreases decls.len() - n,
{
    if n < decls.len() {
        assert(decls.take(n + 1).drop_last() =~= decls.take(n));
        lemma_register_declarations_failed(registry, decls, file, root, n + 1);
    } else {
        assert(decls.take(n) =~= decls);
    }
}

/// Once a file has failed, the files after it change nothing.
pub proof fn lemma_register_files_failed(
    registry: Map<Seq<char>, GuardView>,
    files: Seq<SourceFileView>,
    root: Seq<char>,
    n: int,
)
    requires
        0 <= n <= files.len(),
        register_files(registry, files.take(n), root).failure is Some,
    ensures
        register_files(registry, files, root) == register_files(registry, files.take(n), root),
    decreases files.len() - n,
{
    if n < files.len() {
        assert(files.take(n + 1).drop_last() =~= files.take(n));
        lemma_register_files_failed(registry, files, root, n + 1);
    } else {
        assert(files.take(n) =~= files);
    }
}


/// Index files are never read: registering the guards of `files` is
/// registering the guards of those among them that are no index files.
pub proof fn lemma_index_files_hold_no_guards(
    registry: Map<Seq<char>, GuardView>,
    files: Seq<SourceFileView>,
    root: Seq<char>,
)
    ensures
        register_files(registry, files, root) == register_files(
            registry,
            without_index_files(files),
            root,
        ),
    decreases files.len(),
{
    if files.len() > 0 {
        let rest = files.drop_last();
        lemma_index_files_hold_no_guards(registry, rest, root);
        if !is_index_file(files.last().path) {
            let kept = without_index_files(rest).push(files.last());
            assert(kept.drop_last() =~= without_index_files(rest));
            assert(kept.last() == files.last());
        }
    }
}

} // verus!
