//! Reading source text: the top-level function declarations of a file, each
//! with its annotations.
//!
//! The text is parsed by `syn`. A syntax tree is opaque here; what the rest
//! of the library reads from it is copied into `FnDecl` and `Annotation`,
//! which hold plain values.

use vstd::prelude::*;

verus! {

/// `syn::Item`: one item of a parsed file, carried as an opaque value.
#[verifier::external_type_specification]
#[verifier::external_body]
pub struct ExItem(syn::Item);

/// `syn::ItemFn`: a parsed free function, carried as an opaque value.
#[verifier::external_type_specification]
#[verifier::external_body]
pub struct ExItemFn(syn::ItemFn);

/// `syn::Attribute`: a parsed attribute, carried as an opaque value.
#[verifier::external_type_specification]
#[verifier::external_body]
pub struct ExAttribute(syn::Attribute);

/// `syn::Error`: what a failed parse reports, carried as an opaque value.
#[verifier::external_type_specification]
#[verifier::external_body]
pub struct ExError(syn::Error);

/// An annotation attached to a declaration: `#[name(tokens)]`.
#[derive(Debug, PartialEq, Eq)]
pub struct Annotation {
    /// The annotation's name, where it is a single identifier.
    pub name: Option<String>,
    /// The text between the annotation's delimiters, where it has any.
    pub tokens: Option<String>,
}

/// An annotation, as contracts speak of it.
pub struct AnnotationView {
    pub name: Option<Seq<char>>,
    pub tokens: Option<Seq<char>>,
}

/// The view of a string that may be absent.
pub open spec fn text_of(s: Option<String>) -> Option<Seq<char>> {
    match s {
        Some(s) => Some(s@),
        None => None,
    }
}

impl View for Annotation {
    type V = AnnotationView;

    open spec fn view(&self) -> AnnotationView {
        AnnotationView { name: text_of(self.name), tokens: text_of(self.tokens) }
    }
}

/// A top-level function declaration.
#[derive(Debug, PartialEq, Eq)]
pub struct FnDecl {
    /// The function's identifier.
    pub name: String,
    /// Whether it is declared `pub`, without restriction.
    pub is_public: bool,
    /// Whether it is declared `async`.
    pub is_async: bool,
    /// Its annotations, in the order in which they are written.
    pub annotations: Vec<Annotation>,
}

/// A declaration, as contracts speak of it.
pub struct FnDeclView {
    pub name: Seq<char>,
    pub is_public: bool,
    pub is_async: bool,
    pub annotations: Seq<AnnotationView>,
}

/// The views of a sequence of annotations.
pub open spec fn annotation_views(v: Seq<Annotation>) -> Seq<AnnotationView> {
    v.map_values(|a: Annotation| a@)
}

/// The views of a sequence of declarations.
pub open spec fn decl_views(v: Seq<FnDecl>) -> Seq<FnDeclView> {
    v.map_values(|d: FnDecl| d@)
}

impl View for FnDecl {
    type V = FnDeclView;

    open spec fn view(&self) -> FnDeclView {
        FnDeclView {
            name: self.name@,
            is_public: self.is_public,
            is_async: self.is_async,
            annotations: annotation_views(self.annotations@),
        }
    }
}

/// A copy of a string that may be absent.
pub fn clone_text(s: &Option<String>) -> (r: Option<String>)
    ensures
        text_of(r) == text_of(*s),
{
    match s {
        Some(s) => Some(s.clone()),
        None => None,
    }
}

impl Clone for Annotation {
    fn clone(&self) -> (r: Self)
        ensures
            r@ == self@,
    {
        Annotation { name: clone_text(&self.name), tokens: clone_text(&self.tokens) }
    }
}

impl Clone for FnDecl {
    fn clone(&self) -> (r: Self)
        ensures
            r@ == self@,
    {
        let mut annotations: Vec<Annotation> = Vec::new();
        let mut i: usize = 0;
        while i < self.annotations.len()
            invariant
                i <= self.annotations.len(),
                annotations.len() == i,
                forall|j: int| 0 <= j < i ==> annotations@[j]@ == self.annotations@[j]@,
            decreases self.annotations.len() - i,
        {
            annotations.push(self.annotations[i].clone());
            i = i + 1;
        }
        proof {
            assert(annotation_views(annotations@) =~= annotation_views(self.annotations@));
        }
        FnDecl {
            name: self.name.clone(),
            is_public: self.is_public,
            is_async: self.is_async,
            annotations,
        }
    }
}

/// What `syn::parse_file` makes of a source text: the file's items in
/// order, or the error it reports.
pub uninterp spec fn parsed_items(content: Seq<char>) -> Result<Seq<syn::Item>, syn::Error>;

/// The function that an item declares, where it declares one.
pub uninterp spec fn item_function(item: &syn::Item) -> Option<syn::ItemFn>;

/// A function's identifier.
pub uninterp spec fn function_name(function: &syn::ItemFn) -> Seq<char>;

/// Whether a function is declared `pub`, without restriction.
pub uninterp spec fn function_is_public(function: &syn::ItemFn) -> bool;

/// Whether a function is declared `async`.
pub uninterp spec fn function_is_async(function: &syn::ItemFn) -> bool;

/// A function's attributes, in the order in which they are written.
pub uninterp spec fn function_attributes(function: &syn::ItemFn) -> Seq<syn::Attribute>;

/// An attribute's name, where its path is a single identifier.
pub uninterp spec fn attribute_name(attribute: &syn::Attribute) -> Option<Seq<char>>;

/// The text of an attribute's argument tokens, where it has an argument
/// list.
pub uninterp spec fn attribute_tokens(attribute: &syn::Attribute) -> Option<Seq<char>>;

/// The message of a syntax error.
pub uninterp spec fn syntax_error_text(error: &syn::Error) -> Seq<char>;

/// What a text holds where `syn` reads it as one string literal: the
/// literal's value, with its escapes resolved.
pub uninterp spec fn literal_text(text: Seq<char>) -> Option<Seq<char>>;

/// Calls `syn::parse_file` and hands out the `items` of the file it
/// returns. Claimed: the outcome is a function of the text alone.
#[verifier::external_body]
fn parse_items(content: &str) -> (r: Result<Vec<syn::Item>, syn::Error>)
    ensures
        match r {
            Ok(items) => parsed_items(content@) == Ok::<Seq<syn::Item>, syn::Error>(items@),
            Err(e) => parsed_items(content@) == Err::<Seq<syn::Item>, syn::Error>(e),
        },
{
    syn::parse_file(content).map(|file| file.items)
}

/// Tells the variant `syn::Item::Fn` from the others and hands out what it
/// holds.
#[verifier::external_body]
fn item_fn(item: &syn::Item) -> (r: Option<&syn::ItemFn>)
    ensures
        match r {
            Some(function) => item_function(item) == Some(*function),
            None => item_function(item) is None,
        },
{
    match item {
        syn::Item::Fn(function) => Some(function),
        _ => None,
    }
}

/// The identifier in the signature of a `syn::ItemFn`, as `Ident` displays
/// it.
#[verifier::external_body]
fn fn_name(function: &syn::ItemFn) -> (r: String)
    ensures
        r@ == function_name(function),
{
    function.sig.ident.to_string()
}

/// Whether the visibility of a `syn::ItemFn` is the variant
/// `syn::Visibility::Public`.
#[verifier::external_body]
fn fn_is_public(function: &syn::ItemFn) -> (r: bool)
    ensures
        r == function_is_public(function),
{
    matches!(function.vis, syn::Visibility::Public(_))
}

/// Whether the signature of a `syn::ItemFn` holds an `async` token.
#[verifier::external_body]
fn fn_is_async(function: &syn::ItemFn) -> (r: bool)
    ensures
        r == function_is_async(function),
{
    function.sig.asyncness.is_some()
}

/// Hands out the field `attrs` of a `syn::ItemFn`.
#[verifier::external_body]
fn fn_attributes(function: &syn::ItemFn) -> (r: &Vec<syn::Attribute>)
    ensures
        r@ == function_attributes(function),
{
    &function.attrs
}

/// The identifier that `syn::Path::get_ident` finds in the path of a
/// `syn::Attribute`, as `Ident` displays it: the path is a single segment
/// without arguments and without a leading `::`, or there is none.
#[verifier::external_body]
fn attr_name(attribute: &syn::Attribute) -> (r: Option<String>)
    ensures
        text_of(r) == attribute_name(attribute),
{
    attribute.path().get_ident().map(|ident| ident.to_string())
}

/// Where the meta of a `syn::Attribute` is a `syn::Meta::List`, the text
/// that the list's token stream displays as.
#[verifier::external_body]
fn attr_tokens(attribute: &syn::Attribute) -> (r: Option<String>)
    ensures
        text_of(r) == attribute_tokens(attribute),
{
    match &attribute.meta {
        syn::Meta::List(list) => Some(list.tokens.to_string()),
        _ => None,
    }
}

/// The message that a `syn::Error` displays.
#[verifier::external_body]
fn error_message(error: &syn::Error) -> (r: String)
    ensures
        r@ == syntax_error_text(error),
{
    error.to_string()
}

/// Parses `text` with `syn::parse_str` as a `syn::LitStr` and hands out
/// the literal's `value()`, or `None` where `text` is not one string
/// literal. Claimed: the outcome is a function of the text alone.
#[verifier::external_body]
pub(crate) fn read_literal(text: &str) -> (r: Option<String>)
    ensures
        text_of(r) == literal_text(text@),
{
    syn::parse_str::<syn::LitStr>(text).ok().map(|literal| literal.value())
}

/// The annotation that a parsed attribute stands for.
pub open spec fn annotation_of(attribute: &syn::Attribute) -> AnnotationView {
    AnnotationView { name: attribute_name(attribute), tokens: attribute_tokens(attribute) }
}

/// The declaration that a parsed function stands for.
pub open spec fn declaration_of(function: &syn::ItemFn) -> FnDeclView {
    FnDeclView {
        name: function_name(function),
        is_public: function_is_public(function),
        is_async: function_is_async(function),
        annotations: function_attributes(function).map_values(
            |a: syn::Attribute| annotation_of(&a),
        ),
    }
}

/// The declarations of the functions among `items`, in order.
pub open spec fn declarations_among(items: Seq<syn::Item>) -> Seq<FnDeclView>
    decreases items.len(),
{
    if items.len() == 0 {
        Seq::empty()
    } else {
        match item_function(&items.last()) {
            Some(function) => declarations_among(items.drop_last()).push(
                declaration_of(&function),
            ),
            None => declarations_among(items.drop_last()),
        }
    }
}

/// The top-level function declarations of a source text, in order, or the
/// message of the syntax error in it.
pub open spec fn declarations(content: Seq<char>) -> Result<Seq<FnDeclView>, Seq<char>> {
    match parsed_items(content) {
        Ok(items) => Ok(declarations_among(items)),
        Err(e) => Err(syntax_error_text(&e)),
    }
}

/// Copies out of a parsed attribute what the library reads of it.
pub fn lower_attribute(attribute: &syn::Attribute) -> (r: Annotation)
    ensures
        r@ == annotation_of(attribute),
{
    Annotation { name: attr_name(attribute), tokens: attr_tokens(attribute) }
}

/// Copies out of a parsed function what the library reads of it.
pub fn lower_function(function: &syn::ItemFn) -> (r: FnDecl)
    ensures
        r@ == declaration_of(function),
{
    let attributes = fn_attributes(function);
    let mut annotations: Vec<Annotation> = Vec::new();
    let mut i: usize = 0;
    while i < attributes.len()
        invariant
            i <= attributes.len(),
            annotations.len() == i,
            forall|j: int| 0 <= j < i ==> annotations@[j]@ == annotation_of(&attributes@[j]),
        decreases attributes.len() - i,
    {
        annotations.push(lower_attribute(&attributes[i]));
        i = i + 1;
    }
    proof {
        assert(annotation_views(annotations@) =~= attributes@.map_values(
            |a: syn::Attribute| annotation_of(&a),
        ));
    }
    FnDecl {
        name: fn_name(function),
        is_public: fn_is_public(function),
        is_async: fn_is_async(function),
        annotations,
    }
}

/// Parses `content` as a source file and returns its top-level function
/// declarations in order, or the message of the syntax error in it.
pub fn parse_declarations(content: &str) -> (r: Result<Vec<FnDecl>, String>)
    ensures
        match r {
            Ok(found) => declarations(content@) == Ok::<Seq<FnDeclView>, Seq<char>>(
                decl_views(found@),
            ),
            Err(message) => declarations(content@) == Err::<Seq<FnDeclView>, Seq<char>>(
                message@,
            ),
        },
{
    match parse_items(content) {
        Err(e) => Err(error_message(&e)),
        Ok(items) => {
            let mut found: Vec<FnDecl> = Vec::new();
            let mut i: usize = 0;
            proof {
                assert(decl_views(found@) =~= Seq::<FnDeclView>::empty());
                assert(items@.take(0) =~= Seq::<syn::Item>::empty());
            }
            while i < items.len()
                invariant
                    i <= items.len(),
                    decl_views(found@) == declarations_among(items@.take(i as int)),
                decreases items.len() - i,
            {
                proof {
                    assert(items@.take(i + 1).drop_last() =~= items@.take(i as int));
                    assert(items@.take(i + 1).last() == items@[i as int]);
                }
                match item_fn(&items[i]) {
                    Some(function) => {
                        let decl = lower_function(function);
                        proof {
                            assert(decl_views(found@.push(decl)) =~= decl_views(found@).push(
                                decl@,
                            ));
                        }
                        found.push(decl);
                    },
                    None => {},
                }
                i = i + 1;
            }
            proof {
                assert(items@.take(items.len() as int) =~= items@);
            }
            Ok(found)
        },
    }
}

} // verus!
