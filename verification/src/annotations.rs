//! What an annotation says: the verb and path of a route, the role of a
//! guard, the guards that a route refers to.
//!
//! An annotation's arguments arrive as the text of its tokens. The small
//! grammars of that text are read here, character by character.

use vstd::prelude::*;
use crate::errors::{RoleError, RoleErrorView};
use crate::guards::{role_of_tag, GuardType};
use crate::syntax::{
    annotation_views, literal_text, read_literal, text_of, Annotation, AnnotationView, FnDecl,
};
use crate::text::{
    blank_chars, blanks, chars_of, first_where, join, lemma_first_where, lemma_texts_push,
    lemma_without_leading, occurs_in, same_text, slice_of, texts, trim_matches, trim_range,
    trimmed, without_leading, without_trailing,
};

verus! {

/// The name of the annotation that gives a guard its role.
pub const ROLE_ANNOTATION: &'static str = "register_guard";

/// The key that a role annotation assigns to.
pub const ROLE_KEY: &'static str = "guard_type";

/// The name of the annotation that lists the guards of a route.
pub const GUARDS_ANNOTATION: &'static str = "guards";

/// The request methods a route may be bound to.
#[derive(Debug, Clone, Copy, PartialEq, Eq, Structural)]
pub enum HttpMethod {
    Get,
    Post,
    Put,
    Patch,
    Delete,
}

/// The name by which a verb annotation is written.
pub open spec fn verb_name(method: HttpMethod) -> Seq<char> {
    match method {
        HttpMethod::Get => "get"@,
        HttpMethod::Post => "post"@,
        HttpMethod::Put => "put"@,
        HttpMethod::Patch => "patch"@,
        HttpMethod::Delete => "delete"@,
    }
}

/// The method that an annotation name stands for, where it is a verb.
pub open spec fn verb_of(name: Seq<char>) -> Option<HttpMethod> {
    if name == "get"@ {
        Some(HttpMethod::Get)
    } else if name == "post"@ {
        Some(HttpMethod::Post)
    } else if name == "put"@ {
        Some(HttpMethod::Put)
    } else if name == "patch"@ {
        Some(HttpMethod::Patch)
    } else if name == "delete"@ {
        Some(HttpMethod::Delete)
    } else {
        None
    }
}

impl HttpMethod {
    /// The name by which this method's verb annotation is written.
    pub fn as_str(&self) -> (r: &'static str)
        ensures
            r@ == verb_name(*self),
    {
        match self {
            HttpMethod::Get => "get",
            HttpMethod::Post => "post",
            HttpMethod::Put => "put",
            HttpMethod::Patch => "patch",
            HttpMethod::Delete => "delete",
        }
    }

    /// The method whose verb annotation is written `name`.
    pub fn from_name(name: &str) -> (r: Option<HttpMethod>)
        ensures
            r == verb_of(name@),
    {
        if same_text(name, "get") {
            Some(HttpMethod::Get)
        } else if same_text(name, "post") {
            Some(HttpMethod::Post)
        } else if same_text(name, "put") {
            Some(HttpMethod::Put)
        } else if same_text(name, "patch") {
            Some(HttpMethod::Patch)
        } else if same_text(name, "delete") {
            Some(HttpMethod::Delete)
        } else {
            None
        }
    }
}

/// The method that an annotation binds a route to, where it is a verb
/// annotation.
pub open spec fn annotation_verb(a: AnnotationView) -> Option<HttpMethod> {
    match a.name {
        Some(name) => verb_of(name),
        None => None,
    }
}

/// Holds of the verb annotations.
pub open spec fn is_verb() -> spec_fn(AnnotationView) -> bool {
    |a: AnnotationView| annotation_verb(a) is Some
}

/// Holds of the annotations called `name`.
pub open spec fn is_called(name: Seq<char>) -> spec_fn(AnnotationView) -> bool {
    |a: AnnotationView| a.name == Some(name)
}

/// The place of the first verb annotation among `annotations`, with the
/// method it stands for.
pub fn find_verb(annotations: &[Annotation]) -> (r: Option<(usize, HttpMethod)>)
    ensures
        match r {
            Some((i, method)) => i < annotations@.len() && i == first_where(
                annotation_views(annotations@),
                is_verb(),
            ) && annotation_verb(annotations@[i as int]@) == Some(method),
            None => first_where(annotation_views(annotations@), is_verb()) == annotations@.len(),
        },
{
    let mut i: usize = 0;
    while i < annotations.len()
        invariant
            i <= annotations@.len(),
            forall|j: int|
                0 <= j < i ==> !is_verb()(#[trigger] annotation_views(annotations@)[j]),
        decreases annotations@.len() - i,
    {
        let found = match &annotations[i].name {
            Some(name) => HttpMethod::from_name(name.as_str()),
            None => None,
        };
        proof {
            assert(annotation_views(annotations@)[i as int] == annotations@[i as int]@);
            assert(found == annotation_verb(annotations@[i as int]@));
        }
        match found {
            Some(method) => {
                proof {
                    lemma_first_where(annotation_views(annotations@), is_verb(), i as int);
                }
                return Some((i, method));
            },
            None => {},
        }
        i = i + 1;
    }
    proof {
        lemma_first_where(annotation_views(annotations@), is_verb(), annotations@.len() as int);
    }
    None
}

/// The place of the first annotation called `name` among `annotations`.
pub fn find_annotation(annotations: &[Annotation], name: &str) -> (r: Option<usize>)
    ensures
        match r {
            Some(i) => i < annotations@.len() && i == first_where(
                annotation_views(annotations@),
                is_called(name@),
            ),
            None => first_where(annotation_views(annotations@), is_called(name@))
                == annotations@.len(),
        },
{
    let mut i: usize = 0;
    while i < annotations.len()
        invariant
            i <= annotations@.len(),
            forall|j: int|
                0 <= j < i ==> !is_called(name@)(#[trigger] annotation_views(annotations@)[j]),
        decreases annotations@.len() - i,
    {
        let hit = match &annotations[i].name {
            Some(own) => same_text(own.as_str(), name),
            None => false,
        };
        proof {
            assert(annotation_views(annotations@)[i as int] == annotations@[i as int]@);
            assert(hit == is_called(name@)(annotations@[i as int]@));
        }
        if hit {
            proof {
                lemma_first_where(annotation_views(annotations@), is_called(name@), i as int);
            }
            return Some(i);
        }
        i = i + 1;
    }
    proof {
        lemma_first_where(
            annotation_views(annotations@),
            is_called(name@),
            annotations@.len() as int,
        );
    }
    None
}

/// The views of a sequence of names.
pub open spec fn name_views(names: Seq<&str>) -> Seq<Seq<char>> {
    names.map_values(|s: &str| s@)
}

/// Holds of the annotations whose name is one of `names`.
pub open spec fn is_among(names: Seq<Seq<char>>) -> spec_fn(AnnotationView) -> bool {
    |a: AnnotationView| a.name is Some && names.contains(a.name->0)
}

/// Whether `name` is one of `names`.
fn is_one_of(name: &str, names: &[&str]) -> (r: bool)
    ensures
        r == name_views(names@).contains(name@),
{
    let mut i: usize = 0;
    while i < names.len()
        invariant
            i <= names@.len(),
            forall|j: int| 0 <= j < i ==> name_views(names@)[j] != name@,
        decreases names@.len() - i,
    {
        if same_text(names[i], name) {
            proof {
                assert(name_views(names@)[i as int] == name@);
            }
            return true;
        }
        i = i + 1;
    }
    false
}

/// The first annotation of `func` whose name is one of `recognized`, or
/// `None` where `func` carries no such annotation.
pub fn extract_annotation<'a>(func: &'a FnDecl, recognized: &[&str]) -> (r: Option<
    &'a Annotation,
>)
    ensures
        match r {
            Some(found) => {
                let i = first_where(func@.annotations, is_among(name_views(recognized@)));
                i < func.annotations@.len() && *found == func.annotations@[i]
            },
            None => first_where(func@.annotations, is_among(name_views(recognized@)))
                == func.annotations@.len(),
        },
{
    let mut i: usize = 0;
    while i < func.annotations.len()
        invariant
            i <= func.annotations@.len(),
            forall|j: int|
                0 <= j < i ==> !is_among(name_views(recognized@))(
                    #[trigger] func@.annotations[j],
                ),
        decreases func.annotations@.len() - i,
    {
        let hit = match &func.annotations[i].name {
            Some(name) => is_one_of(name.as_str(), recognized),
            None => false,
        };
        proof {
            assert(func@.annotations[i as int] == func.annotations@[i as int]@);
        }
        if hit {
            proof {
                lemma_first_where(
                    func@.annotations,
                    is_among(name_views(recognized@)),
                    i as int,
                );
            }
            return Some(&func.annotations[i]);
        }
        i = i + 1;
    }
    proof {
        lemma_first_where(
            func@.annotations,
            is_among(name_views(recognized@)),
            func.annotations@.len() as int,
        );
    }
    None
}

/// The text of an annotation's arguments without the quotes around it, or
/// nothing where the annotation has no argument list.
pub open spec fn annotation_path(a: AnnotationView) -> Option<Seq<char>> {
    match a.tokens {
        Some(tokens) => Some(trim_matches(tokens, '"')),
        None => None,
    }
}

/// The argument of `attr` with every leading and trailing `"` removed, or
/// `None` where `attr` has no argument list.
pub fn extract_path_from_attr(attr: &Annotation) -> (r: Option<String>)
    ensures
        text_of(r) == annotation_path(attr@),
{
    match &attr.tokens {
        None => None,
        Some(tokens) => {
            let chars = chars_of(tokens.as_str());
            let mut quote: Vec<char> = Vec::new();
            quote.push('"');
            proof {
                assert(quote@ =~= seq!['"']);
                assert(chars@.subrange(0, chars.len() as int) =~= chars@);
            }
            let (a, b) = trim_range(&chars, 0, chars.len(), &quote);
            Some(slice_of(tokens.as_str(), a, b))
        },
    }
}

/// Holds of the character `c` alone.
pub open spec fn is_char(c: char) -> spec_fn(char) -> bool {
    |x: char| x == c
}

/// The role that is assigned where `key` stands before the `=`, an `=` is
/// there (`assigned`), and `literal` is what the string literal behind it
/// holds.
pub open spec fn assigned_role(
    key: Seq<char>,
    assigned: bool,
    literal: Option<Seq<char>>,
) -> Result<GuardType, RoleErrorView> {
    if key != ROLE_KEY@ {
        Err(RoleErrorView::ExpectedKey)
    } else if !assigned {
        Err(RoleErrorView::Malformed)
    } else {
        match literal {
            None => Err(RoleErrorView::Malformed),
            Some(tag) => match role_of_tag(tag) {
                Some(role) => Ok(role),
                None => Err(RoleErrorView::Unknown { value: tag }),
            },
        }
    }
}

/// What a role annotation's arguments assign: the text is the key
/// `guard_type`, blanks aside, then an `=`, then one string literal that
/// holds a role tag.
pub open spec fn role_assignment(tokens: Seq<char>) -> Result<GuardType, RoleErrorView> {
    let eq = first_where(tokens, is_char('='));
    assigned_role(
        trimmed(tokens.take(eq)),
        eq < tokens.len(),
        if eq < tokens.len() {
            literal_text(tokens.skip(eq + 1))
        } else {
            None
        },
    )
}

/// Decides the role that is assigned where `key` stands before the `=`,
/// an `=` is there (`assigned`), and `literal` is what the string literal
/// behind it holds.
pub fn decide_role(key: &str, assigned: bool, literal: Option<String>) -> (r: Result<
    GuardType,
    RoleError,
>)
    ensures
        match r {
            Ok(role) => assigned_role(key@, assigned, text_of(literal)) == Ok::<
                GuardType,
                RoleErrorView,
            >(role),
            Err(e) => assigned_role(key@, assigned, text_of(literal)) == Err::<
                GuardType,
                RoleErrorView,
            >(e@),
        },
{
    if !same_text(key, ROLE_KEY) {
        return Err(RoleError::ExpectedKey);
    }
    if !assigned {
        return Err(RoleError::Malformed);
    }
    match literal {
        None => Err(RoleError::Malformed),
        Some(tag) => GuardType::parse(tag.as_str()),
    }
}

/// Reads the arguments of a role annotation.
pub fn parse_role_assignment(tokens: &str) -> (r: Result<GuardType, RoleError>)
    ensures
        match r {
            Ok(role) => role_assignment(tokens@) == Ok::<GuardType, RoleErrorView>(role),
            Err(e) => role_assignment(tokens@) == Err::<GuardType, RoleErrorView>(e@),
        },
{
    let chars = chars_of(tokens);
    let n = chars.len();
    let blank = blank_chars();
    let mut eq: usize = 0;
    while eq < n && chars[eq] != '='
        invariant
            eq <= n,
            n == chars.len(),
            forall|j: int| 0 <= j < eq ==> !is_char('=')(#[trigger] chars@[j]),
        decreases n - eq,
    {
        eq = eq + 1;
    }
    proof {
        lemma_first_where(chars@, is_char('='), eq as int);
        assert(chars@.subrange(0, eq as int) =~= tokens@.take(eq as int));
    }
    let (a, b) = trim_range(&chars, 0, eq, &blank);
    let key = slice_of(tokens, a, b);
    let literal = if eq < n {
        let rest = slice_of(tokens, eq + 1, n);
        proof {
            assert(tokens@.subrange(eq + 1, n as int) =~= tokens@.skip(eq + 1));
        }
        read_literal(rest.as_str())
    } else {
        None
    };
    decide_role(key.as_str(), eq < n, literal)
}

/// Whether `c` opens a delimited group.
pub open spec fn opens(c: char) -> bool {
    c == '(' || c == '[' || c == '{'
}

/// Whether `c` closes a delimited group.
pub open spec fn closes(c: char) -> bool {
    c == ')' || c == ']' || c == '}'
}

/// How many delimited groups are open at the end of `s`.
pub open spec fn nesting(s: Seq<char>) -> nat
    decreases s.len(),
{
    if s.len() == 0 {
        0
    } else {
        let before = nesting(s.drop_last());
        if opens(s.last()) {
            before + 1
        } else if closes(s.last()) && before > 0 {
            (before - 1) as nat
        } else {
            before
        }
    }
}

/// The entries of an argument list: the stretches of `s` between the commas
/// that stand outside every delimited group.
pub open spec fn entries(s: Seq<char>) -> Seq<Seq<char>>
    decreases s.len(),
{
    if s.len() == 0 {
        seq![Seq::empty()]
    } else {
        let before = entries(s.drop_last());
        if s.last() == ',' && nesting(s.drop_last()) == 0 {
            before.push(Seq::empty())
        } else {
            before.drop_last().push(before.last().push(s.last()))
        }
    }
}

/// Holds of the characters at which a guard's name ends: a blank, or the
/// start of a delimited group.
pub open spec fn ends_name() -> spec_fn(char) -> bool {
    |c: char| blanks().contains(c) || opens(c)
}

/// What stands in an entry behind its name.
pub open spec fn after_name(entry: Seq<char>) -> Seq<char> {
    let rest = without_leading(entry, blanks());
    rest.skip(first_where(rest, ends_name()))
}

/// The guard that an entry names: the entry's text, leading blanks aside, up
/// to the first blank or opening delimiter. Parameters are not part of it.
pub open spec fn entry_name(entry: Seq<char>) -> Seq<char> {
    let rest = without_leading(entry, blanks());
    rest.take(first_where(rest, ends_name()))
}

/// What stands in an entry behind its name, blanks at both ends aside.
pub open spec fn entry_tail(entry: Seq<char>) -> Seq<char> {
    trimmed(after_name(entry))
}

/// Whether `c` is a decimal digit.
pub open spec fn is_digit(c: char) -> bool {
    '0' <= c && c <= '9'
}

/// Whether `c` may stand in a name: a letter or a digit of ASCII, an
/// underscore, or any character beyond ASCII.
pub open spec fn is_name_char(c: char) -> bool {
    ('a' <= c && c <= 'z') || ('A' <= c && c <= 'Z') || is_digit(c) || c == '_' || c > '\u{7f}'
}

/// Whether `name` is written like an identifier: not empty, made of name
/// characters, and not starting with a digit.
pub open spec fn is_identifier(name: Seq<char>) -> bool {
    &&& name.len() > 0
    &&& !is_digit(name[0])
    &&& forall|i: int| 0 <= i < name.len() ==> is_name_char(#[trigger] name[i])
}

/// Whether `tail` is written like the parameters of a call: it starts with
/// `(` and ends with `)`.
pub open spec fn is_parameters(tail: Seq<char>) -> bool {
    tail.len() >= 2 && tail[0] == '(' && tail.last() == ')'
}

/// Whether an entry refers to a guard: it is a name, or a name with
/// parameters behind it.
pub open spec fn is_reference(entry: Seq<char>) -> bool {
    is_identifier(entry_name(entry)) && (entry_tail(entry).len() == 0 || is_parameters(
        entry_tail(entry),
    ))
}

/// Holds of the entries that refer to no guard.
pub open spec fn is_no_reference() -> spec_fn(Seq<char>) -> bool {
    |entry: Seq<char>| !is_reference(entry)
}

/// The first entry of `list` that may not stand in a list of references:
/// every entry has to refer to a guard, but for the last, which may also be
/// blank (the list is empty, or ends with a comma).
pub open spec fn faulty_entry(list: Seq<Seq<char>>) -> Option<Seq<char>> {
    if list.len() == 0 {
        None
    } else {
        let k = first_where(list.drop_last(), is_no_reference());
        if k < list.len() - 1 {
            Some(list[k])
        } else if is_reference(list.last()) || trimmed(list.last()).len() == 0 {
            None
        } else {
            Some(list.last())
        }
    }
}

/// The names of those of `list` that name anything, in order.
pub open spec fn names_among(list: Seq<Seq<char>>) -> Seq<Seq<char>>
    decreases list.len(),
{
    if list.len() == 0 {
        Seq::empty()
    } else if entry_name(list.last()).len() > 0 {
        names_among(list.drop_last()).push(entry_name(list.last()))
    } else {
        names_among(list.drop_last())
    }
}

/// The guards that a guard-reference annotation with the arguments `tokens`
/// refers to, in the order in which they are written; or, where an entry
/// may not stand in the list, the first such entry, blanks at both ends
/// aside.
pub open spec fn referenced_guards(tokens: Seq<char>) -> Result<Seq<Seq<char>>, Seq<char>> {
    match faulty_entry(entries(tokens)) {
        Some(entry) => Err(trimmed(entry)),
        None => Ok(names_among(entries(tokens))),
    }
}

/// The view of the outcome of reading a list of references.
pub open spec fn references_view(r: Result<Vec<String>, String>) -> Result<
    Seq<Seq<char>>,
    Seq<char>,
> {
    match r {
        Ok(names) => Ok(texts(names@)),
        Err(entry) => Err(entry@),
    }
}

/// The entries and the nesting of a text that continues with one more
/// character.
pub proof fn lemma_entries_push(s: Seq<char>, c: char)
    ensures
        entries(s).len() > 0,
        entries(s.push(c)) == if c == ',' && nesting(s) == 0 {
            entries(s).push(Seq::empty())
        } else {
            entries(s).drop_last().push(entries(s).last().push(c))
        },
        nesting(s.push(c)) == if opens(c) {
            nesting(s) + 1
        } else if closes(c) && nesting(s) > 0 {
            (nesting(s) - 1) as nat
        } else {
            nesting(s)
        },
        nesting(s) <= s.len(),
    decreases s.len(),
{
    if s.len() > 0 {
        lemma_entries_push(s.drop_last(), s.last());
        assert(s.drop_last().push(s.last()) =~= s);
    }
    assert(s.push(c).drop_last() =~= s);
}

/// The names among a list that continues with one more entry.
pub proof fn lemma_names_among_push(list: Seq<Seq<char>>, entry: Seq<char>)
    ensures
        names_among(list.push(entry)) == if entry_name(entry).len() > 0 {
            names_among(list).push(entry_name(entry))
        } else {
            names_among(list)
        },
{
    assert(list.push(entry).drop_last() =~= list);
}

/// The bounds of the name of the entry `chars[from..to]`; what stands
/// behind the name reaches from its end to `to`.
fn name_range(chars: &Vec<char>, from: usize, to: usize, blank: &Vec<char>) -> (r: (usize, usize))
    requires
        from <= to <= chars.len(),
        blank@ == blanks(),
    ensures
        from <= r.0 <= r.1 <= to,
        chars@.subrange(r.0 as int, r.1 as int) == entry_name(
            chars@.subrange(from as int, to as int),
        ),
        chars@.subrange(r.1 as int, to as int) == after_name(
            chars@.subrange(from as int, to as int),
        ),
{
    let ghost entry = chars@.subrange(from as int, to as int);
    let mut a: usize = from;
    while a < to && occurs_in(chars[a], blank)
        invariant
            from <= a <= to <= chars.len(),
            blank@ == blanks(),
            entry == chars@.subrange(from as int, to as int),
            forall|j: int| 0 <= j < a - from ==> blanks().contains(#[trigger] entry[j]),
        decreases to - a,
    {
        proof {
            assert(entry[a - from] == chars@[a as int]);
        }
        a = a + 1;
    }
    proof {
        if a < to {
            assert(entry[a - from] == chars@[a as int]);
        }
        lemma_without_leading(entry, blanks(), a - from);
        assert(entry.skip(a - from) =~= chars@.subrange(a as int, to as int));
    }
    let ghost rest = chars@.subrange(a as int, to as int);
    let mut b: usize = a;
    while b < to && !(occurs_in(chars[b], blank) || chars[b] == '(' || chars[b] == '[' || chars[b]
        == '{')
        invariant
            a <= b <= to <= chars.len(),
            blank@ == blanks(),
            rest == chars@.subrange(a as int, to as int),
            forall|j: int| 0 <= j < b - a ==> !ends_name()(#[trigger] rest[j]),
        decreases to - b,
    {
        proof {
            assert(rest[b - a] == chars@[b as int]);
        }
        b = b + 1;
    }
    proof {
        if b < to {
            assert(rest[b - a] == chars@[b as int]);
        }
        lemma_first_where(rest, ends_name(), b - a);
        assert(rest.take(b - a) =~= chars@.subrange(a as int, b as int));
        assert(rest.skip(b - a) =~= chars@.subrange(b as int, to as int));
    }
    (a, b)
}

/// Whether `c` may stand in a name.
fn may_stand_in_name(c: char) -> (r: bool)
    ensures
        r == is_name_char(c),
{
    (c >= 'a' && c <= 'z') || (c >= 'A' && c <= 'Z') || (c >= '0' && c <= '9') || c == '_' || c
        > '\u{7f}'
}

/// Whether the entry `chars[from..to]` refers to a guard.
fn refers_to_guard(chars: &Vec<char>, from: usize, to: usize, blank: &Vec<char>) -> (r: bool)
    requires
        from <= to <= chars.len(),
        blank@ == blanks(),
    ensures
        r == is_reference(chars@.subrange(from as int, to as int)),
{
    let ghost entry = chars@.subrange(from as int, to as int);
    let (a, b) = name_range(chars, from, to, blank);
    let ghost name = chars@.subrange(a as int, b as int);
    if a == b {
        return false;
    }
    proof {
        assert(name[0] == chars@[a as int]);
    }
    if chars[a] >= '0' && chars[a] <= '9' {
        return false;
    }
    let mut i: usize = a;
    while i < b
        invariant
            from <= a <= i <= b <= to <= chars.len(),
            name == chars@.subrange(a as int, b as int),
            name == entry_name(chars@.subrange(from as int, to as int)),
            forall|j: int| 0 <= j < i - a ==> is_name_char(#[trigger] name[j]),
        decreases b - i,
    {
        if !may_stand_in_name(chars[i]) {
            proof {
                assert(name[i - a] == chars@[i as int]);
            }
            return false;
        }
        proof {
            assert(name[i - a] == chars@[i as int]);
        }
        i = i + 1;
    }
    let (c, d) = trim_range(chars, b, to, blank);
    let ghost tail = chars@.subrange(c as int, d as int);
    if c == d {
        return true;
    }
    proof {
        assert(tail[0] == chars@[c as int]);
        assert(tail.last() == chars@[d - 1]);
    }
    d - c >= 2 && chars[c] == '(' && chars[d - 1] == ')'
}

/// The bounds of the entries of `chars`, in order.
fn entry_ranges(chars: &Vec<char>) -> (ranges: Vec<(usize, usize)>)
    ensures
        ranges@.len() == entries(chars@).len(),
        ranges@.len() > 0,
        forall|j: int|
            0 <= j < ranges@.len() ==> (#[trigger] ranges@[j]).0 <= ranges@[j].1 <= chars@.len()
                && chars@.subrange(ranges@[j].0 as int, ranges@[j].1 as int) == entries(
                chars@,
            )[j],
{
    let n = chars.len();
    let mut ranges: Vec<(usize, usize)> = Vec::new();
    let mut depth: usize = 0;
    let mut start: usize = 0;
    let mut i: usize = 0;
    proof {
        assert(chars@.take(0) =~= Seq::<char>::empty());
        assert(entries(chars@.take(0)) =~= seq![Seq::<char>::empty()]);
        assert(chars@.subrange(0, 0) =~= Seq::<char>::empty());
    }
    while i < n
        invariant
            n == chars.len(),
            start <= i <= n,
            depth == nesting(chars@.take(i as int)),
            depth <= i,
            entries(chars@.take(i as int)).len() == ranges@.len() + 1,
            entries(chars@.take(i as int)).last() == chars@.subrange(start as int, i as int),
            forall|j: int|
                0 <= j < ranges@.len() ==> (#[trigger] ranges@[j]).0 <= ranges@[j].1 <= n
                    && chars@.subrange(ranges@[j].0 as int, ranges@[j].1 as int) == entries(
                    chars@.take(i as int),
                )[j],
        decreases n - i,
    {
        let ghost before = entries(chars@.take(i as int));
        let c = chars[i];
        proof {
            lemma_entries_push(chars@.take(i as int), c);
            assert(chars@.take(i as int).push(c) =~= chars@.take(i + 1));
        }
        if c == ',' && depth == 0 {
            ranges.push((start, i));
            start = i + 1;
            proof {
                assert(chars@.subrange(start as int, i + 1) =~= Seq::<char>::empty());
                let after = entries(chars@.take(i + 1));
                assert forall|j: int| 0 <= j < ranges@.len() implies (#[trigger] ranges@[j]).0
                    <= ranges@[j].1 <= n && chars@.subrange(
                    ranges@[j].0 as int,
                    ranges@[j].1 as int,
                ) == after[j] by {
                    assert(after[j] == before[j]);
                }
            }
        } else {
            proof {
                let after = entries(chars@.take(i + 1));
                assert(chars@.subrange(start as int, i as int).push(c) =~= chars@.subrange(
                    start as int,
                    i + 1,
                ));
                assert forall|j: int| 0 <= j < ranges@.len() implies (#[trigger] ranges@[j]).0
                    <= ranges@[j].1 <= n && chars@.subrange(
                    ranges@[j].0 as int,
                    ranges@[j].1 as int,
                ) == after[j] by {
                    assert(after[j] == before[j]);
                }
            }
            if c == '(' || c == '[' || c == '{' {
                depth = depth + 1;
            } else if (c == ')' || c == ']' || c == '}') && depth > 0 {
                depth = depth - 1;
            }
        }
        i = i + 1;
    }
    proof {
        assert(chars@.take(n as int) =~= chars@);
    }
    ranges.push((start, n));
    ranges
}

/// The names of the guards that a guard-reference annotation with the
/// arguments `tokens` refers to, in the order in which they are written.
/// Where an entry is neither a name nor a name with parameters, the first
/// such entry is handed back as the error.
pub fn guard_references(tokens: &str) -> (r: Result<Vec<String>, String>)
    ensures
        references_view(r) == referenced_guards(tokens@),
{
    let chars = chars_of(tokens);
    let blank = blank_chars();
    let ranges = entry_ranges(&chars);
    let ghost list = entries(tokens@);
    let count = ranges.len();
    let mut i: usize = 0;
    while i < count - 1
        invariant
            chars@ == tokens@,
            blank@ == blanks(),
            list == entries(tokens@),
            count == ranges@.len(),
            count == list.len(),
            count > 0,
            i <= count - 1,
            forall|j: int|
                0 <= j < ranges@.len() ==> (#[trigger] ranges@[j]).0 <= ranges@[j].1 <= chars@.len()
                    && chars@.subrange(ranges@[j].0 as int, ranges@[j].1 as int) == list[j],
            forall|j: int| 0 <= j < i ==> !is_no_reference()(#[trigger] list.drop_last()[j]),
        decreases count - i,
    {
        let (from, to) = ranges[i];
        proof {
            assert(list.drop_last()[i as int] == list[i as int]);
        }
        if !refers_to_guard(&chars, from, to, &blank) {
            let (c, d) = trim_range(&chars, from, to, &blank);
            proof {
                lemma_first_where(list.drop_last(), is_no_reference(), i as int);
            }
            return Err(slice_of(tokens, c, d));
        }
        i = i + 1;
    }
    proof {
        lemma_first_where(list.drop_last(), is_no_reference(), count - 1);
    }
    let (from, to) = ranges[count - 1];
    let (c, d) = trim_range(&chars, from, to, &blank);
    if !(refers_to_guard(&chars, from, to, &blank) || c == d) {
        return Err(slice_of(tokens, c, d));
    }
    let mut names: Vec<String> = Vec::new();
    let mut k: usize = 0;
    proof {
        assert(list.take(0) =~= Seq::<Seq<char>>::empty());
        assert(texts(names@) =~= Seq::<Seq<char>>::empty());
    }
    while k < count
        invariant
            chars@ == tokens@,
            blank@ == blanks(),
            count == ranges@.len(),
            count == list.len(),
            k <= count,
            forall|j: int|
                0 <= j < ranges@.len() ==> (#[trigger] ranges@[j]).0 <= ranges@[j].1 <= chars@.len()
                    && chars@.subrange(ranges@[j].0 as int, ranges@[j].1 as int) == list[j],
            texts(names@) == names_among(list.take(k as int)),
        decreases count - k,
    {
        let (from, to) = ranges[k];
        let (a, b) = name_range(&chars, from, to, &blank);
        proof {
            lemma_names_among_push(list.take(k as int), list[k as int]);
            assert(list.take(k as int).push(list[k as int]) =~= list.take(k + 1));
        }
        if b > a {
            let name = slice_of(tokens, a, b);
            proof {
                lemma_texts_push(names@, name);
            }
            names.push(name);
        }
        k = k + 1;
    }
    proof {
        assert(list.take(count as int) =~= list);
    }
    Ok(names)
}

/// The blanks are the space, the tab, the line feed and the return.
pub proof fn lemma_blanks(c: char)
    ensures
        blanks().contains(c) <==> (c == ' ' || c == '\t' || c == '\n' || c == '\r'),
{
    if blanks().contains(c) {
        let i = choose|i: int| 0 <= i < blanks().len() && blanks()[i] == c;
        assert(blanks()[i] == c);
    }
    assert(blanks()[0] == ' ');
    assert(blanks()[1] == '\t');
    assert(blanks()[2] == '\n');
    assert(blanks()[3] == '\r');
}

/// Whether `s` is made of blanks alone.
pub open spec fn is_blank_text(s: Seq<char>) -> bool {
    forall|i: int| 0 <= i < s.len() ==> blanks().contains(#[trigger] s[i])
}

/// Whether `s` holds no comma and no delimiter.
pub open spec fn is_flat(s: Seq<char>) -> bool {
    forall|i: int| 0 <= i < s.len() ==> (#[trigger] s[i]) != ',' && !opens(s[i]) && !closes(s[i])
}

/// A flat text is one entry, and no group is open at its end.
pub proof fn lemma_flat_text_is_one_entry(s: Seq<char>)
    requires
        is_flat(s),
    ensures
        entries(s) == seq![s],
        nesting(s) == 0,
    decreases s.len(),
{
    if s.len() == 0 {
        assert(s =~= Seq::<char>::empty());
    } else {
        let before = s.drop_last();
        assert forall|i: int| 0 <= i < before.len() implies (#[trigger] before[i]) != ','
            && !opens(before[i]) && !closes(before[i]) by {
            assert(before[i] == s[i]);
        }
        lemma_flat_text_is_one_entry(before);
        assert(s[s.len() - 1] == s.last());
        assert(entries(s) =~= seq![s]) by {
            assert(seq![before].drop_last().push(seq![before].last().push(s.last())) =~= seq![
                before.push(s.last()),
            ]);
            assert(before.push(s.last()) =~= s);
        }
    }
}

/// A flat text behind a comma that stands outside every group is one more
/// entry.
pub proof fn lemma_flat_text_is_one_more_entry(head: Seq<char>, item: Seq<char>)
    requires
        nesting(head) == 0,
        is_flat(item),
    ensures
        entries(head + seq![','] + item) == entries(head).push(item),
        nesting(head + seq![','] + item) == 0,
    decreases item.len(),
{
    if item.len() == 0 {
        lemma_entries_push(head, ',');
        assert(head + seq![','] + item =~= head.push(','));
        assert(item =~= Seq::<char>::empty());
    } else {
        let before = item.drop_last();
        let c = item[item.len() - 1];
        assert(c == item.last());
        assert forall|i: int| 0 <= i < before.len() implies (#[trigger] before[i]) != ','
            && !opens(before[i]) && !closes(before[i]) by {
            assert(before[i] == item[i]);
        }
        lemma_flat_text_is_one_more_entry(head, before);
        let text = head + seq![','] + before;
        lemma_entries_push(text, c);
        assert(text.push(c) =~= head + seq![','] + item);
        assert(entries(head).push(before).drop_last() =~= entries(head));
        assert(before.push(c) =~= item);
    }
}

/// Flat items joined by commas are read as exactly those items.
pub proof fn lemma_entries_of_joined(items: Seq<Seq<char>>)
    requires
        items.len() > 0,
        forall|i: int| 0 <= i < items.len() ==> is_flat(#[trigger] items[i]),
    ensures
        entries(join(items, seq![','])) == items,
        nesting(join(items, seq![','])) == 0,
    decreases items.len(),
{
    if items.len() == 1 {
        lemma_flat_text_is_one_entry(items[0]);
        assert(seq![items[0]] =~= items);
    } else {
        let rest = items.drop_last();
        assert forall|i: int| 0 <= i < rest.len() implies is_flat(#[trigger] rest[i]) by {
            assert(rest[i] == items[i]);
        }
        lemma_entries_of_joined(rest);
        assert(is_flat(items[items.len() - 1]));
        lemma_flat_text_is_one_more_entry(join(rest, seq![',']), items.last());
        assert(rest.push(items.last()) =~= items);
    }
}

/// A name between blanks is a reference to that name.
pub proof fn lemma_padded_name_is_reference(left: Seq<char>, name: Seq<char>, right: Seq<char>)
    requires
        is_identifier(name),
        is_blank_text(left),
        is_blank_text(right),
    ensures
        entry_name(left + name + right) == name,
        is_reference(left + name + right),
        is_flat(left + name + right),
{
    let entry = left + name + right;
    assert forall|c: char| is_name_char(c) implies !ends_name()(c) && c != ',' && !closes(c) by {
        lemma_blanks(c);
    }
    assert forall|c: char| blanks().contains(c) implies ends_name()(c) && c != ',' && !opens(c)
        && !closes(c) by {
        lemma_blanks(c);
    }
    assert forall|j: int| 0 <= j < left.len() implies blanks().contains(#[trigger] entry[j]) by {
        assert(entry[j] == left[j]);
    }
    assert(entry[left.len() as int] == name[0]);
    assert(is_name_char(name[0]));
    lemma_without_leading(entry, blanks(), left.len() as int);
    let rest = entry.skip(left.len() as int);
    assert(rest =~= name + right);
    assert forall|j: int| 0 <= j < name.len() implies !ends_name()(#[trigger] rest[j]) by {
        assert(rest[j] == name[j]);
        assert(is_name_char(name[j]));
    }
    if right.len() > 0 {
        assert(rest[name.len() as int] == right[0]);
        assert(blanks().contains(right[0]));
    }
    lemma_first_where(rest, ends_name(), name.len() as int);
    assert(rest.take(name.len() as int) =~= name);
    assert(rest.skip(name.len() as int) =~= right);
    lemma_without_leading(right, blanks(), right.len() as int);
    assert(right.skip(right.len() as int) =~= Seq::<char>::empty());
    assert(without_trailing(Seq::<char>::empty(), blanks()) =~= Seq::<
        char,
    >::empty());
    assert(entry_tail(entry).len() == 0);
    assert forall|i: int| 0 <= i < entry.len() implies (#[trigger] entry[i]) != ',' && !opens(
        entry[i],
    ) && !closes(entry[i]) by {
        if i < left.len() {
            assert(entry[i] == left[i]);
            assert(blanks().contains(left[i]));
        } else if i < left.len() + name.len() {
            assert(entry[i] == name[i - left.len()]);
            assert(is_name_char(name[i - left.len()]));
            assert(!ends_name()(name[i - left.len()]));
        } else {
            assert(entry[i] == right[i - left.len() - name.len()]);
            assert(blanks().contains(right[i - left.len() - name.len()]));
        }
    }
}

/// The names among entries that are names between blanks are those names.
pub proof fn lemma_names_among_references(items: Seq<Seq<char>>, names: Seq<Seq<char>>)
    requires
        items.len() == names.len(),
        forall|i: int|
            0 <= i < items.len() ==> entry_name(#[trigger] items[i]) == names[i] && names[i].len()
                > 0,
    ensures
        names_among(items) == names,
    decreases items.len(),
{
    if items.len() == 0 {
        assert(names =~= Seq::<Seq<char>>::empty());
    } else {
        let rest = items.drop_last();
        let rest_names = names.drop_last();
        assert forall|i: int| 0 <= i < rest.len() implies entry_name(#[trigger] rest[i])
            == rest_names[i] && rest_names[i].len() > 0 by {
            assert(rest[i] == items[i]);
            assert(rest_names[i] == names[i]);
        }
        lemma_names_among_references(rest, rest_names);
        assert(entry_name(items[items.len() - 1]) == names[names.len() - 1]);
        assert(rest_names.push(names.last()) =~= names);
    }
}

/// A list of names is read as exactly those names: where `items` are the
/// names `names`, each between blanks, the text of the items joined by
/// commas refers to `names`, one for one and in order.
pub proof fn lemma_listed_names_are_read(
    names: Seq<Seq<char>>,
    left: Seq<Seq<char>>,
    right: Seq<Seq<char>>,
    items: Seq<Seq<char>>,
)
    requires
        left.len() == names.len(),
        right.len() == names.len(),
        items.len() == names.len(),
        forall|i: int|
            0 <= i < names.len() ==> is_identifier(#[trigger] names[i]) && is_blank_text(left[i])
                && is_blank_text(right[i]) && items[i] == left[i] + names[i] + right[i],
    ensures
        referenced_guards(join(items, seq![','])) == Ok::<
            Seq<Seq<char>>,
            Seq<char>,
        >(names),
{
    let text = join(items, seq![',']);
    if names.len() == 0 {
        assert(text =~= Seq::<char>::empty());
        assert(entries(text) =~= seq![Seq::<char>::empty()]);
        let list = entries(text);
        assert(list.drop_last() =~= Seq::<Seq<char>>::empty());
        assert(without_leading(Seq::<char>::empty(), blanks()) =~= Seq::<
            char,
        >::empty());
        assert(without_trailing(Seq::<char>::empty(), blanks()) =~= Seq::<
            char,
        >::empty());
        assert(trimmed(list.last()).len() == 0);
        assert(entry_name(list.last()).len() == 0);
        assert(names_among(list.drop_last()) =~= Seq::<Seq<char>>::empty());
        assert(names_among(list) =~= names);
    } else {
        assert forall|i: int| 0 <= i < items.len() implies is_flat(#[trigger] items[i])
            && is_reference(items[i]) && entry_name(items[i]) == names[i] && names[i].len()
            > 0 by {
            assert(is_identifier(names[i]));
            lemma_padded_name_is_reference(left[i], names[i], right[i]);
        }
        lemma_entries_of_joined(items);
        let rest = items.drop_last();
        assert forall|j: int| 0 <= j < rest.len() implies !is_no_reference()(
            #[trigger] rest[j],
        ) by {
            assert(rest[j] == items[j]);
        }
        lemma_first_where(rest, is_no_reference(), rest.len() as int);
        assert(is_reference(items[items.len() - 1]));
        lemma_names_among_references(items, names);
    }
}

/// Bare names joined by commas are read as exactly those names.
pub proof fn lemma_bare_names_are_read(names: Seq<Seq<char>>)
    requires
        forall|i: int| 0 <= i < names.len() ==> is_identifier(#[trigger] names[i]),
    ensures
        referenced_guards(join(names, seq![','])) == Ok::<
            Seq<Seq<char>>,
            Seq<char>,
        >(names),
{
    let none = Seq::new(names.len(), |i: int| Seq::<char>::empty());
    assert forall|i: int| 0 <= i < names.len() implies is_identifier(#[trigger] names[i])
        && is_blank_text(none[i]) && names[i] == none[i] + names[i] + none[i] by {
        assert(none[i] + names[i] + none[i] =~= names[i]);
    }
    lemma_listed_names_are_read(names, none, none, names);
}

/// A blank text is no entry of its own: it is flat, it names nothing, and
/// nothing is left of it once its blanks are taken off.
pub proof fn lemma_blank_text_names_nothing(tail: Seq<char>)
    requires
        is_blank_text(tail),
    ensures
        is_flat(tail),
        trimmed(tail).len() == 0,
        entry_name(tail).len() == 0,
{
    assert forall|i: int| 0 <= i < tail.len() implies (#[trigger] tail[i]) != ',' && !opens(
        tail[i],
    ) && !closes(tail[i]) by {
        assert(blanks().contains(tail[i]));
        lemma_blanks(tail[i]);
    }
    lemma_without_leading(tail, blanks(), tail.len() as int);
    assert(tail.skip(tail.len() as int) =~= Seq::<char>::empty());
    assert(without_trailing(Seq::<char>::empty(), blanks()) =~= Seq::<
        char,
    >::empty());
}

/// A comma behind the last name changes nothing: where `items` are the
/// names `names`, each between blanks, and `tail` is blank, the text of the
/// items joined by commas, a comma and `tail` refers to `names`, one for
/// one and in order.
pub proof fn lemma_trailing_comma_is_allowed(
    names: Seq<Seq<char>>,
    left: Seq<Seq<char>>,
    right: Seq<Seq<char>>,
    items: Seq<Seq<char>>,
    tail: Seq<char>,
)
    requires
        names.len() > 0,
        left.len() == names.len(),
        right.len() == names.len(),
        items.len() == names.len(),
        forall|i: int|
            0 <= i < names.len() ==> is_identifier(#[trigger] names[i]) && is_blank_text(left[i])
                && is_blank_text(right[i]) && items[i] == left[i] + names[i] + right[i],
        is_blank_text(tail),
    ensures
        referenced_guards(join(items, seq![',']) + seq![','] + tail) == Ok::<
            Seq<Seq<char>>,
            Seq<char>,
        >(names),
{
    let head = join(items, seq![',']);
    assert forall|i: int| 0 <= i < items.len() implies is_flat(#[trigger] items[i])
        && is_reference(items[i]) && entry_name(items[i]) == names[i] && names[i].len() > 0 by {
        assert(is_identifier(names[i]));
        lemma_padded_name_is_reference(left[i], names[i], right[i]);
    }
    lemma_entries_of_joined(items);
    lemma_blank_text_names_nothing(tail);
    lemma_flat_text_is_one_more_entry(head, tail);
    let list = items.push(tail);
    assert(list.drop_last() =~= items);
    assert forall|j: int| 0 <= j < items.len() implies !is_no_reference()(#[trigger] items[j]) by {
        assert(is_reference(items[j]));
    }
    lemma_first_where(items, is_no_reference(), items.len() as int);
    lemma_names_among_references(items, names);
    lemma_names_among_push(items, tail);
}

} // verus!
