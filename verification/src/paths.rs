//! From a file's place under a root directory to the symbolic path by which
//! generated code names a declaration of that file.
//!
//! A path is read as fields separated by `/`. Empty fields and `.` fields
//! carry no meaning and are passed over, but for a `.` with which a path
//! that does not start at the root begins: that one is a component of its
//! own. What is left are the path's components. The components `.` and `..`
//! count when two paths are compared and are passed over when a module is
//! named.

use vstd::prelude::*;
use crate::errors::{DiscoveryError, DiscoveryErrorView};
use crate::text::{
    chars_of, ends_with, ends_with_chars, fields, join, join_texts, lemma_fields_push,
    lemma_texts_push, same_text, slice_of, strip_suffix, texts,
};

verus! {

/// The namespace under which guard declarations are reachable.
pub const GUARD_BASE_DIR: &'static str = "guards";

/// The namespace under which route declarations are reachable.
pub const ROUTE_BASE_DIR: &'static str = "routes";

/// What separates the segments of a written module path.
pub const SEPARATOR: &'static str = "::";

/// The extension of a source file, dot included.
pub const SOURCE_SUFFIX: &'static str = ".rs";

/// A field of a path that names something: not empty and not `.`.
pub open spec fn is_meaningful(part: Seq<char>) -> bool {
    part.len() > 0 && part != seq!['.']
}

/// The component `.`.
pub open spec fn dot() -> Seq<char> {
    seq!['.']
}

/// A component that names a directory or a file: anything but `.` and
/// `..`.
pub open spec fn is_normal(part: Seq<char>) -> bool {
    part != seq!['.', '.'] && part != dot()
}

/// Those of `parts` that are meaningful, in order.
pub open spec fn meaningful(parts: Seq<Seq<char>>) -> Seq<Seq<char>>
    decreases parts.len(),
{
    if parts.len() == 0 {
        Seq::empty()
    } else if is_meaningful(parts.last()) {
        meaningful(parts.drop_last()).push(parts.last())
    } else {
        meaningful(parts.drop_last())
    }
}

/// Those of `parts` that are normal, in order.
pub open spec fn normal(parts: Seq<Seq<char>>) -> Seq<Seq<char>>
    decreases parts.len(),
{
    if parts.len() == 0 {
        Seq::empty()
    } else if is_normal(parts.last()) {
        normal(parts.drop_last()).push(parts.last())
    } else {
        normal(parts.drop_last())
    }
}

/// The meaningful fields of a path.
pub open spec fn named_fields(path: Seq<char>) -> Seq<Seq<char>> {
    meaningful(fields(path, '/'))
}

/// Whether a path begins with the field `.`: it is `.`, or it starts with
/// `./`.
pub open spec fn leads_with_dot(path: Seq<char>) -> bool {
    path.len() > 0 && path[0] == '.' && (path.len() == 1 || path[1] == '/')
}

/// The components of a path: its meaningful fields, behind a `.` where the
/// path begins with one.
pub open spec fn components(path: Seq<char>) -> Seq<Seq<char>> {
    if leads_with_dot(path) {
        seq![dot()] + named_fields(path)
    } else {
        named_fields(path)
    }
}

/// Whether a path starts at the file system's root.
pub open spec fn is_rooted(path: Seq<char>) -> bool {
    path.len() > 0 && path[0] == '/'
}

/// Whether `path` lies under `base`, component by component. Nothing is
/// looked up on disk.
pub open spec fn is_under(path: Seq<char>, base: Seq<char>) -> bool {
    &&& is_rooted(path) == is_rooted(base)
    &&& components(base).is_prefix_of(components(path))
}

/// The components that lead from `base` to `path`.
pub open spec fn relative(path: Seq<char>, base: Seq<char>) -> Seq<Seq<char>> {
    components(path).skip(components(base).len() as int)
}

/// `parts` with the source suffix taken off the last of them only.
pub open spec fn strip_last(parts: Seq<Seq<char>>) -> Seq<Seq<char>> {
    if parts.len() == 0 {
        parts
    } else {
        parts.drop_last().push(strip_suffix(parts.last(), SOURCE_SUFFIX@))
    }
}

/// The segments by which a declaration named `leaf` is reached: the root
/// label, the normal components that lead to its file, the file's name
/// without the source suffix, and the declaration's own name.
pub open spec fn module_segments(
    root: Seq<char>,
    relative: Seq<Seq<char>>,
    leaf: Seq<char>,
) -> Seq<Seq<char>> {
    seq![root] + strip_last(normal(relative)) + seq![leaf]
}

/// The failure that reports `path` as lying outside the root.
pub open spec fn outside_root(path: Seq<char>) -> DiscoveryErrorView {
    DiscoveryErrorView::PathOutsideRoot { path }
}

/// The module that the file reached by `parts` holds, written out: the
/// normal components among `parts`, the last of them without the source
/// suffix, joined by `::`.
pub open spec fn module_text(parts: Seq<Seq<char>>) -> Seq<char> {
    join(strip_last(normal(parts)), SEPARATOR@)
}

/// The module that a file at the relative path `path` holds, written out.
pub open spec fn file_module(path: Seq<char>) -> Seq<char> {
    module_text(components(path))
}

/// The meaningful fields of a sequence that continues with one more field.
pub proof fn lemma_meaningful_push(parts: Seq<Seq<char>>, part: Seq<char>)
    ensures
        meaningful(parts.push(part)) == if is_meaningful(part) {
            meaningful(parts).push(part)
        } else {
            meaningful(parts)
        },
{
    assert(parts.push(part).drop_last() =~= parts);
}

/// The normal components of a sequence that continues with one more
/// component.
pub proof fn lemma_normal_push(parts: Seq<Seq<char>>, part: Seq<char>)
    ensures
        normal(parts.push(part)) == if is_normal(part) {
            normal(parts).push(part)
        } else {
            normal(parts)
        },
{
    assert(parts.push(part).drop_last() =~= parts);
}

/// Whether the characters `from..to` of `chars` make a meaningful field.
fn is_meaningful_range(chars: &Vec<char>, from: usize, to: usize) -> (r: bool)
    requires
        from <= to <= chars.len(),
    ensures
        r == is_meaningful(chars@.subrange(from as int, to as int)),
{
    if to == from {
        false
    } else if to - from == 1 && chars[from] == '.' {
        proof {
            assert(chars@.subrange(from as int, to as int) =~= seq!['.']);
        }
        false
    } else {
        proof {
            let part = chars@.subrange(from as int, to as int);
            if part.len() == 1 {
                assert(part[0] == chars@[from as int]);
                assert(seq!['.'][0] == '.');
            }
        }
        true
    }
}

/// Whether `path` begins with the field `.`.
fn begins_with_dot(path: &str) -> (r: bool)
    ensures
        r == leads_with_dot(path@),
{
    let n = path.unicode_len();
    n > 0 && path.get_char(0) == '.' && (n == 1 || path.get_char(1) == '/')
}

/// The components of `path`, in order.
pub fn split_path(path: &str) -> (parts: Vec<String>)
    ensures
        texts(parts@) == components(path@),
{
    let mut named = split_fields(path);
    if begins_with_dot(path) {
        let mut parts: Vec<String> = Vec::new();
        parts.push(slice_of(path, 0, 1));
        proof {
            assert(path@.subrange(0, 1) =~= dot());
            assert(texts(parts@) =~= seq![dot()]);
            assert(texts(parts@ + named@) =~= texts(parts@) + texts(named@));
        }
        parts.append(&mut named);
        parts
    } else {
        named
    }
}

/// The meaningful fields of `path`, in order.
fn split_fields(path: &str) -> (parts: Vec<String>)
    ensures
        texts(parts@) == named_fields(path@),
{
    let chars = chars_of(path);
    let n = chars.len();
    let mut parts: Vec<String> = Vec::new();
    let mut start: usize = 0;
    let mut i: usize = 0;
    proof {
        assert(chars@.take(0) =~= Seq::<char>::empty());
        assert(fields(chars@.take(0), '/') =~= seq![Seq::<char>::empty()]);
        assert(fields(chars@.take(0), '/').drop_last() =~= Seq::<Seq<char>>::empty());
        assert(chars@.subrange(0, 0) =~= Seq::<char>::empty());
        assert(texts(parts@) =~= Seq::<Seq<char>>::empty());
    }
    while i < n
        invariant
            chars@ == path@,
            n == chars.len(),
            start <= i <= n,
            fields(chars@.take(i as int), '/').len() > 0,
            fields(chars@.take(i as int), '/').last() == chars@.subrange(start as int, i as int),
            texts(parts@) == meaningful(fields(chars@.take(i as int), '/').drop_last()),
        decreases n - i,
    {
        let ghost before = fields(chars@.take(i as int), '/');
        proof {
            lemma_fields_push(chars@.take(i as int), chars@[i as int], '/');
            assert(chars@.take(i as int).push(chars@[i as int]) =~= chars@.take(i + 1));
        }
        if chars[i] == '/' {
            proof {
                assert(before.push(Seq::empty()).drop_last() =~= before);
                assert(before.drop_last().push(before.last()) =~= before);
                lemma_meaningful_push(before.drop_last(), before.last());
            }
            if is_meaningful_range(&chars, start, i) {
                let part = slice_of(path, start, i);
                proof {
                    lemma_texts_push(parts@, part);
                }
                parts.push(part);
            }
            start = i + 1;
            proof {
                assert(chars@.subrange(start as int, i + 1) =~= Seq::<char>::empty());
            }
        } else {
            proof {
                let after = before.drop_last().push(before.last().push(chars@[i as int]));
                assert(after.drop_last() =~= before.drop_last());
                assert(chars@.subrange(start as int, i as int).push(chars@[i as int])
                    =~= chars@.subrange(start as int, i + 1));
            }
        }
        i = i + 1;
    }
    proof {
        let all = fields(chars@.take(n as int), '/');
        assert(chars@.take(n as int) =~= chars@);
        assert(all.drop_last().push(all.last()) =~= all);
        lemma_meaningful_push(all.drop_last(), all.last());
    }
    if is_meaningful_range(&chars, start, n) {
        let part = slice_of(path, start, n);
        proof {
            lemma_texts_push(parts@, part);
        }
        parts.push(part);
    }
    parts
}

/// Whether `path` starts at the file system's root.
pub fn starts_at_root(path: &str) -> (r: bool)
    ensures
        r == is_rooted(path@),
{
    let n = path.unicode_len();
    n > 0 && path.get_char(0) == '/'
}


/// Whether `part` is the component `.` or the component `..`.
fn is_special(part: &str) -> (r: bool)
    ensures
        r == !is_normal(part@),
{
    let chars = chars_of(part);
    if chars.len() == 2 && chars[0] == '.' && chars[1] == '.' {
        proof {
            assert(part@ =~= seq!['.', '.']);
        }
        true
    } else if chars.len() == 1 && chars[0] == '.' {
        proof {
            assert(part@ =~= dot());
        }
        true
    } else {
        proof {
            if part@ == seq!['.', '.'] {
                assert(seq!['.', '.'].len() == 2);
                assert(seq!['.', '.'][0] == '.');
                assert(seq!['.', '.'][1] == '.');
            }
            if part@ == dot() {
                assert(dot().len() == 1);
                assert(dot()[0] == '.');
            }
        }
        false
    }
}

/// Those of `parts` that are normal, in order.
pub fn normal_components(parts: &Vec<String>) -> (r: Vec<String>)
    ensures
        texts(r@) == normal(texts(parts@)),
{
    let mut out: Vec<String> = Vec::new();
    let mut i: usize = 0;
    proof {
        assert(texts(out@) =~= Seq::<Seq<char>>::empty());
        assert(texts(parts@).take(0) =~= Seq::<Seq<char>>::empty());
    }
    while i < parts.len()
        invariant
            i <= parts.len(),
            texts(out@) == normal(texts(parts@).take(i as int)),
        decreases parts.len() - i,
    {
        proof {
            lemma_normal_push(texts(parts@).take(i as int), parts@[i as int]@);
            assert(texts(parts@).take(i as int).push(parts@[i as int]@) =~= texts(parts@).take(
                i + 1,
            ));
        }
        if !is_special(parts[i].as_str()) {
            let part = parts[i].clone();
            proof {
                lemma_texts_push(out@, part);
            }
            out.push(part);
        }
        i = i + 1;
    }
    proof {
        assert(texts(parts@).take(parts.len() as int) =~= texts(parts@));
    }
    out
}

/// `name` without the source suffix, or `name` itself where it has none.
pub fn strip_source_suffix(name: &str) -> (r: String)
    ensures
        r@ == strip_suffix(name@, SOURCE_SUFFIX@),
{
    let chars = chars_of(name);
    let suffix = chars_of(SOURCE_SUFFIX);
    if ends_with_chars(&chars, &suffix) {
        slice_of(name, 0, chars.len() - suffix.len())
    } else {
        name.to_owned()
    }
}

/// The components that lead from `base` to `path`, where `path` lies under
/// `base`.
pub fn relative_components(path: &str, base: &str) -> (r: Option<Vec<String>>)
    ensures
        match r {
            Some(parts) => is_under(path@, base@) && texts(parts@) == relative(path@, base@),
            None => !is_under(path@, base@),
        },
{
    if starts_at_root(path) != starts_at_root(base) {
        return None;
    }
    let whole = split_path(path);
    let prefix = split_path(base);
    if prefix.len() > whole.len() {
        return None;
    }
    let mut i: usize = 0;
    while i < prefix.len()
        invariant
            i <= prefix.len() <= whole.len(),
            texts(whole@) == components(path@),
            texts(prefix@) == components(base@),
            forall|j: int| 0 <= j < i ==> prefix@[j]@ == whole@[j]@,
        decreases prefix.len() - i,
    {
        if prefix[i] != whole[i] {
            proof {
                assert(texts(prefix@)[i as int] == prefix@[i as int]@);
                assert(texts(whole@)[i as int] == whole@[i as int]@);
                assert(texts(whole@).subrange(0, prefix.len() as int)[i as int] == texts(
                    whole@,
                )[i as int]);
            }
            return None;
        }
        i = i + 1;
    }
    proof {
        assert forall|j: int| 0 <= j < prefix.len() implies texts(prefix@)[j] == texts(
            whole@,
        ).subrange(0, prefix.len() as int)[j] by {
            assert(prefix@[j]@ == whole@[j]@);
        }
        assert(texts(prefix@) =~= texts(whole@).subrange(0, prefix.len() as int));
    }
    let mut rest: Vec<String> = Vec::new();
    let mut k: usize = prefix.len();
    proof {
        assert(texts(rest@) =~= texts(whole@).subrange(prefix.len() as int, k as int));
    }
    while k < whole.len()
        invariant
            prefix.len() <= k <= whole.len(),
            texts(rest@) == texts(whole@).subrange(prefix.len() as int, k as int),
        decreases whole.len() - k,
    {
        let part = whole[k].clone();
        proof {
            lemma_texts_push(rest@, part);
            assert(texts(whole@).subrange(prefix.len() as int, k as int).push(part@) =~= texts(
                whole@,
            ).subrange(prefix.len() as int, k + 1));
        }
        rest.push(part);
        k = k + 1;
    }
    proof {
        assert(texts(whole@).subrange(prefix.len() as int, whole.len() as int) =~= texts(
            whole@,
        ).skip(prefix.len() as int));
    }
    Some(rest)
}


/// Whether `path` lies under `base`, component by component.
pub fn lies_under(path: &str, base: &str) -> (r: bool)
    ensures
        r == is_under(path@, base@),
{
    relative_components(path, base).is_some()
}

/// `parts` with the source suffix taken off the last of them only.
fn strip_last_component(parts: Vec<String>) -> (r: Vec<String>)
    ensures
        texts(r@) == strip_last(texts(parts@)),
{
    let mut parts = parts;
    let ghost before = texts(parts@);
    match parts.pop() {
        Some(name) => {
            let stripped = strip_source_suffix(name.as_str());
            proof {
                assert(texts(parts@) =~= before.drop_last());
                lemma_texts_push(parts@, stripped);
            }
            parts.push(stripped);
        },
        None => {},
    }
    parts
}

/// The module held by the file that `parts` lead to, written out.
fn module_of_components(parts: &Vec<String>) -> (r: String)
    ensures
        r@ == module_text(texts(parts@)),
{
    let named = normal_components(parts);
    let stripped = strip_last_component(named);
    join_texts(&stripped, SEPARATOR)
}

/// Writes the module that the file at the relative path `file_path` holds:
/// its normal components, the last of them without the source suffix,
/// joined by `::`.
pub fn calculate_module_path_from_file_path(file_path: &str) -> (r: String)
    ensures
        r@ == file_module(file_path@),
{
    let parts = split_path(file_path);
    module_of_components(&parts)
}

/// Writes the module that the file at `file_path` holds, seen from
/// `route_base`, with `module_name` in front where one is given.
pub fn calculate_module_path(file_path: &str, route_base: &str, module_name: Option<&str>) -> (r:
    String)
    requires
        is_under(file_path@, route_base@),
    ensures
        r@ == match module_name {
            Some(root) => root@ + SEPARATOR@ + module_text(relative(file_path@, route_base@)),
            None => module_text(relative(file_path@, route_base@)),
        },
{
    let rest = match relative_components(file_path, route_base) {
        Some(parts) => parts,
        None => Vec::new(),
    };
    let module = module_of_components(&rest);
    match module_name {
        Some(root) => {
            let mut out = root.to_owned();
            out.append(SEPARATOR);
            out.append(module.as_str());
            out
        },
        None => module,
    }
}

/// The symbolic path by which generated code names one declaration.
#[derive(Debug, PartialEq, Eq)]
pub struct ModulePath {
    segments: Vec<String>,
}

impl View for ModulePath {
    type V = Seq<Seq<char>>;

    closed spec fn view(&self) -> Seq<Seq<char>> {
        texts(self.segments@)
    }
}

impl Clone for ModulePath {
    fn clone(&self) -> (r: Self)
        ensures
            r@ == self@,
    {
        proof {
            use_type_invariant(self);
        }
        let mut segments: Vec<String> = Vec::new();
        let mut i: usize = 0;
        while i < self.segments.len()
            invariant
                i <= self.segments.len(),
                segments.len() == i,
                forall|j: int| 0 <= j < i ==> segments@[j]@ == self.segments@[j]@,
            decreases self.segments.len() - i,
        {
            segments.push(self.segments[i].clone());
            i = i + 1;
        }
        proof {
            assert(texts(segments@) =~= texts(self.segments@));
        }
        ModulePath { segments }
    }
}

impl ModulePath {
    /// A module path holds a root label and a declaration's name, and
    /// between them what leads to the declaration's file.
    #[verifier::type_invariant]
    spec fn well_formed(&self) -> bool {
        self.segments@.len() >= 2
    }

    /// The path of the declaration `leaf` found in the file at `path`, which
    /// must lie under `base_dir`; `root` is the namespace that stands for
    /// `base_dir` in generated code.
    pub fn construct_in(path: &str, base_dir: &str, root: &str, leaf: &str) -> (r: Result<
        ModulePath,
        DiscoveryError,
    >)
        ensures
            match r {
                Ok(m) => is_under(path@, base_dir@) && m@ == module_segments(
                    root@,
                    relative(path@, base_dir@),
                    leaf@,
                ),
                Err(e) => !is_under(path@, base_dir@) && e@ == outside_root(path@),
            },
    {
        match relative_components(path, base_dir) {
            None => Err(DiscoveryError::PathOutsideRoot { path: path.to_owned() }),
            Some(parts) => {
                let named = normal_components(&parts);
                let stripped = strip_last_component(named);
                let mut segments: Vec<String> = Vec::new();
                let first = root.to_owned();
                proof {
                    lemma_texts_push(segments@, first);
                    assert(texts(segments@) =~= Seq::<Seq<char>>::empty());
                }
                segments.push(first);
                let mut i: usize = 0;
                proof {
                    assert(texts(segments@) =~= seq![root@] + texts(stripped@).take(0));
                }
                while i < stripped.len()
                    invariant
                        i <= stripped.len(),
                        texts(segments@) == seq![root@] + texts(stripped@).take(i as int),
                    decreases stripped.len() - i,
                {
                    let part = stripped[i].clone();
                    proof {
                        lemma_texts_push(segments@, part);
                        assert((seq![root@] + texts(stripped@).take(i as int)).push(part@) =~= seq![
                            root@,
                        ] + texts(stripped@).take(i + 1));
                    }
                    segments.push(part);
                    i = i + 1;
                }
                let last = leaf.to_owned();
                proof {
                    lemma_texts_push(segments@, last);
                    assert(texts(stripped@).take(stripped.len() as int) =~= texts(stripped@));
                    assert((seq![root@] + texts(stripped@)).push(leaf@) =~= seq![root@] + texts(
                        stripped@,
                    ) + seq![leaf@]);
                }
                segments.push(last);
                Ok(ModulePath { segments })
            },
        }
    }

    /// The path of the guard `module` found in the file at `path`, which must
    /// lie under the guards directory `base_dir`.
    pub fn construct(path: &str, base_dir: &str, module: &str) -> (r: Result<
        ModulePath,
        DiscoveryError,
    >)
        ensures
            match r {
                Ok(m) => is_under(path@, base_dir@) && m@ == module_segments(
                    GUARD_BASE_DIR@,
                    relative(path@, base_dir@),
                    module@,
                ),
                Err(e) => !is_under(path@, base_dir@) && e@ == outside_root(path@),
            },
    {
        ModulePath::construct_in(path, base_dir, GUARD_BASE_DIR, module)
    }

    /// The segments, outermost first: never fewer than two.
    pub fn segments(&self) -> (r: &Vec<String>)
        ensures
            texts(r@) == self@,
            r@.len() >= 2,
    {
        proof {
            use_type_invariant(self);
        }
        &self.segments
    }

    /// The name of the declaration that the path leads to: its last
    /// segment.
    pub fn leaf(&self) -> (r: &str)
        ensures
            self@.len() >= 2,
            r@ == self@.last(),
    {
        proof {
            use_type_invariant(self);
        }
        self.segments[self.segments.len() - 1].as_str()
    }

    /// The path as it is written in program text: its segments joined by `::`.
    pub fn to_string(&self) -> (r: String)
        ensures
            r@ == join(self@, SEPARATOR@),
    {
        join_texts(&self.segments, SEPARATOR)
    }
}


/// The name of an index file, whose declarations only re-export others.
pub const INDEX_FILE: &'static str = "mod.rs";

/// The last component of `path`, where it names a file or a directory.
pub open spec fn file_name(path: Seq<char>) -> Option<Seq<char>> {
    let parts = components(path);
    if parts.len() > 0 && is_normal(parts.last()) {
        Some(parts.last())
    } else {
        None
    }
}

/// Whether `name` is more than the source suffix and ends with it.
pub open spec fn is_source_name(name: Seq<char>) -> bool {
    ends_with(name, SOURCE_SUFFIX@) && name.len() > SOURCE_SUFFIX@.len()
}

/// Whether `path` names a source file.
pub open spec fn is_source_file(path: Seq<char>) -> bool {
    file_name(path) is Some && is_source_name(file_name(path)->0)
}

/// Whether `path` names an index file.
pub open spec fn is_index_file(path: Seq<char>) -> bool {
    file_name(path) == Some(INDEX_FILE@)
}

/// Whether discovery reads the file at `path`: a source file that is no
/// index file.
pub open spec fn is_visited(path: Seq<char>) -> bool {
    is_source_file(path) && !is_index_file(path)
}

/// Whether discovery reads the file at `path`.
pub fn should_visit(path: &str) -> (r: bool)
    ensures
        r == is_visited(path@),
{
    let mut parts = split_path(path);
    let ghost all = texts(parts@);
    match parts.pop() {
        None => false,
        Some(name) => {
            proof {
                assert(all.last() == name@);
            }
            if is_special(name.as_str()) {
                false
            } else {
                let chars = chars_of(name.as_str());
                let suffix = chars_of(SOURCE_SUFFIX);
                ends_with_chars(&chars, &suffix) && chars.len() > suffix.len() && !same_text(
                    name.as_str(),
                    INDEX_FILE,
                )
            }
        },
    }
}


/// A name that ends with the source suffix is its stripped form followed by
/// the suffix, so two such names with one stripped form are one name.
pub proof fn lemma_strip_suffix_injective(a: Seq<char>, b: Seq<char>, suffix: Seq<char>)
    requires
        ends_with(a, suffix),
        ends_with(b, suffix),
        strip_suffix(a, suffix) == strip_suffix(b, suffix),
    ensures
        a == b,
{
    let n = a.len() - suffix.len();
    let m = b.len() - suffix.len();
    assert(a =~= a.subrange(0, n) + a.subrange(n, a.len() as int));
    assert(b =~= b.subrange(0, m) + b.subrange(m, b.len() as int));
}

/// Components that are all normal are kept as they are.
pub proof fn lemma_normal_keeps_normal(parts: Seq<Seq<char>>)
    requires
        forall|i: int| 0 <= i < parts.len() ==> is_normal(#[trigger] parts[i]),
    ensures
        normal(parts) == parts,
    decreases parts.len(),
{
    if parts.len() > 0 {
        lemma_normal_keeps_normal(parts.drop_last());
        assert(parts.drop_last().push(parts.last()) =~= parts);
    }
}

/// Two module paths under one root label are equal exactly when the leaf
/// names are equal and the normal components that lead to the two files are
/// equal once the source suffix is taken off the last of them.
pub proof fn lemma_module_segments_equal(
    root: Seq<char>,
    first: Seq<Seq<char>>,
    first_leaf: Seq<char>,
    second: Seq<Seq<char>>,
    second_leaf: Seq<char>,
)
    ensures
        module_segments(root, first, first_leaf) == module_segments(root, second, second_leaf)
            <==> first_leaf == second_leaf && strip_last(normal(first)) == strip_last(
            normal(second),
        ),
{
    let a = strip_last(normal(first));
    let b = strip_last(normal(second));
    let x = module_segments(root, first, first_leaf);
    let y = module_segments(root, second, second_leaf);
    if x == y {
        assert(x.len() == a.len() + 2);
        assert(y.len() == b.len() + 2);
        assert(x.last() == first_leaf);
        assert(y.last() == second_leaf);
        assert forall|i: int| 0 <= i < a.len() implies a[i] == b[i] by {
            assert(x[i + 1] == a[i]);
            assert(y[i + 1] == b[i]);
        }
        assert(a =~= b);
    }
}

/// Module path construction is injective on source files: where two
/// declarations get the same module path, they have the same name and their
/// files have the same relative path. The relative paths are those of source
/// files, made of normal components.
pub proof fn lemma_module_segments_injective(
    root: Seq<char>,
    first: Seq<Seq<char>>,
    first_leaf: Seq<char>,
    second: Seq<Seq<char>>,
    second_leaf: Seq<char>,
)
    requires
        forall|i: int| 0 <= i < first.len() ==> is_normal(#[trigger] first[i]),
        forall|i: int| 0 <= i < second.len() ==> is_normal(#[trigger] second[i]),
        first.len() > 0 ==> ends_with(first.last(), SOURCE_SUFFIX@),
        second.len() > 0 ==> ends_with(second.last(), SOURCE_SUFFIX@),
        module_segments(root, first, first_leaf) == module_segments(root, second, second_leaf),
    ensures
        first == second,
        first_leaf == second_leaf,
{
    lemma_module_segments_equal(root, first, first_leaf, second, second_leaf);
    lemma_normal_keeps_normal(first);
    lemma_normal_keeps_normal(second);
    let a = strip_last(first);
    let b = strip_last(second);
    assert(a.len() == first.len());
    assert(b.len() == second.len());
    if first.len() > 0 {
        assert(a.last() == strip_suffix(first.last(), SOURCE_SUFFIX@));
        assert(b.last() == strip_suffix(second.last(), SOURCE_SUFFIX@));
        lemma_strip_suffix_injective(first.last(), second.last(), SOURCE_SUFFIX@);
        assert forall|i: int| 0 <= i < first.len() implies first[i] == second[i] by {
            if i < first.len() - 1 {
                assert(a[i] == first.drop_last()[i]);
                assert(b[i] == second.drop_last()[i]);
            }
        }
    }
    assert(first =~= second);
}

/// Every meaningful field is meaningful: none of them is empty, none is
/// `.`.
pub proof fn lemma_meaningful_are_meaningful(parts: Seq<Seq<char>>)
    ensures
        forall|i: int|
            0 <= i < meaningful(parts).len() ==> is_meaningful(#[trigger] meaningful(parts)[i]),
    decreases parts.len(),
{
    if parts.len() > 0 {
        let before = meaningful(parts.drop_last());
        lemma_meaningful_are_meaningful(parts.drop_last());
        assert forall|i: int| 0 <= i < meaningful(parts).len() implies is_meaningful(
            #[trigger] meaningful(parts)[i],
        ) by {
            if i < before.len() {
                assert(meaningful(parts)[i] == before[i]);
            } else {
                assert(meaningful(parts)[i] == parts.last());
            }
        }
    }
}

/// A leading `.` counts when two paths are compared: a path that begins
/// with `.` lies under no base that has components and begins otherwise.
pub proof fn lemma_leading_dot_counts(path: Seq<char>, base: Seq<char>)
    requires
        leads_with_dot(path),
        !leads_with_dot(base),
        components(base).len() > 0,
    ensures
        !is_under(path, base),
{
    lemma_meaningful_are_meaningful(fields(base, '/'));
    assert(is_meaningful(components(base)[0]));
    assert(components(path)[0] == dot());
    if components(base).is_prefix_of(components(path)) {
        assert(components(path).subrange(0, components(base).len() as int)[0] == components(
            base,
        )[0]);
    }
}

/// Whether `part` holds no colon.
pub open spec fn is_colon_free(part: Seq<char>) -> bool {
    forall|i: int| 0 <= i < part.len() ==> (#[trigger] part[i]) != ':'
}

/// The separator is two colons.
pub proof fn lemma_separator()
    ensures
        SEPARATOR@ == seq![':', ':'],
{
    reveal_strlit("::");
    assert(SEPARATOR@ =~= seq![':', ':']);
}

/// Parts without colons are found again in what they are joined to: two
/// sequences of such parts, neither of them empty, that are written alike
/// are one sequence.
pub proof fn lemma_join_injective(first: Seq<Seq<char>>, second: Seq<Seq<char>>)
    requires
        first.len() > 0,
        second.len() > 0,
        forall|i: int| 0 <= i < first.len() ==> is_colon_free(#[trigger] first[i]),
        forall|i: int| 0 <= i < second.len() ==> is_colon_free(#[trigger] second[i]),
        join(first, SEPARATOR@) == join(second, SEPARATOR@),
    ensures
        first == second,
    decreases first.len(),
{
    lemma_separator();
    let sep = SEPARATOR@;
    let text = join(first, sep);
    let a = first.last();
    let b = second.last();
    assert(is_colon_free(first[first.len() - 1]));
    assert(is_colon_free(second[second.len() - 1]));
    if first.len() == 1 && second.len() == 1 {
        assert(first =~= second);
    } else if first.len() == 1 {
        let head = join(second.drop_last(), sep);
        assert(text == head + sep + b);
        assert(text[head.len() as int] == ':');
        assert(text == first[0]);
    } else if second.len() == 1 {
        let head = join(first.drop_last(), sep);
        assert(text == head + sep + a);
        assert(text[head.len() as int] == ':');
        assert(text == second[0]);
    } else {
        let head_a = join(first.drop_last(), sep);
        let head_b = join(second.drop_last(), sep);
        assert(text == head_a + sep + a);
        assert(text == head_b + sep + b);
        assert(text.len() == head_a.len() + 2 + a.len());
        assert(text.len() == head_b.len() + 2 + b.len());
        if a.len() < b.len() {
            let at = (head_a.len() + 1) as int;
            assert((head_a + sep + a)[at] == ':');
            assert((head_b + sep + b)[at] == b[at - head_b.len() - 2]);
        }
        if b.len() < a.len() {
            let at = (head_b.len() + 1) as int;
            assert((head_b + sep + b)[at] == ':');
            assert((head_a + sep + a)[at] == a[at - head_a.len() - 2]);
        }
        assert(a.len() == b.len());
        assert(a =~= b) by {
            assert forall|i: int| 0 <= i < a.len() implies a[i] == b[i] by {
                assert((head_a + sep + a)[head_a.len() + 2 + i] == a[i]);
                assert((head_b + sep + b)[head_b.len() + 2 + i] == b[i]);
            }
        }
        assert(head_a =~= head_b) by {
            assert forall|i: int| 0 <= i < head_a.len() implies head_a[i] == head_b[i] by {
                assert((head_a + sep + a)[i] == head_a[i]);
                assert((head_b + sep + b)[i] == head_b[i]);
            }
        }
        let rest_a = first.drop_last();
        let rest_b = second.drop_last();
        assert forall|i: int| 0 <= i < rest_a.len() implies is_colon_free(#[trigger] rest_a[i]) by {
            assert(rest_a[i] == first[i]);
        }
        assert forall|i: int| 0 <= i < rest_b.len() implies is_colon_free(#[trigger] rest_b[i]) by {
            assert(rest_b[i] == second[i]);
        }
        lemma_join_injective(rest_a, rest_b);
        assert(rest_a.push(a) =~= first);
        assert(rest_b.push(b) =~= second);
    }
}

/// Distinct source files get distinct module texts: where the relative
/// paths of two source files are made of normal components without colons
/// and their modules are written alike, the two paths are one path.
pub proof fn lemma_module_text_injective(first: Seq<Seq<char>>, second: Seq<Seq<char>>)
    requires
        first.len() > 0,
        second.len() > 0,
        forall|i: int|
            0 <= i < first.len() ==> is_normal(#[trigger] first[i]) && is_colon_free(first[i]),
        forall|i: int|
            0 <= i < second.len() ==> is_normal(#[trigger] second[i]) && is_colon_free(second[i]),
        ends_with(first.last(), SOURCE_SUFFIX@),
        ends_with(second.last(), SOURCE_SUFFIX@),
        module_text(first) == module_text(second),
    ensures
        first == second,
{
    lemma_normal_keeps_normal(first);
    lemma_normal_keeps_normal(second);
    let a = strip_last(first);
    let b = strip_last(second);
    assert forall|i: int| 0 <= i < a.len() implies is_colon_free(#[trigger] a[i]) by {
        assert(is_colon_free(first[i]));
        if i == a.len() - 1 {
            let stripped = strip_suffix(first.last(), SOURCE_SUFFIX@);
            assert forall|j: int| 0 <= j < stripped.len() implies (#[trigger] stripped[j])
                != ':' by {
                assert(stripped[j] == first.last()[j]);
            }
        } else {
            assert(a[i] == first[i]);
        }
    }
    assert forall|i: int| 0 <= i < b.len() implies is_colon_free(#[trigger] b[i]) by {
        assert(is_colon_free(second[i]));
        if i == b.len() - 1 {
            let stripped = strip_suffix(second.last(), SOURCE_SUFFIX@);
            assert forall|j: int| 0 <= j < stripped.len() implies (#[trigger] stripped[j])
                != ':' by {
                assert(stripped[j] == second.last()[j]);
            }
        } else {
            assert(b[i] == second[i]);
        }
    }
    lemma_join_injective(a, b);
    assert(a.last() == strip_suffix(first.last(), SOURCE_SUFFIX@));
    assert(b.last() == strip_suffix(second.last(), SOURCE_SUFFIX@));
    lemma_strip_suffix_injective(first.last(), second.last(), SOURCE_SUFFIX@);
    assert forall|i: int| 0 <= i < first.len() implies first[i] == second[i] by {
        if i < first.len() - 1 {
            assert(a[i] == first.drop_last()[i]);
            assert(b[i] == second.drop_last()[i]);
        }
    }
    assert(first =~= second);
}

/// The same holds with a root label in front: what is written behind the
/// label and the separator is found again.
pub proof fn lemma_labelled_module_text_injective(
    root: Seq<char>,
    first: Seq<Seq<char>>,
    second: Seq<Seq<char>>,
)
    requires
        first.len() > 0,
        second.len() > 0,
        forall|i: int|
            0 <= i < first.len() ==> is_normal(#[trigger] first[i]) && is_colon_free(first[i]),
        forall|i: int|
            0 <= i < second.len() ==> is_normal(#[trigger] second[i]) && is_colon_free(second[i]),
        ends_with(first.last(), SOURCE_SUFFIX@),
        ends_with(second.last(), SOURCE_SUFFIX@),
        root + SEPARATOR@ + module_text(first) == root + SEPARATOR@ + module_text(second),
    ensures
        first == second,
{
    let head = root + SEPARATOR@;
    let a = module_text(first);
    let b = module_text(second);
    assert((head + a).skip(head.len() as int) =~= a);
    assert((head + b).skip(head.len() as int) =~= b);
    lemma_module_text_injective(first, second);
}

} // verus!
