//! Character-level helpers shared by the path, annotation and rendering code.
//!
//! Text is modelled as `Seq<char>`; every executable helper here is stated
//! against a spec function over that model.

use vstd::prelude::*;

verus! {

/// The views of a sequence of owned strings.
pub open spec fn texts(v: Seq<String>) -> Seq<Seq<char>> {
    v.map_values(|s: String| s@)
}

/// `parts` written one after another with `sep` between neighbours.
pub open spec fn join(parts: Seq<Seq<char>>, sep: Seq<char>) -> Seq<char>
    decreases parts.len(),
{
    if parts.len() == 0 {
        Seq::empty()
    } else if parts.len() == 1 {
        parts[0]
    } else {
        join(parts.drop_last(), sep) + sep + parts.last()
    }
}

/// The fields of `s` delimited by `sep`: one more field than there are
/// separators, empty fields included.
pub open spec fn fields(s: Seq<char>, sep: char) -> Seq<Seq<char>>
    decreases s.len(),
{
    if s.len() == 0 {
        seq![Seq::empty()]
    } else {
        let before = fields(s.drop_last(), sep);
        if s.last() == sep {
            before.push(Seq::empty())
        } else {
            before.drop_last().push(before.last().push(s.last()))
        }
    }
}

/// The blank characters that may surround a token.
pub open spec fn blanks() -> Seq<char> {
    seq![' ', '\t', '\n', '\r']
}

/// `s` without its leading characters that occur in `set`.
pub open spec fn without_leading(s: Seq<char>, set: Seq<char>) -> Seq<char>
    decreases s.len(),
{
    if s.len() > 0 && set.contains(s[0]) {
        without_leading(s.drop_first(), set)
    } else {
        s
    }
}

/// `s` without its trailing characters that occur in `set`.
pub open spec fn without_trailing(s: Seq<char>, set: Seq<char>) -> Seq<char>
    decreases s.len(),
{
    if s.len() > 0 && set.contains(s.last()) {
        without_trailing(s.drop_last(), set)
    } else {
        s
    }
}

/// `s` with the characters of `set` removed from both ends.
pub open spec fn trim_of(s: Seq<char>, set: Seq<char>) -> Seq<char> {
    without_trailing(without_leading(s, set), set)
}

/// `s` with every leading and trailing `c` removed.
pub open spec fn trim_matches(s: Seq<char>, c: char) -> Seq<char> {
    trim_of(s, seq![c])
}

/// `s` with the blanks at both ends removed.
pub open spec fn trimmed(s: Seq<char>) -> Seq<char> {
    trim_of(s, blanks())
}

/// The index of the first element of `s` that satisfies `p`, or the length
/// of `s` where none does.
pub open spec fn first_where<T>(s: Seq<T>, p: spec_fn(T) -> bool) -> int
    decreases s.len(),
{
    if s.len() == 0 {
        0
    } else if p(s[0]) {
        0
    } else {
        1 + first_where(s.drop_first(), p)
    }
}

/// Whether `s` ends with `suffix`.
pub open spec fn ends_with(s: Seq<char>, suffix: Seq<char>) -> bool {
    s.len() >= suffix.len() && s.subrange(s.len() - suffix.len(), s.len() as int) == suffix
}

/// `s` without `suffix` at its end, or `s` itself where it does not end so.
pub open spec fn strip_suffix(s: Seq<char>, suffix: Seq<char>) -> Seq<char> {
    if ends_with(s, suffix) {
        s.subrange(0, s.len() - suffix.len())
    } else {
        s
    }
}

/// The views of a sequence that continues with one more string.
pub proof fn lemma_texts_push(v: Seq<String>, s: String)
    ensures
        texts(v.push(s)) == texts(v).push(s@),
{
    assert(texts(v.push(s)) =~= texts(v).push(s@));
}

/// Joining a sequence that continues with one more part.
pub proof fn lemma_join_push(parts: Seq<Seq<char>>, sep: Seq<char>, last: Seq<char>)
    ensures
        join(parts.push(last), sep) == if parts.len() == 0 {
            last
        } else {
            join(parts, sep) + sep + last
        },
{
    assert(parts.push(last).drop_last() =~= parts);
}

/// The fields of a text that continues with one more character.
pub proof fn lemma_fields_push(s: Seq<char>, c: char, sep: char)
    ensures
        fields(s, sep).len() > 0,
        fields(s.push(c), sep) == if c == sep {
            fields(s, sep).push(Seq::empty())
        } else {
            fields(s, sep).drop_last().push(fields(s, sep).last().push(c))
        },
    decreases s.len(),
{
    if s.len() > 0 {
        lemma_fields_push(s.drop_last(), s.last(), sep);
        assert(s.drop_last().push(s.last()) =~= s);
    }
    assert(s.push(c).drop_last() =~= s);
}

/// The characters of `s`, one element per character.
pub fn chars_of(s: &str) -> (v: Vec<char>)
    ensures
        v@ == s@,
{
    let mut v: Vec<char> = Vec::new();
    for c in it: s.chars()
        invariant
            v@ == it.seq().take(it.index() as int),
            it.seq() == s@,
    {
        v.push(c);
    }
    v
}

/// Whether two string slices hold the same characters.
pub fn same_text(a: &str, b: &str) -> (r: bool)
    ensures
        r == (a@ == b@),
{
    let x = a.to_owned();
    let y = b.to_owned();
    x == y
}

/// An owned copy of the characters `from..to` of `s`.
pub fn slice_of(s: &str, from: usize, to: usize) -> (r: String)
    requires
        from <= to <= s@.len(),
    ensures
        r@ == s@.subrange(from as int, to as int),
{
    s.substring_char(from, to).to_owned()
}

/// Copies of `parts`, in order.
pub fn clone_texts(parts: &Vec<String>) -> (r: Vec<String>)
    ensures
        texts(r@) == texts(parts@),
{
    let mut out: Vec<String> = Vec::new();
    let mut i: usize = 0;
    while i < parts.len()
        invariant
            i <= parts.len(),
            out.len() == i,
            forall|j: int| 0 <= j < i ==> out@[j]@ == parts@[j]@,
        decreases parts.len() - i,
    {
        out.push(parts[i].clone());
        i = i + 1;
    }
    proof {
        assert(texts(out@) =~= texts(parts@));
    }
    out
}

/// Writes `parts` one after another with `sep` between neighbours.
pub fn join_texts(parts: &Vec<String>, sep: &str) -> (r: String)
    ensures
        r@ == join(texts(parts@), sep@),
{
    let mut out = String::new();
    let mut i: usize = 0;
    while i < parts.len()
        invariant
            i <= parts.len(),
            out@ == join(texts(parts@).take(i as int), sep@),
        decreases parts.len() - i,
    {
        proof {
            lemma_join_push(texts(parts@).take(i as int), sep@, parts@[i as int]@);
            assert(texts(parts@).take(i as int).push(parts@[i as int]@) =~= texts(parts@).take(
                i + 1,
            ));
        }
        if i > 0 {
            out.append(sep);
        }
        out.append(parts[i].as_str());
        i = i + 1;
    }
    proof {
        assert(texts(parts@).take(parts.len() as int) =~= texts(parts@));
    }
    out
}

/// Whether `chars` ends with the characters of `suffix`.
pub fn ends_with_chars(chars: &Vec<char>, suffix: &Vec<char>) -> (r: bool)
    ensures
        r == ends_with(chars@, suffix@),
{
    let n = chars.len();
    let m = suffix.len();
    if n < m {
        return false;
    }
    let base = n - m;
    let mut i: usize = 0;
    while i < m
        invariant
            n == chars.len(),
            m == suffix.len(),
            base == n - m,
            i <= m,
            forall|j: int| 0 <= j < i ==> chars@[base + j] == suffix@[j],
        decreases m - i,
    {
        if chars[base + i] != suffix[i] {
            proof {
                assert(chars@.subrange(n - m, n as int)[i as int] == chars@[base + i]);
            }
            return false;
        }
        i = i + 1;
    }
    proof {
        assert(chars@.subrange(n - m, n as int) =~= suffix@);
    }
    true
}


/// `first_where` is the one index before which nothing satisfies `p` and at
/// which something does, or the length.
pub proof fn lemma_first_where<T>(s: Seq<T>, p: spec_fn(T) -> bool, k: int)
    requires
        0 <= k <= s.len(),
        forall|j: int| 0 <= j < k ==> !p(#[trigger] s[j]),
        k == s.len() || p(s[k]),
    ensures
        first_where(s, p) == k,
    decreases k,
{
    if k > 0 {
        let rest = s.drop_first();
        assert forall|j: int| 0 <= j < k - 1 implies !p(#[trigger] rest[j]) by {
            assert(rest[j] == s[j + 1]);
        }
        if k < s.len() {
            assert(rest[k - 1] == s[k]);
        }
        lemma_first_where(rest, p, k - 1);
    }
}

/// What `first_where` returns lies within the sequence or at its end, with
/// nothing before it that satisfies `p`.
pub proof fn lemma_first_where_found<T>(s: Seq<T>, p: spec_fn(T) -> bool)
    ensures
        0 <= first_where(s, p) <= s.len(),
        forall|j: int| 0 <= j < first_where(s, p) ==> !p(#[trigger] s[j]),
        first_where(s, p) < s.len() ==> p(s[first_where(s, p)]),
    decreases s.len(),
{
    if s.len() > 0 && !p(s[0]) {
        let rest = s.drop_first();
        lemma_first_where_found(rest, p);
        assert forall|j: int| 0 <= j < first_where(s, p) implies !p(#[trigger] s[j]) by {
            if j > 0 {
                assert(rest[j - 1] == s[j]);
            }
        }
        if first_where(s, p) < s.len() {
            assert(rest[first_where(rest, p)] == s[first_where(s, p)]);
        }
    }
}

/// Where exactly the first `k` characters of `s` occur in `set`, they are
/// what `without_leading` takes off.
pub proof fn lemma_without_leading(s: Seq<char>, set: Seq<char>, k: int)
    requires
        0 <= k <= s.len(),
        forall|j: int| 0 <= j < k ==> set.contains(#[trigger] s[j]),
        k == s.len() || !set.contains(s[k]),
    ensures
        without_leading(s, set) == s.skip(k),
    decreases k,
{
    if k > 0 {
        let rest = s.drop_first();
        assert forall|j: int| 0 <= j < k - 1 implies set.contains(#[trigger] rest[j]) by {
            assert(rest[j] == s[j + 1]);
        }
        if k < s.len() {
            assert(rest[k - 1] == s[k]);
        }
        lemma_without_leading(rest, set, k - 1);
        assert(rest.skip(k - 1) =~= s.skip(k));
    } else {
        assert(s.skip(0) =~= s);
    }
}

/// Where exactly the characters of `s` from `k` on occur in `set`, they are
/// what `without_trailing` takes off.
pub proof fn lemma_without_trailing(s: Seq<char>, set: Seq<char>, k: int)
    requires
        0 <= k <= s.len(),
        forall|j: int| k <= j < s.len() ==> set.contains(#[trigger] s[j]),
        k == 0 || !set.contains(s[k - 1]),
    ensures
        without_trailing(s, set) == s.take(k),
    decreases s.len() - k,
{
    if k < s.len() {
        let rest = s.drop_last();
        assert(set.contains(s[s.len() - 1]));
        assert forall|j: int| k <= j < rest.len() implies set.contains(#[trigger] rest[j]) by {
            assert(rest[j] == s[j]);
        }
        if k > 0 {
            assert(rest[k - 1] == s[k - 1]);
        }
        lemma_without_trailing(rest, set, k);
        assert(rest.take(k) =~= s.take(k));
    } else {
        assert(s.take(k) =~= s);
    }
}

/// Whether `c` occurs in `set`.
pub fn occurs_in(c: char, set: &Vec<char>) -> (r: bool)
    ensures
        r == set@.contains(c),
{
    let mut i: usize = 0;
    while i < set.len()
        invariant
            i <= set.len(),
            forall|j: int| 0 <= j < i ==> set@[j] != c,
        decreases set.len() - i,
    {
        if set[i] == c {
            return true;
        }
        i = i + 1;
    }
    false
}

/// The blank characters.
pub fn blank_chars() -> (r: Vec<char>)
    ensures
        r@ == blanks(),
{
    let mut v: Vec<char> = Vec::new();
    v.push(' ');
    v.push('\t');
    v.push('\n');
    v.push('\r');
    proof {
        assert(v@ =~= blanks());
    }
    v
}

/// The bounds of what is left of `chars[from..to]` once the characters of
/// `set` are removed from both ends.
pub fn trim_range(chars: &Vec<char>, from: usize, to: usize, set: &Vec<char>) -> (r: (
    usize,
    usize,
))
    requires
        from <= to <= chars.len(),
    ensures
        from <= r.0 <= r.1 <= to,
        chars@.subrange(r.0 as int, r.1 as int) == trim_of(
            chars@.subrange(from as int, to as int),
            set@,
        ),
{
    let ghost whole = chars@.subrange(from as int, to as int);
    let mut a: usize = from;
    while a < to && occurs_in(chars[a], set)
        invariant
            from <= a <= to <= chars.len(),
            whole == chars@.subrange(from as int, to as int),
            forall|j: int| 0 <= j < a - from ==> set@.contains(#[trigger] whole[j]),
        decreases to - a,
    {
        proof {
            assert(whole[a - from] == chars@[a as int]);
        }
        a = a + 1;
    }
    proof {
        if a < to {
            assert(whole[a - from] == chars@[a as int]);
        }
        lemma_without_leading(whole, set@, a - from);
        assert(whole.skip(a - from) =~= chars@.subrange(a as int, to as int));
    }
    let ghost rest = chars@.subrange(a as int, to as int);
    let mut b: usize = to;
    while b > a && occurs_in(chars[b - 1], set)
        invariant
            a <= b <= to <= chars.len(),
            rest == chars@.subrange(a as int, to as int),
            forall|j: int| b - a <= j < to - a ==> set@.contains(#[trigger] rest[j]),
        decreases b - a,
    {
        proof {
            assert(rest[b - 1 - a] == chars@[b - 1]);
        }
        b = b - 1;
    }
    proof {
        if b > a {
            assert(rest[b - a - 1] == chars@[b - 1]);
        }
        lemma_without_trailing(rest, set@, b - a);
        assert(rest.take(b - a) =~= chars@.subrange(a as int, b as int));
    }
    (a, b)
}

} // verus!
