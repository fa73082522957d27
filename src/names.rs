//! Qualified names: `::`-delimited paths from the model root.
//!
//! The spec functions here describe names as character sequences; the
//! executable functions compute the same things on `&str`.
use vstd::prelude::*;

verus! {

/// The path separator `::`.
pub open spec fn sep() -> Seq<char> {
    seq![':', ':']
}

/// Whether `p` occurs in `s` starting at position `i`.
pub open spec fn occurs_at(s: Seq<char>, p: Seq<char>, i: int) -> bool {
    0 <= i && i + p.len() <= s.len() && s.subrange(i, i + p.len()) == p
}

/// The first position at or after `i` where `p` occurs in `s`.
pub open spec fn first_occurrence_from(s: Seq<char>, p: Seq<char>, i: int) -> Option<int>
    decreases s.len() + 1 - i,
{
    if i < 0 || i + p.len() > s.len() {
        None
    } else if occurs_at(s, p, i) {
        Some(i)
    } else {
        first_occurrence_from(s, p, i + 1)
    }
}

/// The first position where `p` occurs in `s` (as `str::find`).
pub open spec fn first_occurrence(s: Seq<char>, p: Seq<char>) -> Option<int> {
    first_occurrence_from(s, p, 0)
}

/// The last position below `n` where `p` occurs in `s`.
pub open spec fn last_occurrence_below(s: Seq<char>, p: Seq<char>, n: int) -> Option<int>
    decreases n,
{
    if n <= 0 {
        None
    } else if occurs_at(s, p, n - 1) {
        Some(n - 1)
    } else {
        last_occurrence_below(s, p, n - 1)
    }
}

/// The last position where `p` occurs in `s` (as `str::rfind`).
pub open spec fn last_occurrence(s: Seq<char>, p: Seq<char>) -> Option<int> {
    last_occurrence_below(s, p, s.len() as int)
}

/// Whether a name holds a path separator.
pub open spec fn is_qualified(s: Seq<char>) -> bool {
    first_occurrence(s, sep()) is Some
}

/// The parent scope of a qualified name: `A::B::C` has parent `A::B`, a
/// root-level name has the root `""` as parent, and the root has none.
pub open spec fn parent_of(s: Seq<char>) -> Option<Seq<char>> {
    if s.len() == 0 {
        None
    } else {
        match last_occurrence(s, sep()) {
            Some(i) => Some(s.subrange(0, i)),
            None => Some(Seq::empty()),
        }
    }
}

/// The scope one level up when walking outward, the root being the last one.
pub open spec fn outer_of(s: Seq<char>) -> Seq<char> {
    match parent_of(s) {
        Some(p) => p,
        None => Seq::empty(),
    }
}

/// `scope::name`.
pub open spec fn join(scope: Seq<char>, name: Seq<char>) -> Seq<char> {
    scope + sep() + name
}

/// `scope::name`, or `name` alone where `scope` is the root.
pub open spec fn join_in(scope: Seq<char>, name: Seq<char>) -> Seq<char> {
    if scope.len() == 0 {
        name
    } else {
        join(scope, name)
    }
}

/// The view of an optional string.
pub open spec fn opt_view(o: Option<String>) -> Option<Seq<char>> {
    match o {
        Some(s) => Some(s@),
        None => None,
    }
}

/// The view of an optional position.
pub open spec fn opt_pos(o: Option<usize>) -> Option<int> {
    match o {
        Some(i) => Some(i as int),
        None => None,
    }
}

pub proof fn lemma_first_occurrence_bounds(s: Seq<char>, p: Seq<char>, i: int)
    ensures
        match first_occurrence_from(s, p, i) {
            Some(j) => i <= j && occurs_at(s, p, j),
            None => true,
        },
    decreases s.len() + 1 - i,
{
    if i < 0 || i + p.len() > s.len() {
    } else if occurs_at(s, p, i) {
    } else {
        lemma_first_occurrence_bounds(s, p, i + 1);
    }
}

pub proof fn lemma_last_occurrence_bounds(s: Seq<char>, p: Seq<char>, n: int)
    ensures
        match last_occurrence_below(s, p, n) {
            Some(j) => 0 <= j < n && occurs_at(s, p, j),
            None => true,
        },
    decreases n,
{
    if n > 0 && !occurs_at(s, p, n - 1) {
        lemma_last_occurrence_bounds(s, p, n - 1);
    }
}

/// Walking outward from a non-root scope reaches a shorter name.
pub proof fn lemma_outer_shorter(s: Seq<char>)
    requires
        s.len() > 0,
    ensures
        outer_of(s).len() < s.len(),
{
    lemma_last_occurrence_bounds(s, sep(), s.len() as int);
}

/// A qualified name is longer than its head and its tail.
pub proof fn lemma_split_shorter(s: Seq<char>)
    requires
        is_qualified(s),
    ensures
        first_occurrence(s, sep()) matches Some(i) && 0 <= i && i + 2 <= s.len(),
{
    lemma_first_occurrence_bounds(s, sep(), 0);
}

/// The characters of a string.
pub fn chars_of(s: &str) -> (r: Vec<char>)
    ensures
        r@ == s@,
{
    let n = s.unicode_len();
    let mut r: Vec<char> = Vec::new();
    let mut i: usize = 0;
    while i < n
        invariant
            n == s@.len(),
            i <= n,
            r@ == s@.subrange(0, i as int),
        decreases n - i,
    {
        r.push(s.get_char(i));
        i = i + 1;
    }
    assert(r@ =~= s@);
    r
}

/// Whether `p` occurs in `s` at position `i`.
fn occurs_at_exec(s: &Vec<char>, p: &Vec<char>, i: usize) -> (r: bool)
    ensures
        r == occurs_at(s@, p@, i as int),
{
    let slen = s.len();
    if i > slen || p.len() > slen - i {
        return false;
    }
    let mut k: usize = 0;
    while k < p.len()
        invariant
            slen == s@.len(),
            i <= s@.len(),
            p@.len() <= s@.len(),
            i + p@.len() <= s@.len(),
            k <= p@.len(),
            forall|m: int| 0 <= m < k ==> s@[i + m] == p@[m],
        decreases p@.len() - k,
    {
        assert(i + k < s@.len());
        if s[i + k] != p[k] {
            assert(s@.subrange(i as int, i + p@.len())[k as int] != p@[k as int]);
            return false;
        }
        k = k + 1;
    }
    assert(s@.subrange(i as int, i + p@.len()) =~= p@);
    true
}

/// The first position where `p` occurs in `s`.
pub fn find_in(s: &Vec<char>, p: &Vec<char>) -> (r: Option<usize>)
    ensures
        opt_pos(r) == first_occurrence(s@, p@),
{
    if p.len() > s.len() {
        return None;
    }
    if p.len() == 0 {
        assert(occurs_at(s@, p@, 0)) by {
            assert(s@.subrange(0, 0) =~= p@);
        }
        return Some(0);
    }
    let last = s.len() - p.len();
    let mut i: usize = 0;
    let slen = s.len();
    while i <= last
        invariant
            slen == s@.len(),
            p@.len() >= 1,
            last == s@.len() - p@.len(),
            i <= last + 1,
            first_occurrence(s@, p@) == first_occurrence_from(s@, p@, i as int),
        decreases last + 1 - i,
    {
        if occurs_at_exec(s, p, i) {
            return Some(i);
        }
        i = i + 1;
    }
    None
}

/// The last position where `p` occurs in `s`.
pub fn rfind_in(s: &Vec<char>, p: &Vec<char>) -> (r: Option<usize>)
    ensures
        opt_pos(r) == last_occurrence(s@, p@),
{
    let mut n: usize = s.len();
    while n > 0
        invariant
            n <= s@.len(),
            last_occurrence(s@, p@) == last_occurrence_below(s@, p@, n as int),
        decreases n,
    {
        if occurs_at_exec(s, p, n - 1) {
            return Some(n - 1);
        }
        n = n - 1;
    }
    None
}

/// The separator `::` as characters.
pub fn sep_chars() -> (r: Vec<char>)
    ensures
        r@ == sep(),
{
    let r = vec![':', ':'];
    assert(r@ =~= sep());
    r
}

/// The string made of the characters `c[lo..hi]` of `s`.
pub fn slice_of(s: &str, lo: usize, hi: usize) -> (r: String)
    requires
        lo <= hi <= s@.len(),
    ensures
        r@ == s@.subrange(lo as int, hi as int),
{
    s.substring_char(lo, hi).to_owned()
}

/// Whether two strings hold the same characters.
pub fn same_text(a: &str, b: &str) -> (r: bool)
    ensures
        r == (a@ == b@),
{
    let x = a.to_owned();
    let y = b.to_owned();
    x == y
}

/// Whether the name holds a path separator.
pub fn is_qualified_exec(s: &str) -> (r: bool)
    ensures
        r == is_qualified(s@),
{
    let c = chars_of(s);
    let p = sep_chars();
    find_in(&c, &p).is_some()
}

/// The parent scope of a qualified name (see [`parent_of`]).
pub fn parent_scope(s: &str) -> (r: Option<String>)
    ensures
        opt_view(r) == parent_of(s@),
{
    let c = chars_of(s);
    if c.len() == 0 {
        return None;
    }
    let p = sep_chars();
    match rfind_in(&c, &p) {
        Some(i) => {
            proof {
                lemma_last_occurrence_bounds(s@, sep(), s@.len() as int);
            }
            Some(slice_of(s, 0, i))
        },
        None => Some(String::new()),
    }
}

/// The scope one level up when walking outward (see [`outer_of`]).
pub fn outer_scope(s: &str) -> (r: String)
    ensures
        r@ == outer_of(s@),
{
    match parent_scope(s) {
        Some(p) => p,
        None => String::new(),
    }
}

/// Splits a name at its first separator into head and tail.
pub fn split_first(s: &str) -> (r: Option<(String, String)>)
    ensures
        match first_occurrence(s@, sep()) {
            Some(i) => r matches Some(ht) && ht.0@ == s@.subrange(0, i) && ht.1@ == s@.subrange(
                i + 2,
                s@.len() as int,
            ),
            None => r is None,
        },
{
    let c = chars_of(s);
    let p = sep_chars();
    let n = c.len();
    match find_in(&c, &p) {
        Some(i) => {
            proof {
                lemma_first_occurrence_bounds(s@, sep(), 0);
            }
            assert(i + 2 <= s@.len());
            Some((slice_of(s, 0, i), slice_of(s, i + 2, n)))
        },
        None => None,
    }
}

/// `scope::name`.
pub fn join_names(scope: &str, name: &str) -> (r: String)
    ensures
        r@ == join(scope@, name@),
{
    let mut r = scope.to_owned();
    proof {
        reveal_strlit("::");
    }
    r.append("::");
    r.append(name);
    assert(r@ =~= join(scope@, name@));
    r
}

/// `scope::name`, or `name` alone where `scope` is the root.
pub fn join_names_in(scope: &str, name: &str) -> (r: String)
    ensures
        r@ == join_in(scope@, name@),
{
    if scope.unicode_len() == 0 {
        name.to_owned()
    } else {
        join_names(scope, name)
    }
}

} // verus!
