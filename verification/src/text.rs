//! Strings as sequences of characters: their order, and how path segments
//! are put together.

use vstd::prelude::*;
use vstd::string::StrSliceExecFns;
use vstd::string::StringExecFns;

verus! {

/// The strict lexicographic order of two texts by code point: the order in
/// which names are walked.
pub open spec fn lex_lt(a: Seq<char>, b: Seq<char>) -> bool
    decreases a.len(),
{
    if b.len() == 0 {
        false
    } else if a.len() == 0 {
        true
    } else if a[0] != b[0] {
        (a[0] as int) < (b[0] as int)
    } else {
        lex_lt(a.skip(1), b.skip(1))
    }
}

/// How one text stands to another in the lexicographic order.
#[derive(Debug, Clone, Copy, PartialEq, Eq)]
pub enum Rank {
    Before,
    Same,
    After,
}

/// The rank of `a` relative to `b`.
pub open spec fn rank_of(a: Seq<char>, b: Seq<char>) -> Rank {
    if a == b {
        Rank::Same
    } else if lex_lt(a, b) {
        Rank::Before
    } else {
        Rank::After
    }
}

/// No text comes before itself.
pub proof fn lex_lt_irreflexive(a: Seq<char>)
    ensures
        !lex_lt(a, a),
    decreases a.len(),
{
    if a.len() > 0 {
        lex_lt_irreflexive(a.skip(1));
    }
}

/// Of two different texts exactly one comes before the other.
pub proof fn lex_lt_total(a: Seq<char>, b: Seq<char>)
    ensures
        a != b ==> (lex_lt(a, b) <==> !lex_lt(b, a)),
        a == b ==> !lex_lt(a, b) && !lex_lt(b, a),
    decreases a.len(),
{
    if a == b {
        lex_lt_irreflexive(a);
    } else if a.len() == 0 || b.len() == 0 {
        assert(a.len() != b.len()) by {
            if a.len() == b.len() {
                assert(a =~= b);
            }
        }
    } else if a[0] != b[0] {
    } else {
        assert(a.skip(1) != b.skip(1)) by {
            if a.skip(1) == b.skip(1) {
                assert(a =~= seq![a[0]] + a.skip(1));
                assert(b =~= seq![b[0]] + b.skip(1));
            }
        }
        lex_lt_total(a.skip(1), b.skip(1));
    }
}

/// The order is transitive.
pub proof fn lex_lt_transitive(a: Seq<char>, b: Seq<char>, c: Seq<char>)
    requires
        lex_lt(a, b),
        lex_lt(b, c),
    ensures
        lex_lt(a, c),
    decreases a.len(),
{
    if a.len() == 0 {
    } else if a[0] != b[0] || b[0] != c[0] {
    } else {
        lex_lt_transitive(a.skip(1), b.skip(1), c.skip(1));
    }
}

/// A common prefix does not matter to the order.
pub proof fn lex_lt_skip_common(a: Seq<char>, b: Seq<char>, n: int)
    requires
        0 <= n <= a.len(),
        n <= b.len(),
        forall|j: int| 0 <= j < n ==> a[j] == b[j],
    ensures
        lex_lt(a, b) == lex_lt(a.skip(n), b.skip(n)),
    decreases n,
{
    if n == 0 {
        assert(a.skip(0) =~= a);
        assert(b.skip(0) =~= b);
    } else {
        let a1 = a.skip(1);
        let b1 = b.skip(1);
        assert forall|j: int| 0 <= j < n - 1 implies a1[j] == b1[j] by {
            assert(a1[j] == a[j + 1]);
            assert(b1[j] == b[j + 1]);
        }
        lex_lt_skip_common(a1, b1, n - 1);
        assert(a1.skip(n - 1) =~= a.skip(n));
        assert(b1.skip(n - 1) =~= b.skip(n));
    }
}

/// Compares two strings character by character.
pub fn rank(a: &str, b: &str) -> (r: Rank)
    ensures
        r == rank_of(a@, b@),
{
    let n = a.unicode_len();
    let m = b.unicode_len();
    let mut i: usize = 0;
    while i < n && i < m
        invariant
            i <= n,
            i <= m,
            n == a@.len(),
            m == b@.len(),
            forall|j: int| 0 <= j < i ==> a@[j] == b@[j],
        decreases n - i,
    {
        let x = a.get_char(i);
        let y = b.get_char(i);
        if x != y {
            proof {
                lex_lt_skip_common(a@, b@, i as int);
                lex_lt_total(a@, b@);
            }
            if (x as u32) < (y as u32) {
                return Rank::Before;
            } else {
                return Rank::After;
            }
        }
        i += 1;
    }
    proof {
        lex_lt_skip_common(a@, b@, i as int);
        lex_lt_total(a@, b@);
        if n == m {
            assert(a@ =~= b@);
        }
    }
    if n == m {
        Rank::Same
    } else if n < m {
        Rank::Before
    } else {
        Rank::After
    }
}

/// Whether two strings hold the same text.
pub fn same_text(a: &str, b: &str) -> (r: bool)
    ensures
        r == (a@ == b@),
{
    match rank(a, b) {
        Rank::Same => true,
        _ => false,
    }
}

/// The path of `child` below `base`: an absolute child stands alone, and one
/// separator comes between the two unless `base` is empty or ends in one.
pub open spec fn joined(base: Seq<char>, child: Seq<char>) -> Seq<char> {
    if child.len() > 0 && child[0] == '/' {
        child
    } else if base.len() == 0 {
        child
    } else if base.last() == '/' {
        base + child
    } else {
        base + seq!['/'] + child
    }
}

/// Joins a path and the name of an entry below it.
pub fn join_path(base: &str, child: &str) -> (out: String)
    ensures
        out@ == joined(base@, child@),
{
    let n = base.unicode_len();
    let m = child.unicode_len();
    if m > 0 && child.get_char(0) == '/' {
        String::from_str(child)
    } else if n == 0 {
        String::from_str(child)
    } else if base.get_char(n - 1) == '/' {
        String::from_str(base).concat(child)
    } else {
        proof {
            reveal_strlit("/");
            assert("/"@ =~= seq!['/']);
        }
        String::from_str(base).concat("/").concat(child)
    }
}

} // verus!
