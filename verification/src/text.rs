//! Verified text utilities: lexicographic ordering of strings (used to keep
//! group keys sorted and to order jobs by their start timestamp) and the
//! extraction of a job's group key (its "tool") from its display name.

use vstd::prelude::*;
use vstd::string::StrSliceExecFns;
use vstd::string::StringExecFns;

verus! {

/// Strict lexicographic order on character sequences, by code point.
/// A proper prefix sorts before any of its extensions, so this agrees with
/// the ordering of Rust `String`s.
pub open spec fn lex_lt(a: Seq<char>, b: Seq<char>) -> bool
    decreases a.len(),
{
    if b.len() == 0 {
        false
    } else if a.len() == 0 {
        true
    } else if a[0] != b[0] {
        (a[0] as int) < (b[0] as int)
    } else {
        lex_lt(a.drop_first(), b.drop_first())
    }
}

/// `lex_lt` never relates a sequence to itself.
pub proof fn lemma_lex_lt_irreflexive(a: Seq<char>)
    ensures
        !lex_lt(a, a),
    decreases a.len(),
{
    if a.len() > 0 {
        lemma_lex_lt_irreflexive(a.drop_first());
    }
}

/// At most one of `lex_lt(a, b)` and `lex_lt(b, a)` holds.
pub proof fn lemma_lex_lt_asymmetric(a: Seq<char>, b: Seq<char>)
    ensures
        !(lex_lt(a, b) && lex_lt(b, a)),
    decreases a.len(),
{
    if a.len() > 0 && b.len() > 0 && a[0] == b[0] {
        lemma_lex_lt_asymmetric(a.drop_first(), b.drop_first());
    }
}

/// Any two sequences are related one way, the other way, or equal.
pub proof fn lemma_lex_lt_trichotomy(a: Seq<char>, b: Seq<char>)
    ensures
        lex_lt(a, b) || lex_lt(b, a) || a == b,
    decreases a.len(),
{
    if a.len() == 0 && b.len() == 0 {
        assert(a =~= b);
    } else if a.len() > 0 && b.len() > 0 && a[0] == b[0] {
        lemma_lex_lt_trichotomy(a.drop_first(), b.drop_first());
        if a.drop_first() == b.drop_first() {
            assert(a.len() == b.len());
            assert forall|i: int| 0 <= i < a.len() implies a[i] == b[i] by {
                if i > 0 {
                    assert(a.subrange(1, a.len() as int)[i - 1] == a[i]);
                    assert(b.subrange(1, b.len() as int)[i - 1] == b[i]);
                    assert(a.drop_first() == a.subrange(1, a.len() as int));
                    assert(b.drop_first() == b.subrange(1, b.len() as int));
                }
            }
            assert(a =~= b);
        }
    } else if a.len() > 0 && b.len() > 0 {
        assert(a[0] != b[0]);
        assert((a[0] as int) != (b[0] as int));
    }
}

/// `lex_lt` is transitive.
pub proof fn lemma_lex_lt_transitive(a: Seq<char>, b: Seq<char>, c: Seq<char>)
    requires
        lex_lt(a, b),
        lex_lt(b, c),
    ensures
        lex_lt(a, c),
    decreases a.len(),
{
    if a.len() > 0 && b.len() > 0 && c.len() > 0 {
        if a[0] == b[0] && b[0] == c[0] {
            lemma_lex_lt_transitive(a.drop_first(), b.drop_first(), c.drop_first());
        }
    }
}

/// Sequences agreeing up to `i` and diverging there are ordered by the
/// characters at `i`.
proof fn lemma_lex_lt_from_diff(a: Seq<char>, b: Seq<char>, i: int)
    requires
        0 <= i < a.len(),
        i < b.len(),
        forall|j: int| 0 <= j < i ==> a[j] == b[j],
        (a[i] as int) < (b[i] as int),
    ensures
        lex_lt(a, b),
    decreases i,
{
    if i == 0 {
        assert(a[0] != b[0]);
    } else {
        assert(a[0] == b[0]);
        let a1 = a.drop_first();
        let b1 = b.drop_first();
        assert forall|j: int| 0 <= j < i - 1 implies a1[j] == b1[j] by {
            assert(a[j + 1] == b[j + 1]);
        }
        assert(a1[i - 1] == a[i] && b1[i - 1] == b[i]);
        lemma_lex_lt_from_diff(a1, b1, i - 1);
    }
}

/// A proper prefix sorts strictly before any extension of it.
proof fn lemma_lex_lt_proper_prefix(a: Seq<char>, b: Seq<char>)
    requires
        a.len() < b.len(),
        forall|j: int| 0 <= j < a.len() ==> a[j] == b[j],
    ensures
        lex_lt(a, b),
    decreases a.len(),
{
    if a.len() > 0 {
        let a1 = a.drop_first();
        let b1 = b.drop_first();
        assert forall|j: int| 0 <= j < a1.len() implies a1[j] == b1[j] by {
            assert(a[j + 1] == b[j + 1]);
        }
        lemma_lex_lt_proper_prefix(a1, b1);
    }
}

/// Result of a three-way string comparison.
#[derive(Clone, Copy, Debug, PartialEq, Eq, Structural)]
pub enum StrOrder {
    Less,
    Equal,
    Greater,
}

/// Three-way comparison of two strings under `lex_lt`.
pub fn str_cmp(a: &str, b: &str) -> (r: StrOrder)
    ensures
        (r == StrOrder::Less) == lex_lt(a@, b@),
        (r == StrOrder::Equal) == (a@ == b@),
        (r == StrOrder::Greater) == lex_lt(b@, a@),
{
    let alen = a.unicode_len();
    let blen = b.unicode_len();
    let n = if alen < blen {
        alen
    } else {
        blen
    };
    let mut i: usize = 0;
    while i < n
        invariant
            0 <= i <= n,
            n == if alen < blen { alen } else { blen },
            alen == a@.len(),
            blen == b@.len(),
            forall|j: int| 0 <= j < i ==> a@[j] == b@[j],
        decreases n - i,
    {
        let ca = a.get_char(i);
        let cb = b.get_char(i);
        if ca < cb {
            proof {
                lemma_lex_lt_from_diff(a@, b@, i as int);
                lemma_lex_lt_asymmetric(a@, b@);
                lemma_lex_lt_irreflexive(a@);
            }
            return StrOrder::Less;
        }
        if cb < ca {
            proof {
                lemma_lex_lt_from_diff(b@, a@, i as int);
                lemma_lex_lt_asymmetric(a@, b@);
                lemma_lex_lt_irreflexive(b@);
            }
            return StrOrder::Greater;
        }
        assert(a@[i as int] == b@[i as int]);
        i = i + 1;
    }
    if alen == blen {
        proof {
            assert(a@ =~= b@);
            lemma_lex_lt_irreflexive(a@);
        }
        StrOrder::Equal
    } else if alen < blen {
        proof {
            lemma_lex_lt_proper_prefix(a@, b@);
            lemma_lex_lt_asymmetric(a@, b@);
            lemma_lex_lt_irreflexive(a@);
        }
        StrOrder::Less
    } else {
        proof {
            lemma_lex_lt_proper_prefix(b@, a@);
            lemma_lex_lt_asymmetric(a@, b@);
            lemma_lex_lt_irreflexive(b@);
        }
        StrOrder::Greater
    }
}

/// Equality of two strings, by their character sequences.
pub fn str_eq(a: &str, b: &str) -> (r: bool)
    ensures
        r == (a@ == b@),
{
    match str_cmp(a, b) {
        StrOrder::Equal => true,
        _ => false,
    }
}

/// Whether `a` sorts strictly before `b`.
pub fn str_lt(a: &str, b: &str) -> (r: bool)
    ensures
        r == lex_lt(a@, b@),
{
    match str_cmp(a, b) {
        StrOrder::Less => true,
        _ => false,
    }
}

/// Whether the group-key separator occurs in `s` at position `i`.
pub open spec fn sep_at(s: Seq<char>, i: int) -> bool {
    &&& 0 <= i
    &&& i + 3 <= s.len()
    &&& s[i] == ' '
    &&& s[i + 1] == '/'
    &&& s[i + 2] == ' '
}

/// Position where the group key of `s` ends, scanning from `i`: the first
/// separator at or after `i`, or the end of `s` if there is none.
pub open spec fn tool_end_from(s: Seq<char>, i: int) -> int
    recommends
        0 <= i <= s.len(),
    decreases s.len() - i,
{
    if i + 3 > s.len() {
        s.len() as int
    } else if sep_at(s, i) {
        i
    } else {
        tool_end_from(s, i + 1)
    }
}

/// The group key ("tool") of a job display name: the segment before the
/// first ` / ` separator, or the whole name when no separator occurs.
pub open spec fn tool_of(s: Seq<char>) -> Seq<char> {
    s.subrange(0, tool_end_from(s, 0))
}

proof fn lemma_tool_end_bounds(s: Seq<char>, i: int)
    requires
        0 <= i <= s.len(),
    ensures
        i <= tool_end_from(s, i) <= s.len(),
    decreases s.len() - i,
{
    if i + 3 <= s.len() && !sep_at(s, i) {
        lemma_tool_end_bounds(s, i + 1);
    }
}

/// Extracts the group key of a job display name.
pub fn tool_of_name(name: &str) -> (r: String)
    ensures
        r@ == tool_of(name@),
{
    let n = name.unicode_len();
    if n >= 3 {
        let stop = n - 3;
        let mut i: usize = 0;
        while i <= stop
            invariant
                i <= stop + 1,
                stop == n - 3,
                3 <= n == name@.len(),
                tool_end_from(name@, 0) == tool_end_from(name@, i as int),
            decreases stop + 1 - i,
        {
            let c0 = name.get_char(i);
            let c1 = name.get_char(i + 1);
            let c2 = name.get_char(i + 2);
            if c0 == ' ' && c1 == '/' && c2 == ' ' {
                assert(sep_at(name@, i as int));
                assert(tool_end_from(name@, i as int) == i as int);
                return String::from_str(name.substring_char(0, i));
            }
            assert(!sep_at(name@, i as int));
            assert(tool_end_from(name@, i as int) == tool_end_from(name@, i as int + 1));
            i = i + 1;
        }
        assert(tool_end_from(name@, i as int) == n as int);
    }
    assert(tool_of(name@) =~= name@);
    name.to_owned()
}

} // verus!
