use vstd::prelude::*;

verus! {

/// Lexicographic three-way comparison of two sequences, given a three-way comparison
/// of their elements: the result is `-1`, `0` or `1`.
pub open spec fn lex_compare<T>(a: Seq<T>, b: Seq<T>, c: spec_fn(T, T) -> int) -> int
    decreases a.len(),
{
    if a.len() == 0 {
        if b.len() == 0 {
            0
        } else {
            -1
        }
    } else if b.len() == 0 {
        1
    } else if c(a[0], b[0]) != 0 {
        c(a[0], b[0])
    } else {
        lex_compare(a.drop_first(), b.drop_first(), c)
    }
}

/// `c` is a three-way comparison of a total order: its values are `-1`, `0`, `1`; it is
/// `0` exactly on equal arguments; swapping the arguments negates it; and "at most" is
/// transitive.
pub open spec fn is_total_comparison<T>(c: spec_fn(T, T) -> int) -> bool {
    &&& forall|x: T, y: T| -1 <= #[trigger] c(x, y) <= 1
    &&& forall|x: T, y: T| #[trigger] c(x, y) == 0 <==> x == y
    &&& forall|x: T, y: T| #[trigger] c(x, y) == -c(y, x)
    &&& forall|x: T, y: T, z: T| #![trigger c(x, y), c(y, z)]
        c(x, y) <= 0 && c(y, z) <= 0 ==> c(x, z) <= 0
}

/// The three-way comparison of bytes by value.
pub open spec fn compare_u8(x: u8, y: u8) -> int {
    if x < y {
        -1
    } else if x == y {
        0
    } else {
        1
    }
}

/// `compare_u8` as a function value.
pub open spec fn byte_order() -> spec_fn(u8, u8) -> int {
    |x: u8, y: u8| compare_u8(x, y)
}

/// The lexicographic comparison of byte strings, which is how `str` and `OsStr` are
/// ordered.
pub open spec fn bytes_compare(a: Seq<u8>, b: Seq<u8>) -> int {
    lex_compare(a, b, byte_order())
}

pub proof fn lemma_byte_order_total()
    ensures
        is_total_comparison(byte_order()),
{
}

/// Comparing two sequences after an equal first element is comparing their rests.
pub proof fn lemma_lex_compare_skip<T>(a: Seq<T>, b: Seq<T>, c: spec_fn(T, T) -> int, i: int)
    requires
        0 <= i < a.len(),
        i < b.len(),
        is_total_comparison(c),
        lex_compare(a, b, c) == lex_compare(a.skip(i), b.skip(i), c),
        a[i] == b[i],
    ensures
        lex_compare(a, b, c) == lex_compare(a.skip(i + 1), b.skip(i + 1), c),
{
    assert(c(a[i], b[i]) == 0);
    assert(a.skip(i)[0] == a[i]);
    assert(b.skip(i)[0] == b[i]);
    assert(a.skip(i).drop_first() =~= a.skip(i + 1));
    assert(b.skip(i).drop_first() =~= b.skip(i + 1));
}

proof fn lemma_lex_range<T>(a: Seq<T>, b: Seq<T>, c: spec_fn(T, T) -> int)
    requires
        is_total_comparison(c),
    ensures
        -1 <= lex_compare(a, b, c) <= 1,
    decreases a.len(),
{
    if a.len() > 0 && b.len() > 0 {
        assert(-1 <= c(a[0], b[0]) <= 1);
        lemma_lex_range(a.drop_first(), b.drop_first(), c);
    }
}

proof fn lemma_lex_eq<T>(a: Seq<T>, b: Seq<T>, c: spec_fn(T, T) -> int)
    requires
        is_total_comparison(c),
    ensures
        lex_compare(a, b, c) == 0 <==> a == b,
    decreases a.len(),
{
    if a.len() > 0 && b.len() > 0 {
        assert(c(a[0], b[0]) == 0 <==> a[0] == b[0]);
        lemma_lex_eq(a.drop_first(), b.drop_first(), c);
        if a[0] == b[0] && a.drop_first() == b.drop_first() {
            assert forall|i: int| 0 <= i < a.len() implies a[i] == b[i] by {
                if i > 0 {
                    assert(a[i] == a.drop_first()[i - 1]);
                    assert(b[i] == b.drop_first()[i - 1]);
                }
            }
            assert(a =~= b);
        }
        if a == b {
            assert(a.drop_first() == b.drop_first());
        }
    } else if a.len() == 0 && b.len() == 0 {
        assert(a =~= b);
    }
}

proof fn lemma_lex_antisym<T>(a: Seq<T>, b: Seq<T>, c: spec_fn(T, T) -> int)
    requires
        is_total_comparison(c),
    ensures
        lex_compare(a, b, c) == -lex_compare(b, a, c),
    decreases a.len(),
{
    if a.len() > 0 && b.len() > 0 {
        assert(c(a[0], b[0]) == -c(b[0], a[0]));
        lemma_lex_antisym(a.drop_first(), b.drop_first(), c);
    }
}

proof fn lemma_lex_trans<T>(a: Seq<T>, b: Seq<T>, d: Seq<T>, c: spec_fn(T, T) -> int)
    requires
        is_total_comparison(c),
        lex_compare(a, b, c) <= 0,
        lex_compare(b, d, c) <= 0,
    ensures
        lex_compare(a, d, c) <= 0,
    decreases a.len(),
{
    if a.len() == 0 {
    } else if b.len() == 0 {
    } else if d.len() == 0 {
    } else {
        let x = a[0];
        let y = b[0];
        let z = d[0];
        assert(c(x, y) <= 0);
        assert(c(y, z) <= 0);
        assert(c(x, z) <= 0);
        if c(x, y) == 0 && c(y, z) == 0 {
            assert(x == y && y == z);
            lemma_lex_trans(a.drop_first(), b.drop_first(), d.drop_first(), c);
        } else {
            if c(x, z) == 0 {
                assert(x == z);
                assert(c(y, x) == -c(x, y));
                // c(x, y) <= 0 and c(y, x) <= 0 force c(x, y) == 0, and then y == z
                assert(c(x, y) == 0);
                assert(false);
            }
        }
    }
}

/// `lex_compare` over `c` as a function value.
pub open spec fn lex_order<T>(c: spec_fn(T, T) -> int) -> spec_fn(Seq<T>, Seq<T>) -> int {
    |a: Seq<T>, b: Seq<T>| lex_compare(a, b, c)
}

/// The lexicographic extension of a total order is a total order.
pub proof fn lemma_lex_total<T>(c: spec_fn(T, T) -> int)
    requires
        is_total_comparison(c),
    ensures
        is_total_comparison(lex_order(c)),
{
    let l = lex_order(c);
    assert forall|x: Seq<T>, y: Seq<T>| -1 <= #[trigger] l(x, y) <= 1 by {
        lemma_lex_range(x, y, c);
    }
    assert forall|x: Seq<T>, y: Seq<T>| #[trigger] l(x, y) == 0 <==> x == y by {
        lemma_lex_eq(x, y, c);
    }
    assert forall|x: Seq<T>, y: Seq<T>| #[trigger] l(x, y) == -l(y, x) by {
        lemma_lex_antisym(x, y, c);
    }
    assert forall|x: Seq<T>, y: Seq<T>, z: Seq<T>|
        #![trigger l(x, y), l(y, z)]
        l(x, y) <= 0 && l(y, z) <= 0 implies l(x, z) <= 0 by {
        lemma_lex_trans(x, y, z, c);
    }
}

/// Compares two byte strings lexicographically.
pub fn compare_bytes(a: &[u8], b: &[u8]) -> (r: i8)
    ensures
        r == bytes_compare(a@, b@),
{
    proof {
        lemma_byte_order_total();
        assert(a@.skip(0) =~= a@);
        assert(b@.skip(0) =~= b@);
    }
    let mut i: usize = 0;
    while i < a.len() && i < b.len()
        invariant
            0 <= i <= a.len(),
            i <= b.len(),
            is_total_comparison(byte_order()),
            bytes_compare(a@, b@) == lex_compare(a@.skip(i as int), b@.skip(i as int), byte_order()),
        decreases a.len() - i,
    {
        if a[i] != b[i] {
            proof {
                assert(a@.skip(i as int)[0] == a@[i as int]);
                assert(b@.skip(i as int)[0] == b@[i as int]);
            }
            if a[i] < b[i] {
                return -1;
            } else {
                return 1;
            }
        }
        proof {
            lemma_lex_compare_skip(a@, b@, byte_order(), i as int);
        }
        i = i + 1;
    }
    if a.len() == b.len() {
        0
    } else if i == a.len() {
        -1
    } else {
        1
    }
}

} // verus!
