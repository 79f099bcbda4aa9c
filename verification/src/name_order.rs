//! The order of file names: lexicographic by Unicode scalar value, which is
//! the order of `String` (UTF-8 keeps code-point order byte for byte).
use vstd::prelude::*;
use vstd::string::*;

verus! {

/// `a` comes strictly before `b`: at the first position where they differ `a`
/// has the smaller code point, or `a` is a proper prefix of `b`.
pub open spec fn name_lt(a: Seq<char>, b: Seq<char>) -> bool
    decreases a.len(),
{
    if a.len() == 0 {
        b.len() > 0
    } else if b.len() == 0 {
        false
    } else if a[0] != b[0] {
        (a[0] as int) < (b[0] as int)
    } else {
        name_lt(a.drop_first(), b.drop_first())
    }
}

/// No name comes before itself.
pub proof fn lemma_name_lt_irreflexive(a: Seq<char>)
    ensures
        !name_lt(a, a),
    decreases a.len(),
{
    if a.len() > 0 {
        lemma_name_lt_irreflexive(a.drop_first());
    }
}

/// Of two names exactly one holds: they are equal, the first comes before the
/// second, or the second comes before the first.
pub proof fn lemma_name_lt_trichotomy(a: Seq<char>, b: Seq<char>)
    ensures
        a == b || name_lt(a, b) || name_lt(b, a),
        name_lt(a, b) ==> a != b && !name_lt(b, a),
    decreases a.len(),
{
    lemma_name_lt_irreflexive(a);
    if a.len() > 0 && b.len() > 0 {
        lemma_name_lt_trichotomy(a.drop_first(), b.drop_first());
        if a[0] == b[0] && a.drop_first() == b.drop_first() {
            assert(a =~= b) by {
                assert forall|i: int| 0 <= i < a.len() implies a[i] == b[i] by {
                    if i > 0 {
                        assert(a[i] == a.drop_first()[i - 1]);
                        assert(b[i] == b.drop_first()[i - 1]);
                    }
                }
            }
        }
    } else if a.len() == 0 && b.len() == 0 {
        assert(a =~= b);
    }
}

/// The order is transitive.
pub proof fn lemma_name_lt_transitive(a: Seq<char>, b: Seq<char>, c: Seq<char>)
    requires
        name_lt(a, b),
        name_lt(b, c),
    ensures
        name_lt(a, c),
    decreases a.len(),
{
    if a.len() > 0 && b.len() > 0 && c.len() > 0 {
        if a[0] == b[0] && b[0] == c[0] {
            lemma_name_lt_transitive(a.drop_first(), b.drop_first(), c.drop_first());
        }
    }
}

/// Dropping a shared first character keeps two prefixes equal or unequal.
proof fn lemma_take_shift(a: Seq<char>, b: Seq<char>, k: int)
    requires
        a.len() > 0,
        b.len() > 0,
        a[0] == b[0],
        1 <= k <= a.len(),
        k <= b.len(),
    ensures
        (a.take(k) == b.take(k)) <==> (a.drop_first().take(k - 1) == b.drop_first().take(k - 1)),
{
    let a1 = a.drop_first();
    let b1 = b.drop_first();
    if a.take(k) == b.take(k) {
        assert forall|i: int| 0 <= i < k - 1 implies #[trigger] a1.take(k - 1)[i] == b1.take(k - 1)[i] by {
            assert(a.take(k)[i + 1] == b.take(k)[i + 1]);
        }
        assert(a1.take(k - 1) =~= b1.take(k - 1));
    }
    if a1.take(k - 1) == b1.take(k - 1) {
        assert forall|i: int| 0 <= i < k implies #[trigger] a.take(k)[i] == b.take(k)[i] by {
            if i > 0 {
                assert(a1.take(k - 1)[i - 1] == b1.take(k - 1)[i - 1]);
            }
        }
        assert(a.take(k) =~= b.take(k));
    }
}

/// The order on names is the order of `String`: `a` comes before `b` exactly
/// when, at the first position where they differ, `a` has the character with
/// the smaller code point, or `a` is a proper prefix of `b`.
pub proof fn law_name_lt_code_points(a: Seq<char>, b: Seq<char>)
    ensures
        name_lt(a, b) <==> ((exists|k: int|
            0 <= k < a.len() && k < b.len() && #[trigger] a.take(k) == b.take(k) && (a[k] as int)
                < (b[k] as int)) || (a.len() < b.len() && b.take(a.len() as int) == a)),
    decreases a.len(),
{
    let first_difference = exists|k: int|
        0 <= k < a.len() && k < b.len() && #[trigger] a.take(k) == b.take(k) && (a[k] as int) < (
        b[k] as int);
    let proper_prefix = a.len() < b.len() && b.take(a.len() as int) == a;
    if a.len() == 0 {
        assert(b.take(0) =~= a);
    } else if b.len() == 0 {
    } else if a[0] != b[0] {
        assert(a.take(0) =~= b.take(0));
        if first_difference {
            let k = choose|k: int|
                0 <= k < a.len() && k < b.len() && #[trigger] a.take(k) == b.take(k) && (a[k] as int)
                    < (b[k] as int);
            if k > 0 {
                assert(a.take(k)[0] == b.take(k)[0]);
            }
        }
        if proper_prefix {
            assert(b.take(a.len() as int)[0] == a[0]);
        }
    } else {
        let a1 = a.drop_first();
        let b1 = b.drop_first();
        law_name_lt_code_points(a1, b1);
        let first_difference1 = exists|k: int|
            0 <= k < a1.len() && k < b1.len() && #[trigger] a1.take(k) == b1.take(k) && (a1[k] as int)
                < (b1[k] as int);
        if first_difference {
            let k = choose|k: int|
                0 <= k < a.len() && k < b.len() && #[trigger] a.take(k) == b.take(k) && (a[k] as int)
                    < (b[k] as int);
            lemma_take_shift(a, b, k);
            assert(a1.take(k - 1) == b1.take(k - 1));
            assert(a1[k - 1] == a[k] && b1[k - 1] == b[k]);
            assert(first_difference1);
        }
        if first_difference1 {
            let k = choose|k: int|
                0 <= k < a1.len() && k < b1.len() && #[trigger] a1.take(k) == b1.take(k) && (a1[k] as int)
                    < (b1[k] as int);
            lemma_take_shift(a, b, k + 1);
            assert(a.take(k + 1) == b.take(k + 1));
            assert(first_difference);
        }
        if a.len() < b.len() {
            lemma_take_shift(b.take(a.len() as int), a, a.len() as int);
            assert(b.take(a.len() as int).take(a.len() as int) =~= b.take(a.len() as int));
            assert(a.take(a.len() as int) =~= a);
            assert(a1.take(a1.len() as int) =~= a1);
            assert(b.take(a.len() as int).drop_first() =~= b1.take(a1.len() as int));
            assert(b1.take(a1.len() as int).take(a1.len() as int) =~= b1.take(a1.len() as int));
        }
    }
}

/// Compares two names in the order of `String`.
pub fn name_less(a: &str, b: &str) -> (less: bool)
    ensures
        less == name_lt(a@, b@),
        less <==> ((exists|k: int|
            0 <= k < a@.len() && k < b@.len() && #[trigger] a@.take(k) == b@.take(k) && (a@[k] as int)
                < (b@[k] as int)) || (a@.len() < b@.len() && b@.take(a@.len() as int) == a@)),
{
    proof {
        law_name_lt_code_points(a@, b@);
    }
    let len_a = a.unicode_len();
    let len_b = b.unicode_len();
    let mut i: usize = 0;
    assert(a@.skip(0) =~= a@);
    assert(b@.skip(0) =~= b@);
    while i < len_a && i < len_b
        invariant
            len_a == a@.len(),
            len_b == b@.len(),
            i <= len_a,
            i <= len_b,
            name_lt(a@, b@) == name_lt(a@.skip(i as int), b@.skip(i as int)),
        decreases len_a - i,
    {
        let ca = a.get_char(i);
        let cb = b.get_char(i);
        assert(a@.skip(i as int)[0] == ca);
        assert(b@.skip(i as int)[0] == cb);
        if ca != cb {
            proof {
                law_name_lt_code_points(a@, b@);
            }
            return (ca as u32) < (cb as u32);
        }
        assert(a@.skip(i as int).drop_first() =~= a@.skip(i + 1));
        assert(b@.skip(i as int).drop_first() =~= b@.skip(i + 1));
        i = i + 1;
    }
    i == len_a && i < len_b
}

} // verus!
