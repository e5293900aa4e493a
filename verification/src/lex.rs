use vstd::prelude::*;

verus! {

/// Strict lexicographic order on character sequences, by code point.
pub open spec fn chars_lt(a: Seq<char>, b: Seq<char>) -> bool
    decreases a.len(),
{
    if b.len() == 0 {
        false
    } else if a.len() == 0 {
        true
    } else if a[0] != b[0] {
        (a[0] as u32) < (b[0] as u32)
    } else {
        chars_lt(a.drop_first(), b.drop_first())
    }
}

/// Reflexive closure of `chars_lt`.
pub open spec fn chars_le(a: Seq<char>, b: Seq<char>) -> bool {
    chars_lt(a, b) || a == b
}

/// Dropping an equal prefix of both sequences does not change their order.
pub proof fn lemma_chars_lt_prefix(a: Seq<char>, b: Seq<char>, k: int)
    requires
        0 <= k <= a.len(),
        k <= b.len(),
        forall|i: int| 0 <= i < k ==> a[i] == b[i],
    ensures
        chars_lt(a, b) == chars_lt(a.skip(k), b.skip(k)),
    decreases k,
{
    if k > 0 {
        assert(a[0] == b[0]);
        assert(forall|i: int|
            0 <= i < k - 1 ==> a.drop_first()[i] == a[i + 1] && b.drop_first()[i] == b[i + 1]);
        lemma_chars_lt_prefix(a.drop_first(), b.drop_first(), k - 1);
        assert(a.drop_first().skip(k - 1) =~= a.skip(k));
        assert(b.drop_first().skip(k - 1) =~= b.skip(k));
    } else {
        assert(a.skip(0) =~= a);
        assert(b.skip(0) =~= b);
    }
}

/// The strict order is transitive.
pub proof fn lemma_chars_lt_trans(a: Seq<char>, b: Seq<char>, c: Seq<char>)
    requires
        chars_lt(a, b),
        chars_lt(b, c),
    ensures
        chars_lt(a, c),
    decreases a.len(),
{
    if a.len() == 0 {
        assert(c.len() > 0);
    } else {
        assert(b.len() > 0 && c.len() > 0);
        if a[0] == b[0] && b[0] == c[0] {
            lemma_chars_lt_trans(a.drop_first(), b.drop_first(), c.drop_first());
        }
    }
}

/// The strict order is irreflexive.
pub proof fn lemma_chars_irrefl(a: Seq<char>)
    ensures
        !chars_lt(a, a),
    decreases a.len(),
{
    if a.len() > 0 {
        lemma_chars_irrefl(a.drop_first());
    }
}

/// Two characters with the same code point are the same character.
pub proof fn lemma_char_cast_inj(c1: char, c2: char)
    requires
        c1 as u32 == c2 as u32,
    ensures
        c1 == c2,
{
}

/// Any two sequences are ordered or equal.
pub proof fn lemma_chars_total(a: Seq<char>, b: Seq<char>)
    ensures
        chars_lt(a, b) || chars_lt(b, a) || a == b,
    decreases a.len(),
{
    if a.len() == 0 && b.len() == 0 {
        assert(a =~= b);
    } else if a.len() == 0 {
        assert(chars_lt(a, b));
    } else if b.len() == 0 {
        assert(chars_lt(b, a));
    } else if a[0] == b[0] {
        lemma_chars_total(a.drop_first(), b.drop_first());
        if chars_lt(a.drop_first(), b.drop_first()) {
            assert(chars_lt(a, b));
        } else if chars_lt(b.drop_first(), a.drop_first()) {
            assert(chars_lt(b, a));
        } else {
            assert(a.drop_first() == b.drop_first());
            assert(a =~= b) by {
                assert(forall|i: int|
                    0 < i < a.len() ==> a[i] == a.drop_first()[i - 1] && b[i] == b.drop_first()[i
                        - 1]);
            }
        }
    } else {
        if (a[0] as u32) == (b[0] as u32) {
            lemma_char_cast_inj(a[0], b[0]);
            assert(false);
        } else if (a[0] as u32) < (b[0] as u32) {
            assert(chars_lt(a, b));
        } else {
            assert((b[0] as u32) < (a[0] as u32));
            assert(chars_lt(b, a));
        }
    }
}

/// Decides `chars_le` on two string slices.
pub fn str_le(a: &str, b: &str) -> (r: bool)
    ensures
        r == chars_le(a@, b@),
{
    let an = a.unicode_len();
    let bn = b.unicode_len();
    let mut i: usize = 0;
    while i < an && i < bn
        invariant
            an == a@.len(),
            bn == b@.len(),
            i <= an,
            i <= bn,
            forall|j: int| 0 <= j < i ==> a@[j] == b@[j],
        decreases an - i,
    {
        let ca = a.get_char(i);
        let cb = b.get_char(i);
        if ca != cb {
            proof {
                lemma_chars_lt_prefix(a@, b@, i as int);
                lemma_chars_lt_prefix(b@, a@, i as int);
                assert(a@.skip(i as int)[0] == ca && b@.skip(i as int)[0] == cb);
                assert(a@ != b@);
            }
            return (ca as u32) < (cb as u32);
        }
        i += 1;
    }
    proof {
        lemma_chars_lt_prefix(a@, b@, i as int);
        lemma_chars_lt_prefix(b@, a@, i as int);
    }
    if an < bn {
        proof {
            assert(a@.skip(i as int).len() == 0 && b@.skip(i as int).len() > 0);
        }
        true
    } else if an == bn {
        proof {
            assert(a@ =~= b@);
        }
        true
    } else {
        proof {
            assert(b@.skip(i as int).len() == 0 && a@.skip(i as int).len() > 0);
            assert(a@.len() != b@.len());
        }
        false
    }
}

} // verus!

