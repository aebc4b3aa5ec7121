use vstd::prelude::*;

verus! {

/// Outcome of a three-way comparison.
#[derive(Clone, Copy, PartialEq, Eq, Structural, Debug)]
pub enum Rel {
    Less,
    Equal,
    Greater,
}

/// Lexicographic three-way comparison of two character sequences, by
/// Unicode code point; a proper prefix compares below its extensions.
pub open spec fn seq_cmp(a: Seq<char>, b: Seq<char>) -> Rel
    decreases a.len(),
{
    if a.len() == 0 && b.len() == 0 {
        Rel::Equal
    } else if a.len() == 0 {
        Rel::Less
    } else if b.len() == 0 {
        Rel::Greater
    } else if (a[0] as int) < (b[0] as int) {
        Rel::Less
    } else if (a[0] as int) > (b[0] as int) {
        Rel::Greater
    } else {
        seq_cmp(a.drop_first(), b.drop_first())
    }
}

/// Strict lexicographic order on character sequences.
pub open spec fn seq_lt(a: Seq<char>, b: Seq<char>) -> bool {
    seq_cmp(a, b) is Less
}

/// Two sequences compare equal exactly when they are the same sequence.
pub proof fn lemma_seq_cmp_equal(a: Seq<char>, b: Seq<char>)
    ensures
        (seq_cmp(a, b) is Equal) <==> a == b,
    decreases a.len(),
{
    if a.len() == 0 && b.len() == 0 {
        assert(a =~= b);
    } else if a.len() == 0 || b.len() == 0 {
        assert(a != b);
    } else {
        lemma_seq_cmp_equal(a.drop_first(), b.drop_first());
        if seq_cmp(a, b) is Equal {
            assert(a.drop_first() == b.drop_first());
            assert forall|k: int| 0 <= k < a.len() implies a[k] == b[k] by {
                if k > 0 {
                    assert(a[k] == a.drop_first()[k - 1]);
                    assert(b[k] == b.drop_first()[k - 1]);
                }
            }
            assert(a =~= b);
        }
        if a == b {
            assert(a.drop_first() =~= b.drop_first());
        }
    }
}

/// The comparison is antisymmetric: swapping the arguments swaps
/// `Less` and `Greater`.
pub proof fn lemma_seq_cmp_flip(a: Seq<char>, b: Seq<char>)
    ensures
        (seq_cmp(a, b) is Less) <==> (seq_cmp(b, a) is Greater),
    decreases a.len(),
{
    if a.len() != 0 && b.len() != 0 && a[0] == b[0] {
        lemma_seq_cmp_flip(a.drop_first(), b.drop_first());
    }
}

/// The strict order is transitive.
pub proof fn lemma_seq_lt_trans(a: Seq<char>, b: Seq<char>, c: Seq<char>)
    requires
        seq_lt(a, b),
        seq_lt(b, c),
    ensures
        seq_lt(a, c),
    decreases a.len() + b.len() + c.len(),
{
    if a.len() == 0 {
        assert(c.len() != 0);
    } else {
        if a[0] == b[0] && b[0] == c[0] {
            lemma_seq_lt_trans(a.drop_first(), b.drop_first(), c.drop_first());
        }
    }
}

/// Any two sequences are related in exactly one of the three ways.
pub proof fn lemma_seq_trichotomy(a: Seq<char>, b: Seq<char>)
    ensures
        seq_lt(a, b) || a == b || seq_lt(b, a),
        seq_lt(a, b) ==> a != b && !seq_lt(b, a),
        a == b ==> !seq_lt(a, b) && !seq_lt(b, a),
{
    lemma_seq_cmp_equal(a, b);
    lemma_seq_cmp_equal(b, a);
    lemma_seq_cmp_flip(a, b);
    lemma_seq_cmp_flip(b, a);
}

/// When two sequences agree on their first `i` characters, their order is
/// decided by the remainders.
proof fn lemma_seq_cmp_common_prefix(a: Seq<char>, b: Seq<char>, i: int)
    requires
        0 <= i <= a.len(),
        i <= b.len(),
        forall|k: int| 0 <= k < i ==> a[k] == b[k],
    ensures
        seq_cmp(a, b) == seq_cmp(a.skip(i), b.skip(i)),
    decreases i,
{
    if i > 0 {
        lemma_seq_cmp_common_prefix(a.drop_first(), b.drop_first(), i - 1);
        assert(a.drop_first().skip(i - 1) =~= a.skip(i));
        assert(b.drop_first().skip(i - 1) =~= b.skip(i));
    } else {
        assert(a.skip(0) =~= a);
        assert(b.skip(0) =~= b);
    }
}

/// Three-way comparison of two strings, lexicographic by code point.
pub fn str_cmp(a: &str, b: &str) -> (r: Rel)
    ensures
        r == seq_cmp(a@, b@),
{
    let alen = a.unicode_len();
    let blen = b.unicode_len();
    let n = if alen < blen {
        alen
    } else {
        blen
    };
    let mut i: usize = 0;
    while i < n
        invariant
            i <= n,
            n <= alen,
            n <= blen,
            alen == a@.len(),
            blen == b@.len(),
            forall|k: int| 0 <= k < i ==> a@[k] == b@[k],
        decreases n - i,
    {
        let ca = a.get_char(i);
        let cb = b.get_char(i);
        if (ca as u32) < (cb as u32) {
            proof {
                lemma_seq_cmp_common_prefix(a@, b@, i as int);
            }
            return Rel::Less;
        }
        if (ca as u32) > (cb as u32) {
            proof {
                lemma_seq_cmp_common_prefix(a@, b@, i as int);
            }
            return Rel::Greater;
        }
        i += 1;
    }
    proof {
        lemma_seq_cmp_common_prefix(a@, b@, n as int);
    }
    if alen < blen {
        Rel::Less
    } else if alen > blen {
        Rel::Greater
    } else {
        Rel::Equal
    }
}

/// Decides whether two strings hold the same characters.
pub fn str_eq(a: &str, b: &str) -> (r: bool)
    ensures
        r == (a@ == b@),
{
    proof {
        lemma_seq_cmp_equal(a@, b@);
    }
    match str_cmp(a, b) {
        Rel::Equal => true,
        _ => false,
    }
}

/// Decides whether `a` orders strictly below `b`.
pub fn str_lt(a: &str, b: &str) -> (r: bool)
    ensures
        r == seq_lt(a@, b@),
{
    match str_cmp(a, b) {
        Rel::Less => true,
        _ => false,
    }
}

} // verus!
