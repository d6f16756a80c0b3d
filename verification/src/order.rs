use vstd::prelude::*;
use vstd::string::StrSliceExecFns;

verus! {

/// Exact string equality, decided character by character.
pub fn str_eq(a: &str, b: &str) -> (r: bool)
    ensures
        r == (a@ == b@),
{
    let alen = a.unicode_len();
    let blen = b.unicode_len();
    if alen != blen {
        return false;
    }
    let mut i: usize = 0;
    while i < alen
        invariant
            alen == a@.len(),
            blen == b@.len(),
            alen == blen,
            i <= alen,
            forall|j: int| 0 <= j < i ==> a@[j] == b@[j],
        decreases alen - i,
    {
        if a.get_char(i) != b.get_char(i) {
            return false;
        }
        i += 1;
    }
    proof {
        assert(a@ =~= b@);
    }
    true
}

/// Lexicographic order on character sequences, by code point.  For the
/// fixed-width, zero-padded timestamps this library generates, this order
/// coincides with chronological order.
pub open spec fn lex_le(a: Seq<char>, b: Seq<char>) -> bool
    decreases a.len(),
{
    if a.len() == 0 {
        true
    } else if b.len() == 0 {
        false
    } else if (a[0] as u32) < (b[0] as u32) {
        true
    } else if (b[0] as u32) < (a[0] as u32) {
        false
    } else {
        lex_le(a.drop_first(), b.drop_first())
    }
}

/// `lex_le` is total: any two sequences are comparable.
pub proof fn lemma_lex_le_total(a: Seq<char>, b: Seq<char>)
    ensures
        lex_le(a, b) || lex_le(b, a),
    decreases a.len(),
{
    if a.len() == 0 || b.len() == 0 {
    } else if (a[0] as u32) == (b[0] as u32) {
        lemma_lex_le_total(a.drop_first(), b.drop_first());
    }
}

/// `lex_le` is reflexive.
pub proof fn lemma_lex_le_refl(a: Seq<char>)
    ensures
        lex_le(a, a),
    decreases a.len(),
{
    if a.len() > 0 {
        lemma_lex_le_refl(a.drop_first());
    }
}

/// `lex_le` is transitive.
pub proof fn lemma_lex_le_trans(a: Seq<char>, b: Seq<char>, c: Seq<char>)
    requires
        lex_le(a, b),
        lex_le(b, c),
    ensures
        lex_le(a, c),
    decreases a.len(),
{
    if a.len() == 0 || b.len() == 0 || c.len() == 0 {
    } else if (a[0] as u32) == (b[0] as u32) && (b[0] as u32) == (c[0] as u32) {
        lemma_lex_le_trans(a.drop_first(), b.drop_first(), c.drop_first());
    }
}

/// Strictly below in the lexicographic order.
pub open spec fn lex_lt(a: Seq<char>, b: Seq<char>) -> bool {
    lex_le(a, b) && !lex_le(b, a)
}

/// Comparing sequences that start with equal-length groups: equal groups
/// defer to the rests, a strictly smaller or larger group decides alone.
pub proof fn lemma_lex_le_groups(g1: Seq<char>, g2: Seq<char>, r1: Seq<char>, r2: Seq<char>)
    requires
        g1.len() == g2.len(),
    ensures
        g1 == g2 ==> lex_le(g1 + r1, g2 + r2) == lex_le(r1, r2),
        lex_lt(g1, g2) ==> lex_le(g1 + r1, g2 + r2),
        lex_lt(g2, g1) ==> !lex_le(g1 + r1, g2 + r2),
    decreases g1.len(),
{
    if g1.len() == 0 {
        assert(g1 + r1 =~= r1);
        assert(g2 + r2 =~= r2);
        assert(g1 =~= g2);
    } else {
        assert((g1 + r1)[0] == g1[0]);
        assert((g2 + r2)[0] == g2[0]);
        assert((g1 + r1).drop_first() =~= g1.drop_first() + r1);
        assert((g2 + r2).drop_first() =~= g2.drop_first() + r2);
        lemma_lex_le_groups(g1.drop_first(), g2.drop_first(), r1, r2);
        if g1 == g2 {
            assert(g1[0] == g2[0]);
            assert(g1.drop_first() =~= g2.drop_first());
        }
    }
}

/// The timestamp key of a snapshot name: the characters before the first
/// `'_'`, or the whole name if it has none.
pub open spec fn ts_key(s: Seq<char>) -> Seq<char>
    decreases s.len(),
{
    if s.len() == 0 {
        s
    } else if s[0] == '_' {
        Seq::empty()
    } else {
        seq![s[0]] + ts_key(s.drop_first())
    }
}

/// The key is the prefix that ends at the first underscore (or at the end).
pub proof fn lemma_ts_key_take(s: Seq<char>, i: int)
    requires
        0 <= i <= s.len(),
        forall|j: int| 0 <= j < i ==> s[j] != '_',
        i == s.len() || s[i] == '_',
    ensures
        ts_key(s) == s.take(i),
    decreases i,
{
    if i == 0 {
        assert(s.take(0) =~= Seq::<char>::empty());
        if s.len() > 0 {
            assert(s[0] == '_');
        }
    } else {
        assert(s[0] != '_');
        lemma_ts_key_take(s.drop_first(), i - 1);
        assert(seq![s[0]] + s.drop_first().take(i - 1) =~= s.take(i));
    }
}

/// Sequences whose first `i` characters have equal code points compare the
/// same way their tails do.
proof fn lemma_lex_le_skip(a: Seq<char>, b: Seq<char>, i: int)
    requires
        0 <= i <= a.len(),
        i <= b.len(),
        forall|j: int| 0 <= j < i ==> (a[j] as u32) == (b[j] as u32),
    ensures
        lex_le(a, b) == lex_le(a.skip(i), b.skip(i)),
    decreases i,
{
    if i == 0 {
        assert(a.skip(0) =~= a);
        assert(b.skip(0) =~= b);
    } else {
        assert((a[0] as u32) == (b[0] as u32));
        lemma_lex_le_skip(a.drop_first(), b.drop_first(), i - 1);
        assert(a.drop_first().skip(i - 1) =~= a.skip(i));
        assert(b.drop_first().skip(i - 1) =~= b.skip(i));
    }
}

/// Index of the first `'_'` in `s`, or its length if it has none; the
/// timestamp key is exactly the prefix it bounds.
fn key_end(s: &str) -> (i: usize)
    ensures
        i <= s@.len(),
        ts_key(s@) == s@.take(i as int),
{
    let n = s.unicode_len();
    let mut i: usize = 0;
    while i < n
        invariant
            i <= n,
            n == s@.len(),
            forall|j: int| 0 <= j < i ==> s@[j] != '_',
        decreases n - i,
    {
        if s.get_char(i) == '_' {
            proof {
                lemma_ts_key_take(s@, i as int);
            }
            return i;
        }
        i += 1;
    }
    proof {
        lemma_ts_key_take(s@, i as int);
    }
    i
}

/// Compares two snapshot names by their timestamp keys: true when `a`'s
/// key is lexicographically at most `b`'s.
pub fn ts_le(a: &str, b: &str) -> (r: bool)
    ensures
        r == lex_le(ts_key(a@), ts_key(b@)),
{
    let ka = key_end(a);
    let kb = key_end(b);
    let mut i: usize = 0;
    loop
        invariant
            ka <= a@.len(),
            kb <= b@.len(),
            ts_key(a@) == a@.take(ka as int),
            ts_key(b@) == b@.take(kb as int),
            i <= ka,
            i <= kb,
            forall|j: int| 0 <= j < i ==> (a@[j] as u32) == (b@[j] as u32),
        decreases ka - i,
    {
        proof {
            lemma_lex_le_skip(ts_key(a@), ts_key(b@), i as int);
        }
        if i == ka {
            proof {
                assert(ts_key(a@).skip(i as int) =~= Seq::<char>::empty());
            }
            return true;
        }
        if i == kb {
            proof {
                assert(ts_key(b@).skip(i as int) =~= Seq::<char>::empty());
                assert(ts_key(a@).skip(i as int).len() > 0);
            }
            return false;
        }
        let ua = a.get_char(i) as u32;
        let ub = b.get_char(i) as u32;
        proof {
            assert(ts_key(a@).skip(i as int)[0] == a@[i as int]);
            assert(ts_key(b@).skip(i as int)[0] == b@[i as int]);
        }
        if ua < ub {
            return true;
        }
        if ub < ua {
            return false;
        }
        i += 1;
    }
}

} // verus!
