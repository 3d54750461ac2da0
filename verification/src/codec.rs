//! Byte-level helpers shared by the configuration codec: decimal numerals,
//! newline search, and literal prefixes.

use vstd::prelude::*;

verus! {

/// ASCII newline, the line terminator of the configuration format.
pub const NL: u8 = 10;

/// Every byte of `s` is an ASCII decimal digit and there is at least one.
pub open spec fn is_dec(s: Seq<u8>) -> bool {
    s.len() > 0 && forall|i: int| 0 <= i < s.len() ==> 48 <= #[trigger] s[i] <= 57
}

/// A canonical decimal numeral: digits only, and no leading zero.
pub open spec fn is_canon_dec(s: Seq<u8>) -> bool {
    is_dec(s) && (s.len() == 1 || s[0] != 48)
}

/// The value of a digit string, most significant digit first.
pub open spec fn dec_val(s: Seq<u8>) -> int
    decreases s.len(),
{
    if s.len() == 0 {
        0
    } else {
        dec_val(s.drop_last()) * 10 + (s.last() - 48)
    }
}

/// The canonical numeral of a natural number.
pub open spec fn dec_of(n: int) -> Seq<u8>
    decreases n,
{
    if n < 10 {
        seq![(48 + if n >= 0 { n } else { 0 }) as u8]
    } else {
        dec_of(n / 10).push((48 + n % 10) as u8)
    }
}

/// The value of a digit prefix never exceeds the value of the whole string.
pub proof fn lemma_dec_val_prefix_le(s: Seq<u8>, j: int)
    requires
        is_dec(s),
        0 <= j <= s.len(),
    ensures
        0 <= dec_val(s.take(j)) <= dec_val(s),
    decreases s.len(),
{
    lemma_dec_val_nonneg(s);
    if j == s.len() {
        assert(s.take(j) =~= s);
    } else if j == 0 {
        assert(s.take(0) =~= Seq::<u8>::empty());
    } else {
        let bl = s.drop_last();
        assert(s.take(j) =~= bl.take(j));
        assert(forall|i: int| 0 <= i < bl.len() ==> bl[i] == s[i]);
        lemma_dec_val_prefix_le(bl, j);
        assert(dec_val(bl) * 10 >= dec_val(bl)) by (nonlinear_arith)
            requires
                dec_val(bl) >= 0,
        ;
    }
}

/// A digit string has a nonnegative value.
pub proof fn lemma_dec_val_nonneg(s: Seq<u8>)
    requires
        forall|i: int| 0 <= i < s.len() ==> 48 <= #[trigger] s[i] <= 57,
    ensures
        dec_val(s) >= 0,
    decreases s.len(),
{
    if s.len() > 0 {
        lemma_dec_val_nonneg(s.drop_last());
    }
}

/// A digit string that does not start with `0` has a positive value.
pub proof fn lemma_dec_val_pos(s: Seq<u8>)
    requires
        is_dec(s),
        s[0] != 48,
    ensures
        dec_val(s) >= 1,
    decreases s.len(),
{
    if s.len() == 1 {
        assert(s.drop_last() =~= Seq::<u8>::empty());
        assert(dec_val(Seq::<u8>::empty()) == 0);
        assert(dec_val(s) == s.last() - 48);
        assert(s.last() == s[0]);
    } else {
        let bl = s.drop_last();
        assert(forall|i: int| 0 <= i < bl.len() ==> bl[i] == s[i]);
        lemma_dec_val_pos(bl);
        assert(dec_val(bl) * 10 >= 10) by (nonlinear_arith)
            requires
                dec_val(bl) >= 1,
        ;
    }
}

/// `dec_of` produces a canonical numeral whose value is the number itself.
pub proof fn lemma_dec_of_val(n: int)
    requires
        n >= 0,
    ensures
        is_canon_dec(dec_of(n)),
        dec_val(dec_of(n)) == n,
        n >= 1 ==> dec_of(n)[0] != 48,
    decreases n,
{
    if n < 10 {
        assert(dec_of(n).drop_last() =~= Seq::<u8>::empty());
        assert(dec_val(Seq::<u8>::empty()) == 0);
        assert(dec_of(n).last() == (48 + n) as u8);
        assert(dec_val(dec_of(n)) == (48 + n) as u8 - 48);
    } else {
        lemma_dec_of_val(n / 10);
        let s = dec_of(n);
        assert(s.drop_last() =~= dec_of(n / 10));
        assert(n == n / 10 * 10 + n % 10) by (nonlinear_arith);
        assert(n / 10 >= 1) by (nonlinear_arith)
            requires
                n >= 10,
        ;
    }
}

/// Canonical numerals are unique: a canonical digit string is `dec_of` of its value.
pub proof fn lemma_canon_dec_unique(s: Seq<u8>)
    requires
        is_canon_dec(s),
    ensures
        dec_of(dec_val(s)) =~= s,
    decreases s.len(),
{
    lemma_dec_val_nonneg(s);
    if s.len() == 1 {
        assert(s.drop_last() =~= Seq::<u8>::empty());
        assert(dec_val(Seq::<u8>::empty()) == 0);
        assert(s.last() == s[0]);
        assert(dec_val(s) == s[0] - 48);
        assert(dec_of(dec_val(s)) =~= s);
    } else {
        let bl = s.drop_last();
        assert(is_canon_dec(bl));
        lemma_canon_dec_unique(bl);
        lemma_dec_val_pos(bl);
        let v = dec_val(s);
        assert(v == dec_val(bl) * 10 + (s.last() - 48));
        assert(v / 10 == dec_val(bl) && v % 10 == s.last() - 48) by (nonlinear_arith)
            requires
                v == dec_val(bl) * 10 + (s.last() - 48),
                dec_val(bl) >= 1,
                48 <= s.last() <= 57,
        ;
        assert(v >= 10) by (nonlinear_arith)
            requires
                v == dec_val(bl) * 10 + (s.last() - 48),
                dec_val(bl) >= 1,
                48 <= s.last() <= 57,
        ;
        assert(dec_of(v) =~= dec_of(v / 10).push((48 + v % 10) as u8));
    }
}

/// The canonical numeral of a u64-sized number, most significant digit first.
pub fn u64_to_dec(n: u64) -> (r: Vec<u8>)
    ensures
        r@ == dec_of(n as int),
    decreases n,
{
    if n < 10 {
        let mut r: Vec<u8> = Vec::new();
        r.push(48 + (n as u8));
        proof {
            assert(r@ =~= dec_of(n as int));
        }
        r
    } else {
        let mut r = u64_to_dec(n / 10);
        r.push(48 + ((n % 10) as u8));
        r
    }
}

/// The value of the digit substring `s[from..to]`, if it is a canonical numeral
/// whose value fits in a `u64`; `None` otherwise.
pub fn parse_dec(s: &Vec<u8>, from: usize, to: usize) -> (r: Option<u64>)
    requires
        from <= to <= s@.len(),
    ensures
        match r {
            Some(v) => is_canon_dec(s@.subrange(from as int, to as int)) && dec_val(
                s@.subrange(from as int, to as int),
            ) == v,
            None => !(is_canon_dec(s@.subrange(from as int, to as int)) && dec_val(
                s@.subrange(from as int, to as int),
            ) <= u64::MAX),
        },
{
    let ghost sub = s@.subrange(from as int, to as int);
    if from == to {
        return None;
    }
    if to - from > 1 && s[from] == 48 {
        return None;
    }
    let mut acc: u64 = 0;
    let mut i: usize = from;
    while i < to
        invariant
            from <= i <= to <= s@.len(),
            sub == s@.subrange(from as int, to as int),
            forall|j: int| from <= j < i ==> 48 <= #[trigger] s@[j] <= 57,
            acc == dec_val(sub.take(i - from)),
        decreases to - i,
    {
        let b = s[i];
        if b < 48 || b > 57 {
            proof {
                assert(sub[i - from] == s@[i as int]);
                assert(!is_dec(sub));
            }
            return None;
        }
        let d: u64 = (b - 48) as u64;
        proof {
            assert(sub.take(i + 1 - from) =~= sub.take(i - from).push(s@[i as int]));
            assert(sub.take(i + 1 - from).drop_last() =~= sub.take(i - from));
        }
        if acc > (u64::MAX - d) / 10 {
            proof {
                // The prefix through position i already exceeds u64::MAX, and a
                // digit string's value only grows with its prefixes.
                assert(acc * 10 + d > u64::MAX) by (nonlinear_arith)
                    requires
                        acc > (u64::MAX - d) / 10,
                        0 <= d <= 9,
                        acc <= u64::MAX,
                ;
                if is_canon_dec(sub) {
                    lemma_dec_val_prefix_le(sub, i + 1 - from);
                }
            }
            return None;
        }
        proof {
            assert(acc * 10 + d <= u64::MAX) by (nonlinear_arith)
                requires
                    acc <= (u64::MAX - d) / 10,
                    0 <= d <= 9,
        ;
        }
        acc = acc * 10 + d;
        i += 1;
    }
    proof {
        assert(sub.take(to - from) =~= sub);
        assert(forall|j: int| 0 <= j < sub.len() ==> 48 <= #[trigger] sub[j] <= 57);
        assert(sub[0] == s@[from as int]);
    }
    Some(acc)
}

/// The index of the first newline at or after `from`, or `s.len()` if none.
pub open spec fn find_nl(s: Seq<u8>, from: int) -> int
    decreases s.len() - from,
{
    if !(0 <= from < s.len()) {
        s.len() as int
    } else if s[from] == NL {
        from
    } else {
        find_nl(s, from + 1)
    }
}

/// Basic facts about `find_nl`: it lands on the first newline, if any.
pub proof fn lemma_find_nl(s: Seq<u8>, from: int)
    requires
        0 <= from <= s.len(),
    ensures
        from <= find_nl(s, from) <= s.len(),
        find_nl(s, from) < s.len() ==> s[find_nl(s, from)] == NL,
        forall|i: int| from <= i < find_nl(s, from) ==> s[i] != NL,
    decreases s.len() - from,
{
    if from < s.len() && s[from] != NL {
        lemma_find_nl(s, from + 1);
    }
}

/// `find_nl` is determined by the first newline: if nothing in `[from, k)` is a
/// newline and `s[k]` is one, then `find_nl` returns `k`.
pub proof fn lemma_find_nl_exact(s: Seq<u8>, from: int, k: int)
    requires
        0 <= from <= k < s.len(),
        forall|i: int| from <= i < k ==> s[i] != NL,
        s[k] == NL,
    ensures
        find_nl(s, from) == k,
    decreases k - from,
{
    if from < k {
        lemma_find_nl_exact(s, from + 1, k);
    }
}

/// First newline at or after `from`, or the length of `s` if there is none.
pub fn find_nl_exec(s: &Vec<u8>, from: usize) -> (r: usize)
    requires
        from <= s@.len(),
    ensures
        r == find_nl(s@, from as int),
{
    let mut i: usize = from;
    while i < s.len()
        invariant
            from <= i <= s@.len(),
            find_nl(s@, from as int) == find_nl(s@, i as int),
        decreases s@.len() - i,
    {
        if s[i] == NL {
            return i;
        }
        i += 1;
    }
    i
}

/// `pat` occurs in `s` starting at position `pos`.
pub open spec fn starts_at(s: Seq<u8>, pos: int, pat: Seq<u8>) -> bool {
    0 <= pos && pos + pat.len() <= s.len() && s.subrange(pos, pos + pat.len()) == pat
}

/// Whether `pat` occurs in `s` starting at position `pos`.
pub fn starts_at_exec(s: &Vec<u8>, pos: usize, pat: &Vec<u8>) -> (r: bool)
    requires
        pos <= s@.len(),
    ensures
        r == starts_at(s@, pos as int, pat@),
{
    if s.len() - pos < pat.len() {
        return false;
    }
    let slen: usize = s.len();
    let mut i: usize = 0;
    while i < pat.len()
        invariant
            0 <= i <= pat@.len(),
            pos + pat@.len() <= s@.len(),
            slen == s@.len(),
            forall|j: int| 0 <= j < i ==> s@[pos + j] == pat@[j],
        decreases pat@.len() - i,
    {
        proof {
            assert(pos + i < s@.len());
        }
        if s[pos + i] != pat[i] {
            proof {
                assert(s@.subrange(pos as int, pos + pat@.len())[i as int] != pat@[i as int]);
            }
            return false;
        }
        i += 1;
    }
    proof {
        assert(s@.subrange(pos as int, pos + pat@.len()) =~= pat@);
    }
    true
}

/// Appends every byte of `src` to `dst`.
pub fn append_bytes(dst: &mut Vec<u8>, src: &Vec<u8>)
    ensures
        final(dst)@ == old(dst)@ + src@,
{
    let mut i: usize = 0;
    while i < src.len()
        invariant
            0 <= i <= src@.len(),
            dst@ == old(dst)@ + src@.take(i as int),
        decreases src@.len() - i,
    {
        dst.push(src[i]);
        proof {
            assert(old(dst)@ + src@.take(i + 1) =~= (old(dst)@ + src@.take(i as int)).push(
                src@[i as int],
            ));
        }
        i += 1;
    }
    proof {
        assert(src@.take(src@.len() as int) =~= src@);
    }
}

/// A copy of `v` with the same bytes.
pub fn clone_bytes(v: &Vec<u8>) -> (r: Vec<u8>)
    ensures
        r@ == v@,
{
    let mut r: Vec<u8> = Vec::new();
    append_bytes(&mut r, v);
    proof {
        assert(Seq::<u8>::empty() + v@ =~= v@);
    }
    r
}

/// Whether two byte vectors hold the same bytes.
pub fn bytes_eq(a: &Vec<u8>, b: &Vec<u8>) -> (r: bool)
    ensures
        r == (a@ == b@),
{
    if a.len() != b.len() {
        return false;
    }
    let mut i: usize = 0;
    while i < a.len()
        invariant
            0 <= i <= a@.len(),
            a@.len() == b@.len(),
            forall|j: int| 0 <= j < i ==> a@[j] == b@[j],
        decreases a@.len() - i,
    {
        if a[i] != b[i] {
            return false;
        }
        i += 1;
    }
    proof {
        assert(a@ =~= b@);
    }
    true
}

} // verus!
