//! Input validation for employee records: an employee identifier is exactly
//! eight ASCII digits, and a wallet public key is at least 32 characters long.

use vstd::prelude::*;

verus! {

/// A character is an ASCII decimal digit (`'0'` through `'9'`).
pub open spec fn is_digit(c: char) -> bool {
    48 <= c as u32 <= 57
}

/// An employee identifier is exactly eight ASCII digits.
pub open spec fn valid_emp_id(s: Seq<char>) -> bool {
    s.len() == 8 && forall|i: int| 0 <= i < s.len() ==> is_digit(#[trigger] s[i])
}

/// A wallet public key must be at least 32 characters long (a loose proxy for
/// a base-58-encoded public key; no further structure is enforced).
pub open spec fn valid_pub_key(s: Seq<char>) -> bool {
    s.len() >= 32
}

/// Checks that `s` is exactly eight ASCII digits.
pub fn check_emp_id(s: &str) -> (r: bool)
    ensures
        r == valid_emp_id(s@),
{
    let n = s.unicode_len();
    if n != 8 {
        return false;
    }
    let mut i: usize = 0;
    while i < 8
        invariant
            s@.len() == 8,
            i <= 8,
            forall|j: int| 0 <= j < i ==> is_digit(#[trigger] s@[j]),
        decreases 8 - i,
    {
        let c = s.get_char(i);
        let v = c as u32;
        if v < 48 || v > 57 {
            return false;
        }
        i = i + 1;
    }
    true
}

/// Checks that `s` is at least 32 characters long.
pub fn check_pub_key(s: &str) -> (r: bool)
    ensures
        r == valid_pub_key(s@),
{
    s.unicode_len() >= 32
}

/// The numeric value of one ASCII digit character.
pub open spec fn digit_val(c: char) -> int {
    c as u32 - 48
}

/// The number denoted by a sequence of ASCII digits, most significant first.
pub open spec fn seq_num(s: Seq<char>) -> int
    decreases s.len(),
{
    if s.len() == 0 {
        0
    } else {
        seq_num(s.drop_last()) * 10 + digit_val(s.last())
    }
}

/// Ten to the `n`-th power.
pub open spec fn pow10(n: nat) -> int
    decreases n,
{
    if n == 0 {
        1
    } else {
        10 * pow10((n - 1) as nat)
    }
}

/// An all-digit sequence denotes a number in `[0, pow10(len))`.
pub proof fn lemma_seq_num_bound(s: Seq<char>)
    requires
        forall|i: int| 0 <= i < s.len() ==> is_digit(#[trigger] s[i]),
    ensures
        0 <= seq_num(s) < pow10(s.len()),
    decreases s.len(),
{
    if s.len() == 0 {
    } else {
        let p = s.drop_last();
        assert(forall|i: int| 0 <= i < p.len() ==> is_digit(#[trigger] p[i]));
        lemma_seq_num_bound(p);
        assert(is_digit(s.last()));
        assert(0 <= digit_val(s.last()) < 10);
        assert(seq_num(p) * 10 + digit_val(s.last()) < pow10(p.len()) * 10) by (nonlinear_arith)
            requires
                seq_num(p) < pow10(p.len()),
                digit_val(s.last()) < 10,
        ;
        assert(pow10(s.len()) == 10 * pow10(p.len()));
    }
}

/// Two all-digit sequences of the same length denoting the same number are
/// the same sequence: the digit encoding of a number at a fixed width is
/// unique.
pub proof fn lemma_seq_num_injective(a: Seq<char>, b: Seq<char>)
    requires
        a.len() == b.len(),
        forall|i: int| 0 <= i < a.len() ==> is_digit(#[trigger] a[i]),
        forall|i: int| 0 <= i < b.len() ==> is_digit(#[trigger] b[i]),
        seq_num(a) == seq_num(b),
    ensures
        a == b,
    decreases a.len(),
{
    if a.len() == 0 {
        assert(a =~= b);
    } else {
        let pa = a.drop_last();
        let pb = b.drop_last();
        assert(is_digit(a.last()));
        assert(is_digit(b.last()));
        let da = digit_val(a.last());
        let db = digit_val(b.last());
        assert(seq_num(pa) == seq_num(pb) && da == db) by (nonlinear_arith)
            requires
                seq_num(pa) * 10 + da == seq_num(pb) * 10 + db,
                0 <= da < 10,
                0 <= db < 10,
        ;
        assert(forall|i: int| 0 <= i < pa.len() ==> is_digit(#[trigger] pa[i]));
        assert(forall|i: int| 0 <= i < pb.len() ==> is_digit(#[trigger] pb[i]));
        lemma_seq_num_injective(pa, pb);
        assert(a.last() as u32 == b.last() as u32);
        vstd::utf8::char_u32_cast(a.last(), a.last() as u32);
        vstd::utf8::char_u32_cast(b.last(), b.last() as u32);
        assert(a.last() == b.last());
        assert(a =~= pa.push(a.last()));
        assert(b =~= pb.push(b.last()));
        assert(a =~= b);
    }
}

/// The numeric value of a valid employee identifier, as a machine integer.
/// Eight digits always fit in a `u32`.
pub fn emp_id_value(s: &str) -> (r: u32)
    requires
        valid_emp_id(s@),
    ensures
        r as int == seq_num(s@),
        r < 100000000,
{
    let mut acc: u32 = 0;
    let mut i: usize = 0;
    proof {
        assert(s@.subrange(0, 0) =~= Seq::<char>::empty());
    }
    while i < 8
        invariant
            valid_emp_id(s@),
            i <= 8,
            acc as int == seq_num(s@.subrange(0, i as int)),
            (acc as int) < pow10(i as nat),
        decreases 8 - i,
    {
        let c = s.get_char(i);
        let v = c as u32;
        proof {
            assert(is_digit(s@[i as int]));
            let p = s@.subrange(0, i as int);
            let q = s@.subrange(0, i as int + 1);
            assert(q.drop_last() =~= p);
            assert(q.last() == s@[i as int]);
            assert(pow10((i + 1) as nat) == 10 * pow10(i as nat));
            assert(acc * 10 + (v - 48) < pow10(i as nat) * 10) by (nonlinear_arith)
                requires
                    (acc as int) < pow10(i as nat),
                    v - 48 < 10,
            ;
            lemma_pow10_mono((i + 1) as nat, 8);
            assert(pow10(8) == 100000000) by {
                reveal_with_fuel(pow10, 9);
            }
        }
        acc = acc * 10 + (v - 48);
        i = i + 1;
    }
    proof {
        assert(s@.subrange(0, 8) =~= s@);
        assert(pow10(8) == 100000000) by {
            reveal_with_fuel(pow10, 9);
        }
    }
    acc
}

/// `pow10` is monotone.
pub proof fn lemma_pow10_mono(m: nat, n: nat)
    requires
        m <= n,
    ensures
        pow10(m) <= pow10(n),
    decreases n,
{
    if m < n {
        lemma_pow10_mono(m, (n - 1) as nat);
        assert(pow10(((n - 1) as nat)) <= pow10(n)) by {
            lemma_pow10_pos((n - 1) as nat);
        }
    }
}

/// `pow10` is positive.
pub proof fn lemma_pow10_pos(n: nat)
    ensures
        pow10(n) >= 1,
    decreases n,
{
    if n > 0 {
        lemma_pow10_pos((n - 1) as nat);
    }
}

/// `a` is lexicographically smaller than `b` by character value: at the
/// first position where they differ, `a` has the smaller character.
pub open spec fn lex_less(a: Seq<char>, b: Seq<char>) -> bool {
    exists|k: int|
        0 <= k < a.len() && k < b.len() && #[trigger] a.subrange(0, k) == b.subrange(0, k) && (a[k]
            as u32) < (b[k] as u32)
}

/// A digit string splits at any position: the number it denotes is the
/// prefix's number shifted by the suffix's width, plus the suffix's number.
pub proof fn lemma_seq_num_split(s: Seq<char>, k: int)
    requires
        0 <= k <= s.len(),
    ensures
        seq_num(s) == seq_num(s.take(k)) * pow10((s.len() - k) as nat) + seq_num(s.skip(k)),
    decreases s.len() - k,
{
    if k == s.len() {
        assert(s.take(k) =~= s);
        assert(s.skip(k) =~= Seq::<char>::empty());
    } else {
        let p = s.drop_last();
        lemma_seq_num_split(p, k);
        assert(p.take(k) =~= s.take(k));
        assert(s.skip(k).len() == s.len() - k);
        assert(s.skip(k).drop_last() =~= p.skip(k));
        assert(s.skip(k).last() == s.last());
        let x = seq_num(s.take(k));
        let w = pow10((s.len() - 1 - k) as nat);
        let y = seq_num(p.skip(k));
        let d = digit_val(s.last());
        assert(seq_num(p) == x * w + y);
        assert(seq_num(s) == seq_num(p) * 10 + d);
        assert(seq_num(s.skip(k)) == y * 10 + d);
        assert(pow10((s.len() - k) as nat) == 10 * w);
        assert((x * w + y) * 10 + d == x * (10 * w) + (y * 10 + d)) by (nonlinear_arith);
    }
}

/// A lexicographically smaller digit string of the same length denotes a
/// strictly smaller number.
pub proof fn lemma_lex_less_num(a: Seq<char>, b: Seq<char>)
    requires
        a.len() == b.len(),
        forall|i: int| 0 <= i < a.len() ==> is_digit(#[trigger] a[i]),
        forall|i: int| 0 <= i < b.len() ==> is_digit(#[trigger] b[i]),
        lex_less(a, b),
    ensures
        seq_num(a) < seq_num(b),
{
    let k = choose|k: int|
        0 <= k < a.len() && k < b.len() && #[trigger] a.subrange(0, k) == b.subrange(0, k) && (a[k]
            as u32) < (b[k] as u32);
    lemma_seq_num_split(a, k);
    lemma_seq_num_split(b, k);
    assert(a.take(k) == b.take(k));
    let sa = a.skip(k);
    let sb = b.skip(k);
    assert(forall|i: int| 0 <= i < sa.len() ==> is_digit(#[trigger] sa[i])) by {
        assert(forall|i: int| 0 <= i < sa.len() ==> sa[i] == a[k + i]);
    }
    assert(forall|i: int| 0 <= i < sb.len() ==> is_digit(#[trigger] sb[i])) by {
        assert(forall|i: int| 0 <= i < sb.len() ==> sb[i] == b[k + i]);
    }
    lemma_seq_num_split(sa, 1);
    lemma_seq_num_split(sb, 1);
    assert(sa.take(1).drop_last() =~= Seq::<char>::empty());
    assert(sb.take(1).drop_last() =~= Seq::<char>::empty());
    assert(seq_num(Seq::<char>::empty()) == 0);
    assert(sa.take(1).len() == 1 && sa.take(1).last() == sa[0]);
    assert(sb.take(1).len() == 1 && sb.take(1).last() == sb[0]);
    assert(seq_num(sa.take(1)) == digit_val(sa[0]));
    assert(seq_num(sb.take(1)) == digit_val(sb[0]));
    assert(sa[0] == a[k] && sb[0] == b[k]);
    let w = pow10((sa.len() - 1) as nat);
    let da = digit_val(a[k]);
    let db = digit_val(b[k]);
    let ra = seq_num(sa.skip(1));
    let rb = seq_num(sb.skip(1));
    assert(forall|i: int| 0 <= i < sa.skip(1).len() ==> is_digit(#[trigger] sa.skip(1)[i])) by {
        assert(forall|i: int| 0 <= i < sa.skip(1).len() ==> sa.skip(1)[i] == sa[1 + i]);
    }
    assert(forall|i: int| 0 <= i < sb.skip(1).len() ==> is_digit(#[trigger] sb.skip(1)[i])) by {
        assert(forall|i: int| 0 <= i < sb.skip(1).len() ==> sb.skip(1)[i] == sb[1 + i]);
    }
    lemma_seq_num_bound(sa.skip(1));
    lemma_seq_num_bound(sb.skip(1));
    assert(sa.skip(1).len() == sa.len() - 1);
    assert(da * w + ra < db * w + rb) by (nonlinear_arith)
        requires
            da < db,
            0 <= ra < w,
            0 <= rb,
    ;
    assert(seq_num(sa) == da * w + ra);
    assert(seq_num(sb) == db * w + rb);
}

/// Two distinct strings of the same length differ first at some position,
/// so one is lexicographically smaller than the other.
pub proof fn lemma_neq_has_first_diff(a: Seq<char>, b: Seq<char>)
    requires
        a.len() == b.len(),
        a != b,
    ensures
        lex_less(a, b) || lex_less(b, a),
    decreases a.len(),
{
    if a.len() == 0 {
        assert(a =~= b);
    } else if a[0] != b[0] {
        vstd::utf8::char_u32_cast(a[0], a[0] as u32);
        vstd::utf8::char_u32_cast(b[0], b[0] as u32);
        assert(a[0] as u32 != b[0] as u32);
        assert(a.subrange(0, 0) =~= b.subrange(0, 0));
        if (a[0] as u32) < (b[0] as u32) {
            assert(lex_less(a, b));
        } else {
            assert(lex_less(b, a));
        }
    } else {
        let ta = a.skip(1);
        let tb = b.skip(1);
        assert(ta != tb) by {
            if ta == tb {
                assert forall|i: int| 0 <= i < a.len() implies a[i] == b[i] by {
                    if i >= 1 {
                        assert(a[i] == ta[i - 1]);
                        assert(b[i] == tb[i - 1]);
                    }
                }
                assert(a =~= b);
            }
        }
        lemma_neq_has_first_diff(ta, tb);
        if lex_less(ta, tb) {
            lemma_lex_less_shift(a, b, ta, tb);
        } else {
            lemma_lex_less_shift(b, a, tb, ta);
        }
    }
}

/// A first difference in the tails of two strings with equal heads is a
/// first difference in the strings themselves, one position later.
proof fn lemma_lex_less_shift(a: Seq<char>, b: Seq<char>, ta: Seq<char>, tb: Seq<char>)
    requires
        a.len() == b.len(),
        a.len() > 0,
        a[0] == b[0],
        ta == a.skip(1),
        tb == b.skip(1),
        lex_less(ta, tb),
    ensures
        lex_less(a, b),
{
    let k = choose|k: int|
        0 <= k < ta.len() && k < tb.len() && #[trigger] ta.subrange(0, k) == tb.subrange(0, k) && (
        ta[k] as u32) < (tb[k] as u32);
    assert forall|i: int| 0 <= i < k + 1 implies #[trigger] a.subrange(0, k + 1)[i] == b.subrange(
        0,
        k + 1,
    )[i] by {
        assert(a.subrange(0, k + 1)[i] == a[i]);
        assert(b.subrange(0, k + 1)[i] == b[i]);
        if i >= 1 {
            assert(ta.subrange(0, k)[i - 1] == tb.subrange(0, k)[i - 1]);
            assert(ta.subrange(0, k)[i - 1] == ta[i - 1]);
            assert(tb.subrange(0, k)[i - 1] == tb[i - 1]);
            assert(ta[i - 1] == a[i]);
            assert(tb[i - 1] == b[i]);
        }
    }
    assert(a.subrange(0, k + 1) =~= b.subrange(0, k + 1));
    assert(a[k + 1] == ta[k] && b[k + 1] == tb[k]);
    assert(lex_less(a, b));
}

/// For eight-digit identifiers, the numeric sort key orders exactly as the
/// identifiers themselves compare lexicographically: a table ascending by
/// key is ascending by `emp_id`.
pub proof fn lemma_key_order_is_lexicographic(a: Seq<char>, b: Seq<char>)
    requires
        valid_emp_id(a),
        valid_emp_id(b),
    ensures
        seq_num(a) < seq_num(b) <==> lex_less(a, b),
{
    if lex_less(a, b) {
        lemma_lex_less_num(a, b);
    }
    if seq_num(a) < seq_num(b) && !lex_less(a, b) {
        assert(a != b);
        lemma_neq_has_first_diff(a, b);
        lemma_lex_less_num(b, a);
    }
}

} // verus!
