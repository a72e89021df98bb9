//! Numbers as text: digit strings in a base from 2 to 16, most significant
//! digit first, without sign or prefix. Digits above 9 are written in lower
//! case and read in either case.

use crate::limbs::{
    base, is_zero_limbs, lemma_prefix_val_bound, lemma_prefix_val_ext, lemma_radix_pos, less_than,
    limbs_val, prefix_val, radix, zero_limbs,
};
use crate::modular::{small_limbs, Modulus};
use crate::montgomery::addmul_row;
use vstd::arithmetic::div_mod::{lemma_fundamental_div_mod, lemma_mod_bound};
use vstd::prelude::*;
use vstd::string::{StrSliceExecFns, StringExecFns};

verus! {

/// The character for the digit `d`.
pub open spec fn digit_char(d: nat) -> char {
    if d == 0 {
        '0'
    } else if d == 1 {
        '1'
    } else if d == 2 {
        '2'
    } else if d == 3 {
        '3'
    } else if d == 4 {
        '4'
    } else if d == 5 {
        '5'
    } else if d == 6 {
        '6'
    } else if d == 7 {
        '7'
    } else if d == 8 {
        '8'
    } else if d == 9 {
        '9'
    } else if d == 10 {
        'a'
    } else if d == 11 {
        'b'
    } else if d == 12 {
        'c'
    } else if d == 13 {
        'd'
    } else if d == 14 {
        'e'
    } else {
        'f'
    }
}

/// The digit that a character stands for, if it is one.
pub open spec fn digit_val(c: char) -> Option<nat> {
    if c == '0' {
        Some(0)
    } else if c == '1' {
        Some(1)
    } else if c == '2' {
        Some(2)
    } else if c == '3' {
        Some(3)
    } else if c == '4' {
        Some(4)
    } else if c == '5' {
        Some(5)
    } else if c == '6' {
        Some(6)
    } else if c == '7' {
        Some(7)
    } else if c == '8' {
        Some(8)
    } else if c == '9' {
        Some(9)
    } else if c == 'a' || c == 'A' {
        Some(10)
    } else if c == 'b' || c == 'B' {
        Some(11)
    } else if c == 'c' || c == 'C' {
        Some(12)
    } else if c == 'd' || c == 'D' {
        Some(13)
    } else if c == 'e' || c == 'E' {
        Some(14)
    } else if c == 'f' || c == 'F' {
        Some(15)
    } else {
        None
    }
}

/// Whether `c` is a digit of the base.
pub open spec fn is_digit(c: char, b: nat) -> bool {
    digit_val(c) matches Some(d) && d < b
}

/// Whether every character is a digit of the base.
pub open spec fn all_digits(s: Seq<char>, b: nat) -> bool {
    forall|i: int| 0 <= i < s.len() ==> is_digit(#[trigger] s[i], b)
}

/// The value of a digit string, most significant digit first.
pub open spec fn digits_val(s: Seq<char>, b: nat) -> nat
    decreases s.len(),
{
    if s.len() == 0 {
        0
    } else {
        digits_val(s.drop_last(), b) * b + digit_val(s.last()).unwrap()
    }
}

/// The number that a text stands for: the text is a non-empty string of digits
/// of the base.
pub open spec fn parse_nat(s: Seq<char>, b: nat) -> Option<nat> {
    if s.len() > 0 && all_digits(s, b) {
        Some(digits_val(s, b))
    } else {
        None
    }
}

/// The digits of `v` in base `b`, most significant first, without leading
/// zeros; zero is the single digit 0.
pub open spec fn digits(v: nat, b: nat) -> Seq<char>
    decreases v,
{
    if b < 2 || v < b {
        seq![digit_char(v)]
    } else {
        proof {
            assert(v / b < v) by (nonlinear_arith)
                requires
                    b >= 2,
                    v >= b,
            ;
        }
        digits(v / b, b).push(digit_char(v % b))
    }
}

/// The characters of a list of digits that has the least significant first.
pub open spec fn chars_rev(ds: Seq<u8>) -> Seq<char> {
    Seq::new(ds.len(), |i: int| digit_char(ds[ds.len() - 1 - i] as nat))
}

/// Reading what was written gives the number back.
pub proof fn lemma_parse_digits(v: nat, b: nat)
    requires
        2 <= b <= 16,
    ensures
        parse_nat(digits(v, b), b) == Some(v),
    decreases v,
{
    if v < b {
        let s = digits(v, b);
        assert(s.drop_last().len() == 0);
        assert(digits_val(s.drop_last(), b) == 0);
        assert(0 * b == 0);
        assert(s[0] == digit_char(v));
    } else {
        assert(v / b < v) by (nonlinear_arith)
            requires
                b >= 2,
                v >= b,
        ;
        lemma_parse_digits(v / b, b);
        let hd = digits(v / b, b);
        let s = digits(v, b);
        assert(s == hd.push(digit_char(v % b)));
        assert(s.drop_last() =~= hd);
        lemma_mod_bound(v as int, b as int);
        lemma_fundamental_div_mod(v as int, b as int);
        assert((v / b) * b == b * (v / b)) by (nonlinear_arith);
        assert forall|i: int| 0 <= i < s.len() implies is_digit(#[trigger] s[i], b) by {
            if i < hd.len() {
                assert(s[i] == hd[i]);
            }
        }
    }
}

/// A digit string's value does not go down as digits are appended.
pub proof fn lemma_digits_val_prefix(s: Seq<char>, i: int, b: nat)
    requires
        0 <= i <= s.len(),
        b >= 1,
    ensures
        digits_val(s.take(i), b) <= digits_val(s, b),
    decreases s.len() - i,
{
    if i == s.len() {
        assert(s.take(i) =~= s);
    } else {
        lemma_digits_val_prefix(s.drop_last(), i, b);
        assert(s.drop_last().take(i) =~= s.take(i));
        let x = digits_val(s.drop_last(), b);
        assert(x * b >= x) by (nonlinear_arith)
            requires
                b >= 1,
        ;
    }
}

/// The index of the first space of a text, and the text's length where it has
/// none.
pub open spec fn first_space(s: Seq<char>) -> int
    decreases s.len(),
{
    if s.len() == 0 || s[0] == ' ' {
        0
    } else {
        1 + first_space(s.drop_first())
    }
}

/// The words of a text: what stands before, between and after its spaces.
pub open spec fn words(s: Seq<char>) -> Seq<Seq<char>>
    decreases s.len(),
{
    let i = first_space(s);
    if 0 <= i < s.len() {
        seq![s.take(i)] + words(s.skip(i + 1))
    } else {
        seq![s]
    }
}

/// Whether a text has no space.
pub open spec fn no_space(s: Seq<char>) -> bool {
    forall|i: int| 0 <= i < s.len() ==> s[i] != ' '
}

/// The first space stands where the text says, after characters that are no
/// spaces.
pub proof fn lemma_first_space(s: Seq<char>)
    ensures
        0 <= first_space(s) <= s.len(),
        forall|j: int| 0 <= j < first_space(s) ==> s[j] != ' ',
        first_space(s) < s.len() ==> s[first_space(s)] == ' ',
    decreases s.len(),
{
    if s.len() == 0 || s[0] == ' ' {
    } else {
        let t = s.drop_first();
        lemma_first_space(t);
        assert forall|j: int| 0 <= j < first_space(s) implies s[j] != ' ' by {
            if j > 0 {
                assert(s[j] == t[j - 1]);
            }
        }
        if first_space(s) < s.len() {
            assert(s[first_space(s)] == t[first_space(t)]);
        }
    }
}

/// The first space of a text is at `k` where `k` is the first index that
/// holds a space or the text's end.
pub proof fn lemma_first_space_at(s: Seq<char>, k: int)
    requires
        0 <= k <= s.len(),
        forall|j: int| 0 <= j < k ==> s[j] != ' ',
        k < s.len() ==> s[k] == ' ',
    ensures
        first_space(s) == k,
{
    lemma_first_space(s);
    let f = first_space(s);
    if f < k {
        assert(s[f] == ' ');
    } else if f > k {
        assert(s[k] != ' ');
    }
}

/// A text without space is one word.
pub proof fn lemma_words_single(a: Seq<char>)
    requires
        no_space(a),
    ensures
        words(a) == seq![a],
{
    lemma_first_space_at(a, a.len() as int);
}

/// A text without space, a space and a rest: the words are the text and the
/// words of the rest.
pub proof fn lemma_words_join(a: Seq<char>, rest: Seq<char>)
    requires
        no_space(a),
    ensures
        words(a + seq![' '] + rest) == seq![a] + words(rest),
{
    let s = a + seq![' '] + rest;
    lemma_first_space_at(s, a.len() as int);
    assert(s.take(a.len() as int) =~= a);
    assert(s.skip(a.len() as int + 1) =~= rest);
}

/// A text, a space and a word without space: the words are those of the text
/// and the word.
pub proof fn lemma_words_push(s: Seq<char>, a: Seq<char>)
    requires
        no_space(a),
    ensures
        words(s + seq![' '] + a) == words(s).push(a),
    decreases s.len(),
{
    let t = s + seq![' '] + a;
    lemma_first_space(s);
    let i = first_space(s);
    if i < s.len() {
        lemma_first_space_at(t, i);
        let rest = s.skip(i + 1);
        assert(t.take(i) =~= s.take(i));
        assert(t.skip(i + 1) =~= rest + seq![' '] + a);
        lemma_words_push(rest, a);
        assert(words(t) =~= words(s).push(a));
    } else {
        lemma_words_join(s, a);
        lemma_words_single(a);
        assert(words(t) =~= words(s).push(a));
    }
}

/// The text of a number has no space.
pub proof fn lemma_digits_no_space(v: nat, b: nat)
    ensures
        no_space(digits(v, b)),
    decreases v,
{
    if b < 2 || v < b {
    } else {
        assert(v / b < v) by (nonlinear_arith)
            requires
                b >= 2,
                v >= b,
        ;
        lemma_digits_no_space(v / b, b);
        let hd = digits(v / b, b);
        let s = digits(v, b);
        assert forall|i: int| 0 <= i < s.len() implies s[i] != ' ' by {
            if i < hd.len() {
                assert(s[i] == hd[i]);
            }
        }
    }
}

/// The texts of the words of a list of string slices.
pub open spec fn views_of(ws: Seq<&str>) -> Seq<Seq<char>> {
    Seq::new(ws.len(), |i: int| ws[i]@)
}

/// The words of a text.
pub fn split_words<'a>(s: &'a str) -> (r: Vec<&'a str>)
    ensures
        views_of(r@) == words(s@),
{
    let n = s.unicode_len();
    let mut out: Vec<&'a str> = Vec::new();
    let mut start: usize = 0;
    proof {
        assert(s@.skip(0) =~= s@);
        assert(views_of(out@) + words(s@.skip(0)) =~= words(s@));
    }
    loop
        invariant_except_break
            start <= n,
            n == s@.len(),
            views_of(out@) + words(s@.skip(start as int)) == words(s@),
        ensures
            views_of(out@) == words(s@),
        decreases n - start,
    {
        let mut end: usize = start;
        while end < n && s.get_char(end) != ' '
            invariant
                start <= end <= n,
                n == s@.len(),
                forall|j: int| start <= j < end ==> s@[j] != ' ',
            decreases n - end,
        {
            end = end + 1;
        }
        let w = s.substring_char(start, end);
        let ghost o0 = out@;
        out.push(w);
        proof {
            let t = s@.skip(start as int);
            lemma_first_space_at(t, end - start);
            assert(t.take(end - start) =~= w@);
            assert(views_of(out@) =~= views_of(o0) + seq![w@]);
            if end < n {
                assert(t.skip(end - start + 1) =~= s@.skip(end + 1));
                assert(words(t) == seq![w@] + words(s@.skip(end + 1)));
                assert(views_of(out@) + words(s@.skip(end + 1)) =~= views_of(o0) + words(t));
            } else {
                assert(t.take(end - start) =~= t);
                assert(words(t) == seq![t]);
                assert(views_of(out@) =~= views_of(o0) + words(t));
            }
        }
        if end >= n {
            break ;
        }
        start = end + 1;
    }
    out
}

/// Whether a text is the single character `c`.
pub fn is_single_char(w: &str, c: char) -> (r: bool)
    ensures
        r == (w@ == seq![c]),
{
    if w.unicode_len() != 1 {
        return false;
    }
    let r = w.get_char(0) == c;
    proof {
        if r {
            assert(w@ =~= seq![c]);
        }
    }
    r
}

/// The digit that a character stands for.
pub fn digit_value(c: char) -> (r: Option<u8>)
    ensures
        r is Some <==> digit_val(c) is Some,
        r is Some ==> r->0 as nat == digit_val(c)->0 && r->0 < 16,
{
    if c == '0' {
        Some(0)
    } else if c == '1' {
        Some(1)
    } else if c == '2' {
        Some(2)
    } else if c == '3' {
        Some(3)
    } else if c == '4' {
        Some(4)
    } else if c == '5' {
        Some(5)
    } else if c == '6' {
        Some(6)
    } else if c == '7' {
        Some(7)
    } else if c == '8' {
        Some(8)
    } else if c == '9' {
        Some(9)
    } else if c == 'a' || c == 'A' {
        Some(10)
    } else if c == 'b' || c == 'B' {
        Some(11)
    } else if c == 'c' || c == 'C' {
        Some(12)
    } else if c == 'd' || c == 'D' {
        Some(13)
    } else if c == 'e' || c == 'E' {
        Some(14)
    } else if c == 'f' || c == 'F' {
        Some(15)
    } else {
        None
    }
}

/// The text of one digit.
pub fn digit_str(d: u8) -> (r: &'static str)
    requires
        d < 16,
    ensures
        r@ == seq![digit_char(d as nat)],
{
    proof {
        reveal_strlit("0");
        reveal_strlit("1");
        reveal_strlit("2");
        reveal_strlit("3");
        reveal_strlit("4");
        reveal_strlit("5");
        reveal_strlit("6");
        reveal_strlit("7");
        reveal_strlit("8");
        reveal_strlit("9");
        reveal_strlit("a");
        reveal_strlit("b");
        reveal_strlit("c");
        reveal_strlit("d");
        reveal_strlit("e");
        reveal_strlit("f");
    }
    let r = if d == 0 {
        "0"
    } else if d == 1 {
        "1"
    } else if d == 2 {
        "2"
    } else if d == 3 {
        "3"
    } else if d == 4 {
        "4"
    } else if d == 5 {
        "5"
    } else if d == 6 {
        "6"
    } else if d == 7 {
        "7"
    } else if d == 8 {
        "8"
    } else if d == 9 {
        "9"
    } else if d == 10 {
        "a"
    } else if d == 11 {
        "b"
    } else if d == 12 {
        "c"
    } else if d == 13 {
        "d"
    } else if d == 14 {
        "e"
    } else {
        "f"
    };
    assert(r@ =~= seq![digit_char(d as nat)]);
    r
}

proof fn lemma_div_small_step(
    x: int,
    q: int,
    r2: int,
    r: int,
    aj: int,
    d: int,
    rj1: int,
    hi_a: int,
    qv: int,
)
    requires
        x == r * base() + aj,
        x == q * d + r2,
        hi_a == qv * d + r * (base() * rj1),
    ensures
        hi_a + aj * rj1 == (qv + q * rj1) * d + r2 * rj1,
{
    assert((r * base() + aj) * rj1 == r * (base() * rj1) + aj * rj1) by (nonlinear_arith);
    assert((q * d + r2) * rj1 == (q * rj1) * d + r2 * rj1) by (nonlinear_arith);
    assert((qv + q * rj1) * d == qv * d + (q * rj1) * d) by (nonlinear_arith);
}

/// Setting a zero limb adds the limb's weight to the value.
pub proof fn lemma_set_zero_limb(s0: Seq<u64>, s1: Seq<u64>, k: int, n: nat)
    requires
        0 <= k < n,
        s0.len() == s1.len(),
        n <= s0.len(),
        s0[k] == 0,
        forall|i: int| 0 <= i < n && i != k ==> s0[i] == s1[i],
    ensures
        prefix_val(s1, n) == prefix_val(s0, n) + (s1[k] as nat) * radix(k as nat),
    decreases n,
{
    if k == n - 1 {
        lemma_prefix_val_ext(s0, s1, (n - 1) as nat);
        assert(0 * radix(k as nat) == 0);
    } else {
        lemma_set_zero_limb(s0, s1, k, (n - 1) as nat);
    }
}

/// Quotient and remainder of a number by a single limb.
pub fn div_small<const N: usize>(a: &[u64; N], d: u64) -> (r: ([u64; N], u64))
    requires
        d > 0,
    ensures
        limbs_val(a@) == limbs_val(r.0@) * (d as nat) + r.1,
        r.1 < d,
{
    let mut q: [u64; N] = zero_limbs(a);
    let mut rem: u64 = 0;
    let mut j: usize = N;
    proof {
        assert(0 * (d as nat) + 0 * radix(N as nat) == 0);
    }
    while j > 0
        invariant
            j <= N,
            d > 0,
            rem < d,
            forall|k: int| 0 <= k < j ==> q[k] == 0,
            limbs_val(a@) - prefix_val(a@, j as nat) == limbs_val(q@) * (d as nat) + (rem as nat)
                * radix(j as nat),
        decreases j,
    {
        let x: u128 = (rem as u128) * 0x1_0000_0000_0000_0000u128 + (a[j - 1] as u128);
        let qd: u128 = x / (d as u128);
        let r2: u128 = x % (d as u128);
        proof {
            lemma_fundamental_div_mod(x as int, d as int);
            lemma_mod_bound(x as int, d as int);
            assert(qd < base()) by (nonlinear_arith)
                requires
                    x as int == (d as int) * (qd as int) + (r2 as int),
                    x < (d as int) * base(),
                    r2 >= 0,
                    d > 0,
            ;
            assert((d as int) * (qd as int) == (qd as int) * (d as int)) by (nonlinear_arith);
        }
        let ghost q0 = q@;
        q[j - 1] = qd as u64;
        proof {
            lemma_set_zero_limb(q0, q@, j - 1, N as nat);
            assert(radix(j as nat) == base() * radix((j - 1) as nat));
            lemma_div_small_step(
                x as int,
                qd as int,
                r2 as int,
                rem as int,
                a[j - 1] as int,
                d as int,
                radix((j - 1) as nat) as int,
                limbs_val(a@) - prefix_val(a@, j as nat),
                limbs_val(q0) as int,
            );
        }
        rem = r2 as u64;
        j = j - 1;
    }
    proof {
        assert((rem as nat) * radix(0) == rem as nat) by (nonlinear_arith)
            requires
                radix(0) == 1,
        ;
    }
    (q, rem)
}

/// The digits of a number in the given base, as text.
pub fn format_limbs<const N: usize>(a: &[u64; N], b: u64) -> (s: String)
    requires
        2 <= b <= 16,
    ensures
        s@ == digits(limbs_val(a@), b as nat),
{
    let ghost v0 = limbs_val(a@);
    let mut ds: Vec<u8> = Vec::new();
    let mut cur: [u64; N] = *a;
    proof {
        assert(digits(v0, b as nat) =~= digits(limbs_val(cur@), b as nat) + chars_rev(ds@));
    }
    loop
        invariant_except_break
            2 <= b <= 16,
            digits(v0, b as nat) == digits(limbs_val(cur@), b as nat) + chars_rev(ds@),
            forall|i: int| 0 <= i < ds@.len() ==> ds@[i] < 16,
        ensures
            digits(v0, b as nat) == chars_rev(ds@),
            forall|i: int| 0 <= i < ds@.len() ==> ds@[i] < 16,
        decreases limbs_val(cur@),
    {
        let (q, r) = div_small(&cur, b);
        let ghost ds0 = ds@;
        let ghost cv = limbs_val(cur@);
        ds.push(r as u8);
        proof {
            let bn = b as nat;
            let qv = limbs_val(q@);
            assert(qv == cv / bn && r as nat == cv % bn) by (nonlinear_arith)
                requires
                    cv == qv * bn + r as nat,
                    (r as nat) < bn,
                    bn > 0,
            {
                vstd::arithmetic::div_mod::lemma_fundamental_div_mod_converse(
                    cv as int,
                    bn as int,
                    qv as int,
                    r as int,
                );
            }
            assert(chars_rev(ds@) =~= seq![digit_char(r as nat)] + chars_rev(ds0));
            if cv < bn {
                assert(qv == 0 && r as nat == cv) by (nonlinear_arith)
                    requires
                        cv == qv * bn + r as nat,
                        cv < bn,
                ;
                assert(digits(cv, bn) =~= seq![digit_char(r as nat)]);
                assert(digits(v0, bn) =~= chars_rev(ds@));
            } else {
                assert(digits(cv, bn) =~= digits(qv, bn).push(digit_char(r as nat)));
                assert(digits(v0, bn) =~= digits(qv, bn) + chars_rev(ds@));
                assert(0 < qv < cv) by (nonlinear_arith)
                    requires
                        cv == qv * bn + r as nat,
                        bn >= 2,
                        cv >= bn,
                        (r as nat) < bn,
                ;
            }
        }
        cur = q;
        if is_zero_limbs(&cur) {
            break ;
        }
    }
    let mut s = String::from_str("");
    let mut i: usize = ds.len();
    proof {
        reveal_strlit("");
        assert(s@ =~= chars_rev(ds@).take(0));
    }
    while i > 0
        invariant
            i <= ds@.len(),
            forall|k: int| 0 <= k < ds@.len() ==> ds@[k] < 16,
            s@ == chars_rev(ds@).take(ds@.len() - i),
        decreases i,
    {
        let piece = digit_str(ds[i - 1]);
        let ghost s0 = s@;
        s.append(piece);
        proof {
            assert(s@ =~= chars_rev(ds@).take(ds@.len() - i + 1));
        }
        i = i - 1;
    }
    proof {
        assert(chars_rev(ds@).take(ds@.len() as int) =~= chars_rev(ds@));
    }
    s
}

/// The number that a text stands for, where it is below the modulus.
pub fn parse_limbs<const N: usize>(s: &str, b: u64, m: &Modulus<N>) -> (r: Option<[u64; N]>)
    requires
        m.wf(),
        2 <= b <= 16,
    ensures
        r is Some <==> (parse_nat(s@, b as nat) matches Some(v) && v < m.value()),
        r is Some ==> parse_nat(s@, b as nat) == Some(limbs_val(r->0@)),
{
    let n = s.unicode_len();
    if n == 0 {
        return None;
    }
    let mut acc: [u64; N] = zero_limbs(&m.p);
    let mut i: usize = 0;
    proof {
        assert(s@.take(0).len() == 0);
    }
    while i < n
        invariant
            i <= n,
            n == s@.len(),
            m.wf(),
            2 <= b <= 16,
            all_digits(s@.take(i as int), b as nat),
            limbs_val(acc@) == digits_val(s@.take(i as int), b as nat),
            limbs_val(acc@) < m.value(),
        decreases n - i,
    {
        let c = s.get_char(i);
        let ghost pre = s@.take(i as int);
        let ghost cur = s@.take(i + 1);
        proof {
            assert(cur.drop_last() =~= pre);
            assert(cur.last() == c);
        }
        let dv = match digit_value(c) {
            Some(d) => d,
            None => {
                proof {
                    assert(!is_digit(s@[i as int], b as nat));
                }
                return None;
            },
        };
        if dv as u64 >= b {
            proof {
                assert(!is_digit(s@[i as int], b as nat));
            }
            return None;
        }
        let t = small_limbs(&acc, dv as u64);
        let (next, carry) = addmul_row(&t, &acc, b);
        proof {
            assert(limbs_val(next@) + (carry as nat) * radix(N as nat) == digits_val(cur, b as nat))
                by (nonlinear_arith)
                requires
                    limbs_val(next@) + (carry as nat) * radix(N as nat) == limbs_val(t@)
                        + limbs_val(acc@) * (b as nat),
                    limbs_val(t@) == dv as nat,
                    digits_val(cur, b as nat) == limbs_val(acc@) * (b as nat) + dv as nat,
            ;
            lemma_radix_pos(N as nat);
            lemma_prefix_val_bound(m.p@, N as nat);
            if all_digits(s@, b as nat) {
                lemma_digits_val_prefix(s@, i + 1, b as nat);
            }
            if carry != 0 {
                assert((carry as nat) * radix(N as nat) >= radix(N as nat)) by (nonlinear_arith)
                    requires
                        carry >= 1,
                        radix(N as nat) > 0,
                ;
            } else {
                assert((carry as nat) * radix(N as nat) == 0) by (nonlinear_arith)
                    requires
                        carry == 0,
                ;
            }
        }
        if carry != 0 || !less_than(&next, &m.p) {
            return None;
        }
        proof {
            assert forall|k: int| 0 <= k < cur.len() implies is_digit(
                #[trigger] cur[k],
                b as nat,
            ) by {
                if k < i {
                    assert(cur[k] == pre[k]);
                }
            }
        }
        acc = next;
        i = i + 1;
    }
    proof {
        assert(s@.take(n as int) =~= s@);
    }
    Some(acc)
}

} // verus!
