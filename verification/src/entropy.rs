//! The Shannon entropy of a text, held against a threshold in whole numbers.
//!
//! For a text of `n` characters in which the character at index `i` occurs
//! `k_i` times, the entropy of the character frequencies, in bits, is the
//! mean of `log2(n / k_i)` over all indices. It stands to the fraction
//! `num / den` as the sum of `den * log2(n / k_i)` stands to `num * n`, and so
//! as the product of all `n^den` stands to the product of all
//! `2^num * k_i^den`. Both products are natural numbers, so the comparison
//! needs no rounding.

use std::collections::HashMap;

use vstd::prelude::*;

use crate::bignat::{level_of, power, BigNat, Level};

verus! {

/// How often `c` occurs in `s`.
pub open spec fn occurrences(s: Seq<char>, c: char) -> nat
    decreases s.len(),
{
    if s.len() == 0 {
        0
    } else {
        occurrences(s.drop_last(), c) + if s.last() == c {
            1nat
        } else {
            0nat
        }
    }
}

/// The product of `n^den` over the first `k` indices of a text of `n`
/// characters.
pub open spec fn spread(n: nat, den: nat, k: nat) -> nat
    decreases k,
{
    if k == 0 {
        1
    } else {
        spread(n, den, (k - 1) as nat) * power(n, den)
    }
}

/// The product of `2^num * k_i^den` over the first `k` indices of `s`, where
/// `k_i` is the number of occurrences in `s` of its character at `i`.
pub open spec fn crowding(s: Seq<char>, num: nat, den: nat, k: nat) -> nat
    decreases k,
{
    if k == 0 {
        1
    } else {
        crowding(s, num, den, (k - 1) as nat) * (power(2, num) * power(
            occurrences(s, s[k - 1]),
            den,
        ))
    }
}

/// How the Shannon entropy of the character frequencies of `s`, in bits,
/// stands to `num / den`. The entropy of the empty text is zero. `None` where
/// `den` is zero, so that there is no fraction to hold the entropy against.
pub open spec fn entropy_level(s: Seq<char>, num: nat, den: nat) -> Option<Level> {
    if den == 0 {
        None
    } else if s.len() == 0 {
        Some(level_of(0, num as int))
    } else {
        Some(
            level_of(spread(s.len(), den, s.len()) as int, crowding(s, num, den, s.len()) as int),
        )
    }
}

/// Whether the Shannon entropy of the character frequencies of `s` exceeds
/// 4.5 bits.
pub open spec fn entropy_exceeds(s: Seq<char>) -> bool {
    entropy_level(s, 9, 2) == Some(Level::Above)
}

/// No character occurs more often than there are characters.
pub proof fn lemma_occurrences_bound(s: Seq<char>, c: char)
    ensures
        occurrences(s, c) <= s.len(),
    decreases s.len(),
{
    if s.len() > 0 {
        lemma_occurrences_bound(s.drop_last(), c);
    }
}

/// In a text made of one character, that character occurs as often as the
/// text is long.
proof fn lemma_occurrences_of_the_only_character(s: Seq<char>, c: char)
    requires
        forall|i: int| 0 <= i < s.len() ==> s[i] == c,
    ensures
        occurrences(s, c) == s.len(),
    decreases s.len(),
{
    if s.len() > 0 {
        let t = s.drop_last();
        assert forall|i: int| 0 <= i < t.len() implies t[i] == c by {
            assert(t[i] == s[i]);
        }
        lemma_occurrences_of_the_only_character(t, c);
    }
}

/// A product does not shrink when each factor is replaced by one that is at
/// least as large.
proof fn lemma_product_grows(a: nat, b: nat, x: nat, y: nat)
    requires
        a <= b,
        x <= y,
    ensures
        a * x <= b * y,
{
    assert(a * x <= b * y) by (nonlinear_arith)
        requires
            a <= b,
            x <= y,
    ;
}

/// The entropy of a text is never negative.
pub proof fn law_entropy_is_not_negative(s: Seq<char>)
    ensures
        entropy_level(s, 0, 1) != Some(Level::Below),
{
    lemma_crowding_is_at_most_spread(s, s.len());
}

/// Over the first `k` indices, the product of the numbers of occurrences is
/// at most that of the lengths.
proof fn lemma_crowding_is_at_most_spread(s: Seq<char>, k: nat)
    requires
        k <= s.len(),
    ensures
        crowding(s, 0, 1, k) <= spread(s.len(), 1, k),
    decreases k,
{
    if k > 0 {
        let j = (k - 1) as nat;
        lemma_crowding_is_at_most_spread(s, j);
        let n = s.len();
        let m = occurrences(s, s[k - 1]);
        lemma_occurrences_bound(s, s[k - 1]);
        reveal_with_fuel(power, 2);
        assert(power(2, 0) == 1);
        assert(power(m, 1) == m) by (nonlinear_arith)
            requires
                power(m, 1) == power(m, 0) * m,
                power(m, 0) == 1,
        ;
        assert(power(n, 1) == n) by (nonlinear_arith)
            requires
                power(n, 1) == power(n, 0) * n,
                power(n, 0) == 1,
        ;
        assert(power(2, 0) * power(m, 1) == m) by (nonlinear_arith)
            requires
                power(2, 0) == 1,
                power(m, 1) == m,
        ;
        lemma_product_grows(crowding(s, 0, 1, j), spread(n, 1, j), m, n);
    }
}

/// A text made of one character, however often repeated, has the entropy
/// zero; so has the empty text.
pub proof fn law_constant_text_has_no_entropy(s: Seq<char>)
    requires
        forall|i: int, j: int| 0 <= i < s.len() && 0 <= j < s.len() ==> s[i] == s[j],
    ensures
        entropy_level(s, 0, 1) == Some(Level::Equal),
{
    lemma_constant_text_fills_its_spread(s, s.len());
}

/// In a text made of one character, the product of the numbers of
/// occurrences over the first `k` indices is that of the lengths.
proof fn lemma_constant_text_fills_its_spread(s: Seq<char>, k: nat)
    requires
        k <= s.len(),
        forall|i: int, j: int| 0 <= i < s.len() && 0 <= j < s.len() ==> s[i] == s[j],
    ensures
        crowding(s, 0, 1, k) == spread(s.len(), 1, k),
    decreases k,
{
    if k > 0 {
        let j = (k - 1) as nat;
        lemma_constant_text_fills_its_spread(s, j);
        let n = s.len();
        let c = s[k - 1];
        assert forall|i: int| 0 <= i < s.len() implies s[i] == c by {}
        lemma_occurrences_of_the_only_character(s, c);
        reveal_with_fuel(power, 2);
        assert(power(2, 0) == 1);
        assert(power(n, 1) == n) by (nonlinear_arith)
            requires
                power(n, 1) == power(n, 0) * n,
                power(n, 0) == 1,
        ;
        assert(power(2, 0) * power(n, 1) == n) by (nonlinear_arith)
            requires
                power(2, 0) == 1,
                power(n, 1) == n,
        ;
    }
}

/// A text that is not empty and in which every character occurs equally
/// often, one time in `2^bits` each, has an entropy of `bits` bits exactly.
pub proof fn law_even_text_has_whole_entropy(s: Seq<char>, bits: nat)
    requires
        s.len() > 0,
        forall|i: int|
            0 <= i < s.len() ==> power(2, bits) * occurrences(s, #[trigger] s[i]) == s.len(),
    ensures
        entropy_level(s, bits, 1) == Some(Level::Equal),
{
    lemma_even_text_fills_its_spread(s, bits, s.len());
}

/// In a text in which every character occurs one time in `2^bits`, the two
/// products over the first `k` indices are the same.
proof fn lemma_even_text_fills_its_spread(s: Seq<char>, bits: nat, k: nat)
    requires
        k <= s.len(),
        forall|i: int|
            0 <= i < s.len() ==> power(2, bits) * occurrences(s, #[trigger] s[i]) == s.len(),
    ensures
        crowding(s, bits, 1, k) == spread(s.len(), 1, k),
    decreases k,
{
    if k > 0 {
        let j = (k - 1) as nat;
        lemma_even_text_fills_its_spread(s, bits, j);
        let n = s.len();
        let m = occurrences(s, s[k - 1]);
        assert(power(2, bits) * m == n);
        reveal_with_fuel(power, 2);
        assert(power(m, 1) == m) by (nonlinear_arith)
            requires
                power(m, 1) == power(m, 0) * m,
                power(m, 0) == 1,
        ;
        assert(power(n, 1) == n) by (nonlinear_arith)
            requires
                power(n, 1) == power(n, 0) * n,
                power(n, 0) == 1,
        ;
    }
}

/// How often `c` occurs, by the table `m` of occurrences by code point.
pub open spec fn counted(m: Map<u32, usize>, c: char) -> nat {
    if m.contains_key(c as u32) {
        m[c as u32] as nat
    } else {
        0
    }
}

/// Two characters of the same code point are the same character.
proof fn lemma_code_points_tell_characters_apart(a: char, b: char)
    requires
        a as u32 == b as u32,
    ensures
        a == b,
{
    vstd::utf8::char_u32_cast(a, a as u32);
    vstd::utf8::char_u32_cast(b, b as u32);
}

/// The code point of `c`.
fn code_point(c: char) -> (r: u32)
    ensures
        r == c as u32,
{
    c as u32
}

/// The table of the occurrences in `v`, by code point.
fn frequencies(v: &Vec<char>) -> (m: HashMap<u32, usize>)
    ensures
        forall|c: char| counted(m@, c) == occurrences(v@, c),
{
    broadcast use vstd::std_specs::hash::group_hash_axioms;

    let mut m: HashMap<u32, usize> = HashMap::new();
    let mut i: usize = 0;
    assert(v@.take(0) =~= Seq::empty());
    while i < v.len()
        invariant
            i <= v.len(),
            forall|c: char| counted(m@, c) == occurrences(v@.take(i as int), c),
        decreases v.len() - i,
    {
        let x: char = v[i];
        let key: u32 = code_point(x);
        let have: usize = match m.get(&key) {
            Some(n) => *n,
            None => 0,
        };
        proof {
            assert(have == counted(m@, x));
            lemma_occurrences_bound(v@.take(i as int), x);
            assert(v@.take(i + 1).drop_last() =~= v@.take(i as int));
        }
        let ghost before = m@;
        m.insert(key, have + 1);
        proof {
            assert forall|c: char| counted(m@, c) == occurrences(v@.take(i + 1), c) by {
                assert(counted(before, c) == occurrences(v@.take(i as int), c));
                if c != x {
                    if c as u32 == x as u32 {
                        lemma_code_points_tell_characters_apart(c, x);
                    }
                }
            }
        }
        i += 1;
    }
    assert(v@.take(v.len() as int) =~= v@);
    m
}

/// How often `c` occurs, by the table `m`.
fn look_up(m: &HashMap<u32, usize>, c: char) -> (n: usize)
    ensures
        n == counted(m@, c),
{
    broadcast use vstd::std_specs::hash::group_hash_axioms;

    let key: u32 = code_point(c);
    match m.get(&key) {
        Some(n) => *n,
        None => 0,
    }
}

/// How the Shannon entropy of the character frequencies of `text`, in bits,
/// stands to `num / den`; `None` where `den` is zero.
pub fn entropy_against(text: &str, num: u32, den: u32) -> (r: Option<Level>)
    ensures
        r == entropy_level(text@, num as nat, den as nat),
{
    let v = crate::text::chars_of(text);
    chars_entropy_against(&v, num, den)
}

/// How the Shannon entropy of the character frequencies of `v`, in bits,
/// stands to `num / den`; `None` where `den` is zero.
pub fn chars_entropy_against(v: &Vec<char>, num: u32, den: u32) -> (r: Option<Level>)
    ensures
        r == entropy_level(v@, num as nat, den as nat),
{
    if den == 0 {
        return None;
    }
    let n: usize = v.len();
    if n == 0 {
        return Some(
            if num > 0 {
                Level::Below
            } else {
                Level::Equal
            },
        );
    }
    let table = frequencies(v);
    let mut wide = BigNat::from_u64(1);
    let mut narrow = BigNat::from_u64(1);
    let mut i: usize = 0;
    while i < n
        invariant
            i <= n,
            n == v.len(),
            forall|c: char| counted(table@, c) == occurrences(v@, c),
            wide.value() == spread(n as nat, den as nat, i as nat),
            narrow.value() == crowding(v@, num as nat, den as nat, i as nat),
        decreases n - i,
    {
        let k: usize = look_up(&table, v[i]);
        let ghost c = narrow.value();
        narrow.mul_power(2, num);
        narrow.mul_power(k as u64, den);
        wide.mul_power(n as u64, den);
        proof {
            let a = power(2, num as nat);
            let b = power(k as nat, den as nat);
            assert(c * a * b == c * (a * b)) by (nonlinear_arith);
        }
        i += 1;
    }
    Some(wide.level(&narrow))
}

} // verus!
