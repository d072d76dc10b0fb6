//! The bijection between a linear search index and a candidate string.

use vstd::arithmetic::div_mod::*;
use vstd::arithmetic::mul::*;
use vstd::arithmetic::power::*;
use crate::text::chars_of;
use vstd::prelude::*;

verus! {

/// The digit of `index` at position `pos` (least significant first) when
/// written in base `base`.
pub open spec fn digit(index: nat, base: nat, pos: nat) -> nat {
    ((index as int / pow(base as int, pos)) % (base as int)) as nat
}

/// The candidate of a given length that a search index stands for: its
/// character at position `p` is the alphabet's character at the index's
/// `p`-th digit in base `alphabet.len()`.
pub open spec fn candidate(index: nat, alphabet: Seq<char>, length: nat) -> Seq<char> {
    Seq::new(length, |p: int| alphabet[digit(index, alphabet.len(), p as nat) as int])
}

/// Dividing by the base once more moves to the next digit.
pub proof fn lemma_next_digit(index: nat, base: nat, pos: nat)
    requires
        base >= 1,
    ensures
        pow(base as int, pos) > 0,
        (index as int / pow(base as int, pos)) / (base as int) == index as int / pow(
            base as int,
            pos + 1,
        ),
{
    lemma_pow_positive(base as int, pos);
    lemma_div_denominator(index as int, pow(base as int, pos), base as int);
    lemma_pow_adds(base as int, pos, 1);
    lemma_pow1(base as int);
}

/// The candidate at `index` over the characters `chars`.
pub fn combination_from_chars(index: usize, chars: &Vec<char>, length: usize) -> (result: String)
    requires
        length > 0 ==> chars@.len() >= 1,
    ensures
        result@ == candidate(index as nat, chars@, length as nat),
{
    let base = chars.len();
    let mut result = String::new();
    let mut remaining = index;
    let mut k: usize = 0;
    proof {
        lemma_pow0(base as int);
    }
    while k < length
        invariant
            base == chars@.len(),
            length > 0 ==> base >= 1,
            k <= length,
            remaining as int == index as int / pow(base as int, k as nat),
            result@ == candidate(index as nat, chars@, k as nat),
        decreases length - k,
    {
        let char_index = remaining % base;
        result.push(chars[char_index]);
        proof {
            lemma_next_digit(index as nat, base as nat, k as nat);
        }
        remaining = remaining / base;
        k += 1;
    }
    result
}

/// The candidate string at a search index: position `p` of the result
/// holds the alphabet's character at the `p`-th base-`b` digit of `index`,
/// where `b` is the number of characters of the alphabet.
pub fn generate_combination(index: usize, alphabet: &str, length: usize) -> (result: String)
    requires
        length > 0 ==> alphabet@.len() >= 1,
    ensures
        result@ == candidate(index as nat, alphabet@, length as nat),
{
    let chars = chars_of(alphabet);
    combination_from_chars(index, &chars, length)
}

/// How many candidates of one length an alphabet of `base` characters has.
pub open spec fn combinations(base: nat, length: nat) -> nat {
    pow(base as int, length) as nat
}

/// How many candidates the lengths from `min` to `max` have together.
pub open spec fn total_combinations(base: nat, min: nat, max: nat) -> nat
    decreases max,
{
    if max < min {
        0
    } else if max == min {
        combinations(base, max)
    } else {
        total_combinations(base, min, (max - 1) as nat) + combinations(base, max)
    }
}

/// A power of a natural number is a natural number, and a larger exponent
/// gives no smaller power of a positive base.
pub proof fn lemma_combinations_grow(base: nat, shorter: nat, longer: nat)
    requires
        base >= 1,
        shorter <= longer,
    ensures
        1 <= combinations(base, shorter) <= combinations(base, longer),
        combinations(base, shorter) == pow(base as int, shorter),
        combinations(base, longer) == pow(base as int, longer),
{
    lemma_pow_positive(base as int, shorter);
    lemma_pow_positive(base as int, longer);
    lemma_pow_increases(base, shorter, longer);
}

/// One more character multiplies the number of candidates by the base.
pub proof fn lemma_combinations_step(base: nat, length: nat)
    ensures
        combinations(base, length + 1) == combinations(base, length) * base,
        pow(base as int, length) >= 0,
{
    lemma_pow_adds(base as int, length, 1);
    lemma_pow1(base as int);
    if base >= 1 {
        lemma_pow_positive(base as int, length);
        lemma_pow_positive(base as int, length + 1);
    } else if length == 0 {
        lemma_pow0(base as int);
    } else {
        lemma0_pow(length);
        lemma0_pow(length + 1);
    }
}

/// `base` to the power `exponent`, where it fits.
pub fn power(base: u64, exponent: usize) -> (result: Option<u64>)
    ensures
        result is Some <==> combinations(base as nat, exponent as nat) <= u64::MAX,
        result matches Some(p) ==> p == combinations(base as nat, exponent as nat),
{
    proof {
        lemma_pow0(base as int);
    }
    if exponent == 0 {
        return Some(1);
    }
    if base == 0 {
        proof {
            lemma0_pow(exponent as nat);
        }
        return Some(0);
    }
    if base == 1 {
        proof {
            lemma1_pow(exponent as nat);
        }
        return Some(1);
    }
    let mut acc: u64 = 1;
    let mut k: usize = 0;
    while k < exponent
        invariant
            base >= 2,
            k <= exponent,
            acc == combinations(base as nat, k as nat),
        decreases exponent - k,
    {
        proof {
            lemma_combinations_step(base as nat, k as nat);
            lemma_combinations_grow(base as nat, (k + 1) as nat, exponent as nat);
        }
        match acc.checked_mul(base) {
            Some(next) => {
                acc = next;
            },
            None => {
                return None;
            },
        }
        k += 1;
    }
    Some(acc)
}

/// The number of candidates of one length, where an index can hold it.
pub fn combination_count(base: usize, length: usize) -> (count: Option<usize>)
    ensures
        count is Some <==> combinations(base as nat, length as nat) <= usize::MAX,
        count matches Some(n) ==> n == combinations(base as nat, length as nat),
{
    match power(base as u64, length) {
        Some(p) => if p <= usize::MAX as u64 {
            Some(p as usize)
        } else {
            None
        },
        None => None,
    }
}

/// The total is no smaller than its last term and grows with the upper
/// length.
pub proof fn lemma_total_grows(base: nat, min: nat, mid: nat, max: nat)
    requires
        min <= mid <= max,
    ensures
        combinations(base, mid) <= total_combinations(base, min, mid) <= total_combinations(
            base,
            min,
            max,
        ),
    decreases max - mid,
{
    if mid < max {
        lemma_total_grows(base, min, mid, (max - 1) as nat);
    }
}

/// Every length of the range contributes to the total.
pub proof fn lemma_total_covers(base: nat, min: nat, length: nat, max: nat)
    requires
        min <= length <= max,
    ensures
        combinations(base, length) <= total_combinations(base, min, max),
{
    lemma_total_grows(base, min, length, max);
}

proof fn lemma_total_of_ones(min: nat, max: nat)
    requires
        min <= max,
    ensures
        total_combinations(1, min, max) == max - min + 1,
    decreases max,
{
    lemma1_pow(max);
    if min < max {
        lemma_total_of_ones(min, (max - 1) as nat);
    }
}

proof fn lemma_total_of_zeros(min: nat, max: nat)
    requires
        min <= max,
    ensures
        total_combinations(0, min, max) == if min == 0 {
            1nat
        } else {
            0nat
        },
    decreases max,
{
    if max == 0 {
        lemma_pow0(0);
    } else {
        lemma0_pow(max);
    }
    if min < max {
        lemma_total_of_zeros(min, (max - 1) as nat);
    }
}

/// The number of candidates of all lengths from `min` to `max`, where it
/// fits; an empty range has none.
pub fn count_total(base: usize, min: usize, max: usize) -> (total: Option<u64>)
    ensures
        total is Some <==> total_combinations(base as nat, min as nat, max as nat) <= u64::MAX,
        total matches Some(t) ==> t == total_combinations(base as nat, min as nat, max as nat),
{
    if max < min {
        return Some(0);
    }
    if base == 0 {
        proof {
            lemma_total_of_zeros(min as nat, max as nat);
        }
        return Some(if min == 0 {
            1
        } else {
            0
        });
    }
    if base == 1 {
        proof {
            lemma_total_of_ones(min as nat, max as nat);
        }
        return ((max - min) as u64).checked_add(1);
    }
    proof {
        lemma_total_grows(base as nat, min as nat, min as nat, max as nat);
    }
    let mut term: u64 = match power(base as u64, min) {
        Some(p) => p,
        None => {
            return None;
        },
    };
    let mut sum: u64 = term;
    let mut length: usize = min;
    while length < max
        invariant
            base >= 2,
            min <= length <= max,
            term == combinations(base as nat, length as nat),
            sum == total_combinations(base as nat, min as nat, length as nat),
        decreases max - length,
    {
        proof {
            lemma_combinations_step(base as nat, length as nat);
            lemma_total_grows(base as nat, min as nat, (length + 1) as nat, max as nat);
        }
        term = match term.checked_mul(base as u64) {
            Some(next) => next,
            None => {
                return None;
            },
        };
        sum = match sum.checked_add(term) {
            Some(next) => next,
            None => {
                return None;
            },
        };
        length += 1;
    }
    Some(sum)
}

/// Where a character first stands in an alphabet; the alphabet's length
/// where it does not occur.
pub open spec fn position(alphabet: Seq<char>, c: char) -> nat
    decreases alphabet.len(),
{
    if alphabet.len() == 0 || alphabet[0] == c {
        0
    } else {
        1 + position(alphabet.drop_first(), c)
    }
}

/// Whether every character of a text occurs in an alphabet.
pub open spec fn over_alphabet(s: Seq<char>, alphabet: Seq<char>) -> bool {
    forall|p: int| 0 <= p < s.len() ==> alphabet.contains(#[trigger] s[p])
}

/// The index that a candidate stands for: its characters' positions in the
/// alphabet, read as digits, least significant first.
pub open spec fn index_of(s: Seq<char>, alphabet: Seq<char>) -> nat
    decreases s.len(),
{
    if s.len() == 0 {
        0
    } else {
        position(alphabet, s[0]) + alphabet.len() * index_of(s.drop_first(), alphabet)
    }
}

/// A character's position lies within the alphabet exactly when the
/// character occurs, and the alphabet holds the character there.
pub proof fn lemma_position(alphabet: Seq<char>, c: char)
    ensures
        position(alphabet, c) <= alphabet.len(),
        position(alphabet, c) < alphabet.len() <==> alphabet.contains(c),
        alphabet.contains(c) ==> alphabet[position(alphabet, c) as int] == c,
    decreases alphabet.len(),
{
    if alphabet.len() > 0 && alphabet[0] != c {
        let rest = alphabet.drop_first();
        lemma_position(rest, c);
        if rest.contains(c) {
            let k = choose|k: int| 0 <= k < rest.len() && rest[k] == c;
            assert(alphabet[k + 1] == c);
        }
        if alphabet.contains(c) {
            let k = choose|k: int| 0 <= k < alphabet.len() && alphabet[k] == c;
            assert(rest[k - 1] == c);
        }
    }
}

/// In an alphabet without repetition a character's position is the place
/// where it stands.
pub proof fn lemma_position_of_member(alphabet: Seq<char>, k: int)
    requires
        alphabet.no_duplicates(),
        0 <= k < alphabet.len(),
    ensures
        position(alphabet, alphabet[k]) == k,
{
    lemma_position(alphabet, alphabet[k]);
    assert(alphabet.contains(alphabet[k]));
}

/// A digit is smaller than the base.
pub proof fn lemma_digit_bound(index: nat, base: nat, pos: nat)
    requires
        base >= 1,
    ensures
        digit(index, base, pos) < base,
        digit(index, base, pos) == (index as int / pow(base as int, pos)) % (base as int),
{
    lemma_pow_positive(base as int, pos);
    lemma_div_pos_is_pos(index as int, pow(base as int, pos));
    lemma_mod_bound(index as int / pow(base as int, pos), base as int);
}

/// A candidate has the length asked for and is made of the alphabet's
/// characters.
pub proof fn lemma_candidate_shape(index: nat, alphabet: Seq<char>, length: nat)
    requires
        alphabet.len() >= 1,
    ensures
        candidate(index, alphabet, length).len() == length,
        over_alphabet(candidate(index, alphabet, length), alphabet),
{
    let c = candidate(index, alphabet, length);
    assert forall|p: int| 0 <= p < c.len() implies alphabet.contains(#[trigger] c[p]) by {
        lemma_digit_bound(index, alphabet.len(), p as nat);
        let d = digit(index, alphabet.len(), p as nat) as int;
        assert(alphabet[d] == c[p]);
    }
}

/// Without its first character, a candidate is the candidate of the index
/// divided by the base, one shorter.
pub proof fn lemma_candidate_rest(index: nat, alphabet: Seq<char>, length: nat)
    requires
        alphabet.len() >= 1,
        length >= 1,
    ensures
        candidate(index, alphabet, length).drop_first() == candidate(
            index / alphabet.len(),
            alphabet,
            (length - 1) as nat,
        ),
        candidate(index, alphabet, length)[0] == alphabet[(index % alphabet.len()) as int],
{
    let base = alphabet.len();
    let whole = candidate(index, alphabet, length);
    let rest = candidate(index / base, alphabet, (length - 1) as nat);
    assert forall|p: int| 0 <= p < length - 1 implies whole[p + 1] == rest[p] by {
        lemma_shift_digit(index, base, p as nat);
    }
    assert(whole.drop_first() =~= rest);
    lemma_pow0(base as int);
}

/// The digit at a position is the digit one lower of the index divided by
/// the base.
pub proof fn lemma_shift_digit(index: nat, base: nat, pos: nat)
    requires
        base >= 1,
    ensures
        digit(index, base, pos + 1) == digit(index / base, base, pos),
{
    let b = base as int;
    lemma_pow_positive(b, pos);
    lemma_pow_adds(b, 1, pos);
    lemma_pow1(b);
    lemma_div_denominator(index as int, b, pow(b, pos));
    assert(pow(b, pos + 1) == b * pow(b, pos));
}

/// Reading a candidate back gives the index it was made from, up to the
/// number of candidates of its length.
pub proof fn lemma_index_of_candidate(index: nat, alphabet: Seq<char>, length: nat)
    requires
        alphabet.len() >= 1,
        alphabet.no_duplicates(),
    ensures
        index_of(candidate(index, alphabet, length), alphabet) == index as int % pow(
            alphabet.len() as int,
            length,
        ),
    decreases length,
{
    let base = alphabet.len();
    let b = base as int;
    let whole = candidate(index, alphabet, length);
    if length == 0 {
        lemma_pow0(b);
    } else {
        let shorter = (length - 1) as nat;
        lemma_candidate_rest(index, alphabet, length);
        lemma_index_of_candidate(index / base, alphabet, shorter);
        lemma_mod_bound(index as int, b);
        lemma_position_of_member(alphabet, index as int % b);
        lemma_pow_positive(b, shorter);
        lemma_breakdown(index as int, b, pow(b, shorter));
        lemma_pow_adds(b, 1, shorter);
        lemma_pow1(b);
        assert(pow(b, length) == b * pow(b, shorter));
        assert(index_of(whole, alphabet) == position(alphabet, whole[0]) + base * index_of(
            whole.drop_first(),
            alphabet,
        ));
    }
}

/// Round trip: an index below the number of candidates of a length is the
/// index of its own candidate.
pub proof fn lemma_round_trip(index: nat, alphabet: Seq<char>, length: nat)
    requires
        alphabet.len() >= 1,
        alphabet.no_duplicates(),
        index < combinations(alphabet.len(), length),
    ensures
        index_of(candidate(index, alphabet, length), alphabet) == index,
{
    lemma_index_of_candidate(index, alphabet, length);
    lemma_pow_positive(alphabet.len() as int, length);
    lemma_small_mod(index, pow(alphabet.len() as int, length) as nat);
}

/// The mapping from index to candidate is injective below the number of
/// candidates of a length.
pub proof fn lemma_candidates_distinct(first: nat, second: nat, alphabet: Seq<char>, length: nat)
    requires
        alphabet.len() >= 1,
        alphabet.no_duplicates(),
        first < combinations(alphabet.len(), length),
        second < combinations(alphabet.len(), length),
        first != second,
    ensures
        candidate(first, alphabet, length) != candidate(second, alphabet, length),
{
    lemma_round_trip(first, alphabet, length);
    lemma_round_trip(second, alphabet, length);
}

/// The index of a text over the alphabet lies below the number of
/// candidates of the text's length.
pub proof fn lemma_index_bound(s: Seq<char>, alphabet: Seq<char>)
    requires
        over_alphabet(s, alphabet),
    ensures
        index_of(s, alphabet) < combinations(alphabet.len(), s.len()),
    decreases s.len(),
{
    let base = alphabet.len();
    let b = base as int;
    if s.len() == 0 {
        lemma_pow0(b);
    } else {
        let rest = s.drop_first();
        assert(alphabet.contains(s[0]));
        assert forall|p: int| 0 <= p < rest.len() implies alphabet.contains(#[trigger] rest[p]) by {
            assert(rest[p] == s[p + 1]);
        }
        lemma_index_bound(rest, alphabet);
        lemma_position(alphabet, s[0]);
        lemma_pow_positive(b, rest.len());
        lemma_pow_adds(b, 1, rest.len());
        lemma_pow1(b);
        let higher = index_of(rest, alphabet) as int;
        let top = pow(b, rest.len());
        assert(pow(b, s.len()) == b * top);
        assert(higher + 1 <= top);
        assert(b * (higher + 1) <= b * top) by (nonlinear_arith)
            requires
                higher + 1 <= top,
                b >= 1,
        ;
        assert(b * (higher + 1) == b * higher + b) by (nonlinear_arith);
    }
}

/// Every text of a length over the alphabet is the candidate of its own
/// index: no text is left out of the enumeration.
pub proof fn lemma_candidate_of_index(s: Seq<char>, alphabet: Seq<char>)
    requires
        over_alphabet(s, alphabet),
    ensures
        candidate(index_of(s, alphabet), alphabet, s.len()) == s,
    decreases s.len(),
{
    let base = alphabet.len();
    let b = base as int;
    let index = index_of(s, alphabet);
    if s.len() == 0 {
        assert(candidate(index, alphabet, 0) =~= s);
    } else {
        let rest = s.drop_first();
        assert(alphabet.contains(s[0]));
        assert forall|p: int| 0 <= p < rest.len() implies alphabet.contains(#[trigger] rest[p]) by {
            assert(rest[p] == s[p + 1]);
        }
        lemma_candidate_of_index(rest, alphabet);
        lemma_position(alphabet, s[0]);
        let low = position(alphabet, s[0]) as int;
        let higher = index_of(rest, alphabet) as int;
        lemma_fundamental_div_mod_converse(index as int, b, higher, low);
        assert(index as int == higher * b + low) by (nonlinear_arith)
            requires
                index as int == low + b * higher,
        ;
        lemma_candidate_rest(index, alphabet, s.len());
        let whole = candidate(index, alphabet, s.len());
        assert(whole[0] == s[0]);
        assert(whole.drop_first() == rest);
        assert forall|p: int| 0 <= p < s.len() implies whole[p] == s[p] by {
            if p > 0 {
                assert(whole[p] == whole.drop_first()[p - 1]);
                assert(s[p] == rest[p - 1]);
            }
        }
        assert(whole =~= s);
    }
}

/// The index of a text grows with each character put before it.
proof fn lemma_index_of_rest(s: Seq<char>, alphabet: Seq<char>, from: int)
    requires
        alphabet.len() >= 1,
        0 <= from < s.len(),
    ensures
        index_of(s.subrange(from, s.len() as int), alphabet) == position(alphabet, s[from])
            + alphabet.len() * index_of(s.subrange(from + 1, s.len() as int), alphabet),
        index_of(s.subrange(from + 1, s.len() as int), alphabet) <= index_of(
            s.subrange(from, s.len() as int),
            alphabet,
        ),
{
    let tail = s.subrange(from, s.len() as int);
    assert(tail.drop_first() == s.subrange(from + 1, s.len() as int));
    let higher = index_of(tail.drop_first(), alphabet) as int;
    let b = alphabet.len() as int;
    assert(higher <= b * higher) by (nonlinear_arith)
        requires
            higher >= 0,
            b >= 1,
    ;
}

/// The index of a text is no smaller than that of any of its ends.
proof fn lemma_index_of_tail(s: Seq<char>, alphabet: Seq<char>, from: int)
    requires
        alphabet.len() >= 1,
        0 <= from <= s.len(),
    ensures
        index_of(s.subrange(from, s.len() as int), alphabet) <= index_of(s, alphabet),
    decreases from,
{
    if from == 0 {
        assert(s.subrange(0, s.len() as int) == s);
    } else {
        lemma_index_of_rest(s, alphabet, from - 1);
        lemma_index_of_tail(s, alphabet, from - 1);
    }
}

/// Where a character first stands among `chars`; their number where it
/// does not occur.
fn find_position(chars: &Vec<char>, c: char) -> (at: usize)
    ensures
        at == position(chars@, c),
{
    let mut k: usize = 0;
    assert(chars@.subrange(0, chars@.len() as int) == chars@);
    while k < chars.len()
        invariant
            k <= chars@.len(),
            position(chars@, c) == k + position(chars@.subrange(k as int, chars@.len() as int), c),
        decreases chars@.len() - k,
    {
        let ghost rest = chars@.subrange(k as int, chars@.len() as int);
        assert(rest[0] == chars@[k as int]);
        if chars[k] == c {
            return k;
        }
        assert(rest.drop_first() == chars@.subrange(k + 1, chars@.len() as int));
        k += 1;
    }
    k
}

/// The index that a candidate stands for over an alphabet: the inverse of
/// `generate_combination`. There is none where a character of the
/// candidate is not in the alphabet, or where the index is too large.
pub fn combination_index(text: &str, alphabet: &str) -> (index: Option<usize>)
    ensures
        index is Some <==> over_alphabet(text@, alphabet@) && index_of(text@, alphabet@)
            <= usize::MAX,
        index matches Some(i) ==> i == index_of(text@, alphabet@),
{
    let chars = chars_of(alphabet);
    let s = chars_of(text);
    let base = chars.len();
    let n = s.len();
    let mut p: usize = 0;
    while p < n
        invariant
            s@ == text@,
            chars@ == alphabet@,
            n == s@.len(),
            base == chars@.len(),
            p <= n,
            forall|q: int| 0 <= q < p ==> alphabet@.contains(#[trigger] s@[q]),
        decreases n - p,
    {
        proof {
            lemma_position(chars@, s@[p as int]);
        }
        if find_position(&chars, s[p]) >= base {
            return None;
        }
        p += 1;
    }
    if n == 0 {
        return Some(0);
    }
    assert(alphabet@.contains(s@[0]));
    let mut acc: usize = 0;
    let mut k: usize = n;
    assert(s@.subrange(n as int, n as int) == Seq::<char>::empty());
    while k > 0
        invariant
            s@ == text@,
            chars@ == alphabet@,
            base == chars@.len(),
            base >= 1,
            n == s@.len(),
            k <= n,
            over_alphabet(s@, alphabet@),
            acc == index_of(s@.subrange(k as int, n as int), alphabet@),
        decreases k,
    {
        k -= 1;
        proof {
            lemma_index_of_rest(s@, alphabet@, k as int);
            lemma_index_of_tail(s@, alphabet@, k as int);
            lemma_position(chars@, s@[k as int]);
            assert(alphabet@.contains(s@[k as int]));
            assert(acc * base == base * acc) by (nonlinear_arith);
        }
        let digit = find_position(&chars, s[k]);
        acc = match acc.checked_mul(base) {
            Some(shifted) => match shifted.checked_add(digit) {
                Some(next) => next,
                None => {
                    return None;
                },
            },
            None => {
                return None;
            },
        };
    }
    assert(s@.subrange(0, n as int) == s@);
    Some(acc)
}

} // verus!
