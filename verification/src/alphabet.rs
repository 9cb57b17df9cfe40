//! Character handling and validation for user-friendly identifiers.
//!
//! The generation alphabet is the set of characters a fresh identifier is
//! drawn from; the check alphabet is the numeral system of the checksum and
//! the set of characters a decoded identifier may contain. Both exclude
//! characters that are visually or phonetically confusable, and a
//! normalization pass folds any confusable input onto its canonical member.

use vstd::prelude::*;

use vstd::std_specs::iter::IteratorSpec;

use crate::error::IdError;

verus! {

/// The generation alphabet in rank order: the characters a fresh identifier
/// body is drawn from.
pub open spec fn gen_alphabet() -> Seq<char> {
    seq![
        'a', 'b', 'c', 'd', 'e', 'f', 'h', 'i', 'j', 'k', 'm', 'n', 'o', 'p', 'r', 's', 't', 'w',
        'x', 'y', '3', '4', 'v',
    ]
}

/// The check alphabet in rank order: the numeral system of the checksum.
/// Every character of a decoded identifier must belong to it.
pub open spec fn check_alphabet() -> Seq<char> {
    seq![
        'a', 'b', 'c', 'd', 'e', 'f', 'h', 'i', 'j', 'k', 'm', 'n', 'o', 'p', 'r', 's', 't', 'w',
        'x', 'y', '3', '4', 'v',
    ]
}

/// The size of the check alphabet: the modulus of the checksum.
pub open spec fn alphabet_size() -> int {
    23
}

/// The rank of a character in the check alphabet, or `-1` if it is not a
/// member.
pub open spec fn char_rank(c: char) -> int {
    if c == 'a' {
        0
    } else if c == 'b' {
        1
    } else if c == 'c' {
        2
    } else if c == 'd' {
        3
    } else if c == 'e' {
        4
    } else if c == 'f' {
        5
    } else if c == 'h' {
        6
    } else if c == 'i' {
        7
    } else if c == 'j' {
        8
    } else if c == 'k' {
        9
    } else if c == 'm' {
        10
    } else if c == 'n' {
        11
    } else if c == 'o' {
        12
    } else if c == 'p' {
        13
    } else if c == 'r' {
        14
    } else if c == 's' {
        15
    } else if c == 't' {
        16
    } else if c == 'w' {
        17
    } else if c == 'x' {
        18
    } else if c == 'y' {
        19
    } else if c == '3' {
        20
    } else if c == '4' {
        21
    } else if c == 'v' {
        22
    } else {
        -1
    }
}

/// Whether a character is a member of the check alphabet.
pub open spec fn is_check_char(c: char) -> bool {
    char_rank(c) >= 0
}

/// ASCII lowercasing of one character; characters outside `A..=Z` pass
/// through unchanged.
pub open spec fn spec_to_lower(c: char) -> char {
    if c == 'A' {
        'a'
    } else if c == 'B' {
        'b'
    } else if c == 'C' {
        'c'
    } else if c == 'D' {
        'd'
    } else if c == 'E' {
        'e'
    } else if c == 'F' {
        'f'
    } else if c == 'G' {
        'g'
    } else if c == 'H' {
        'h'
    } else if c == 'I' {
        'i'
    } else if c == 'J' {
        'j'
    } else if c == 'K' {
        'k'
    } else if c == 'L' {
        'l'
    } else if c == 'M' {
        'm'
    } else if c == 'N' {
        'n'
    } else if c == 'O' {
        'o'
    } else if c == 'P' {
        'p'
    } else if c == 'Q' {
        'q'
    } else if c == 'R' {
        'r'
    } else if c == 'S' {
        's'
    } else if c == 'T' {
        't'
    } else if c == 'U' {
        'u'
    } else if c == 'V' {
        'v'
    } else if c == 'W' {
        'w'
    } else if c == 'X' {
        'x'
    } else if c == 'Y' {
        'y'
    } else if c == 'Z' {
        'z'
    } else {
        c
    }
}

/// The confusable map: digits and letters that are easy to mistake for a
/// member of the alphabet fold onto that member; everything else passes
/// through unchanged. Inputs are expected to be lowercase already.
pub open spec fn spec_fold_char(c: char) -> char {
    if c == '0' {
        'o'
    } else if c == '1' || c == 'l' || c == '7' {
        'i'
    } else if c == 'z' || c == '5' || c == '2' {
        's'
    } else if c == 'u' {
        'v'
    } else if c == '6' || c == '8' || c == '9' || c == 'g' || c == 'q' {
        'b'
    } else {
        c
    }
}

/// What `str::to_lowercase` returns for a given character sequence: Unicode
/// lowercasing takes pages to state, so its result only carries a name here.
pub uninterp spec fn lower_of(s: Seq<char>) -> Seq<char>;

/// The confusable fold applied to every character of a string.
pub open spec fn spec_fold_seq(s: Seq<char>) -> Seq<char> {
    s.map_values(|c: char| spec_fold_char(c))
}

/// ASCII lowercasing applied to every character of a string.
pub open spec fn spec_ascii_lower_seq(s: Seq<char>) -> Seq<char> {
    s.map_values(|c: char| spec_to_lower(c))
}

/// The one fact about Unicode lowercasing that the library's proofs lean on:
/// on a string of ASCII characters it is exactly the per-character ASCII
/// lowercase. ASCII letters have unconditional single-character lowercase
/// mappings and no other ASCII character is cased, so an ASCII string's
/// length and non-letter characters are untouched.
pub open spec fn lower_of_facts() -> bool {
    forall|t: Seq<char>|
        vstd::utf8::is_ascii_chars(t) ==> #[trigger] lower_of(t) == spec_ascii_lower_seq(t)
}

/// What the lowercase wrapper returns: the named lowercase form of its
/// input, which on ASCII input is the per-character ASCII lowercase.
pub open spec fn lower_ensures(s: Seq<char>, r: Seq<char>) -> bool {
    r == lower_of(s) && lower_of_facts()
}

/// Leftmost, non-overlapping replacement of every occurrence of the
/// two-character pattern `ab` by the single character `r`: the semantics of
/// an ordinary substring replace with a two-character needle.
pub open spec fn spec_replace_pair(s: Seq<char>, a: char, b: char, r: char) -> Seq<char>
    decreases s.len(),
{
    if s.len() < 2 {
        s
    } else if s[0] == a && s[1] == b {
        seq![r] + spec_replace_pair(s.skip(2), a, b, r)
    } else {
        seq![s[0]] + spec_replace_pair(s.skip(1), a, b, r)
    }
}

/// The two fixed substring rewrites `rn` -> `m` and `vv` -> `w`, in that
/// order.
pub open spec fn spec_rewrite(s: Seq<char>) -> Seq<char> {
    spec_replace_pair(spec_replace_pair(s, 'r', 'n', 'm'), 'v', 'v', 'w')
}

/// Full string normalization: lowercase, fold each character per the
/// confusable map, then the two fixed substring rewrites.
pub open spec fn spec_normalize(s: Seq<char>) -> Seq<char> {
    spec_rewrite(spec_fold_seq(lower_of(s)))
}

/// Whether the two-character pattern `ab` occurs anywhere in `s`.
pub open spec fn has_pair(s: Seq<char>, a: char, b: char) -> bool {
    exists|i: int| 0 <= i && i + 1 < s.len() && #[trigger] s[i] == a && s[i + 1] == b
}

/// Replacing a pattern that does not occur leaves the string unchanged.
pub proof fn lemma_replace_pair_absent(s: Seq<char>, a: char, b: char, r: char)
    requires
        !has_pair(s, a, b),
    ensures
        spec_replace_pair(s, a, b, r) == s,
    decreases s.len(),
{
    if s.len() < 2 {
    } else {
        assert(!(s[0] == a && s[1] == b));
        assert forall|i: int| 0 <= i && i + 1 < s.skip(1).len() implies !(#[trigger] s.skip(1)[i]
            == a && s.skip(1)[i + 1] == b) by {
            assert(s.skip(1)[i] == s[i + 1]);
            assert(s.skip(1)[i + 1] == s[i + 2]);
        }
        lemma_replace_pair_absent(s.skip(1), a, b, r);
        assert(seq![s[0]] + s.skip(1) =~= s);
    }
}

/// A pattern absent from a string is absent from any of its tails.
proof fn lemma_has_pair_skip(s: Seq<char>, c: char, d: char, k: int)
    requires
        0 <= k <= s.len(),
        !has_pair(s, c, d),
    ensures
        !has_pair(s.skip(k), c, d),
{
    assert forall|i: int| 0 <= i && i + 1 < s.skip(k).len() implies !(#[trigger] s.skip(k)[i] == c
        && s.skip(k)[i + 1] == d) by {
        assert(s.skip(k)[i] == s[i + k]);
        assert(s.skip(k)[i + 1] == s[i + k + 1]);
    }
}

/// After replacing `ab` by `r`, a pattern `cd` that neither survives the
/// rewrite nor is created by it does not occur: the replaced pattern itself
/// never occurs in the result, and neither does any pattern that was absent
/// before, as long as the replacement character is part of neither.
pub proof fn lemma_replace_pair_no_pair(
    s: Seq<char>,
    a: char,
    b: char,
    r: char,
    c: char,
    d: char,
)
    requires
        r != c,
        r != d,
        (c == a && d == b) || !has_pair(s, c, d),
    ensures
        !has_pair(spec_replace_pair(s, a, b, r), c, d),
    decreases s.len(),
{
    let t = spec_replace_pair(s, a, b, r);
    if s.len() < 2 {
        assert(t == s);
    } else if s[0] == a && s[1] == b {
        let rest = s.skip(2);
        if !(c == a && d == b) {
            lemma_has_pair_skip(s, c, d, 2);
        }
        lemma_replace_pair_no_pair(rest, a, b, r, c, d);
        let tr = spec_replace_pair(rest, a, b, r);
        assert forall|i: int| 0 <= i && i + 1 < t.len() implies !(#[trigger] t[i] == c && t[i + 1]
            == d) by {
            if i == 0 {
                assert(t[0] == r);
            } else {
                assert(t[i] == tr[i - 1]);
                assert(t[i + 1] == tr[i]);
            }
        }
    } else {
        let rest = s.skip(1);
        if !(c == a && d == b) {
            lemma_has_pair_skip(s, c, d, 1);
        }
        lemma_replace_pair_no_pair(rest, a, b, r, c, d);
        let tr = spec_replace_pair(rest, a, b, r);
        assert forall|i: int| 0 <= i && i + 1 < t.len() implies !(#[trigger] t[i] == c && t[i + 1]
            == d) by {
            if i == 0 {
                assert(t[0] == s[0]);
                assert(t[1] == tr[0]);
                if rest.len() < 2 {
                    assert(tr == rest);
                    assert(tr[0] == s[1]);
                } else if rest[0] == a && rest[1] == b {
                    assert(tr[0] == r);
                } else {
                    assert(tr[0] == rest[0]);
                    assert(tr[0] == s[1]);
                }
                if t[0] == c {
                    if c == a && d == b {
                        assert(!(s[0] == a && s[1] == b));
                        assert(s[1] != d);
                    } else {
                        assert(!(s[0] == c && s[1] == d));
                        assert(s[1] != d);
                    }
                }
            } else {
                assert(t[i] == tr[i - 1]);
                assert(t[i + 1] == tr[i]);
            }
        }
    }
}

/// Replacement preserves a pointwise character property that the
/// replacement character also has.
proof fn lemma_replace_pair_preserves(
    s: Seq<char>,
    a: char,
    b: char,
    r: char,
    p: spec_fn(char) -> bool,
)
    requires
        forall|i: int| 0 <= i < s.len() ==> p(#[trigger] s[i]),
        p(r),
    ensures
        forall|i: int|
            0 <= i < spec_replace_pair(s, a, b, r).len() ==> p(
                #[trigger] spec_replace_pair(s, a, b, r)[i],
            ),
    decreases s.len(),
{
    let t = spec_replace_pair(s, a, b, r);
    if s.len() < 2 {
    } else {
        let k: int = if s[0] == a && s[1] == b {
            2
        } else {
            1
        };
        let rest = s.skip(k);
        assert forall|i: int| 0 <= i < rest.len() implies p(#[trigger] rest[i]) by {
            assert(rest[i] == s[i + k]);
        }
        lemma_replace_pair_preserves(rest, a, b, r, p);
        let tr = spec_replace_pair(rest, a, b, r);
        assert forall|i: int| 0 <= i < t.len() implies p(#[trigger] t[i]) by {
            if i > 0 {
                assert(t[i] == tr[i - 1]);
            }
        }
    }
}

/// One character's ASCII-lowercased, folded form is a fixed point of both
/// passes, and folding an ASCII character stays ASCII.
pub proof fn lemma_fold_lower_fixed(c: char)
    ensures
        spec_to_lower(spec_fold_char(spec_to_lower(c))) == spec_fold_char(spec_to_lower(c)),
        spec_fold_char(spec_fold_char(spec_to_lower(c))) == spec_fold_char(spec_to_lower(c)),
        c <= '\u{7f}' ==> spec_fold_char(spec_to_lower(c)) <= '\u{7f}',
{
}

/// Normalization is idempotent: normalizing a normalized string changes
/// nothing, so decoding untrusted input never needs a second pass. Proved
/// for every ASCII input, and for every input whose normal form lies in the
/// check alphabet; what Unicode lowercasing does elsewhere only carries a
/// name here, so nothing can be said of a cased non-ASCII letter.
pub proof fn lemma_normalize_idempotent(s: Seq<char>)
    requires
        lower_of_facts(),
        vstd::utf8::is_ascii_chars(s) || seq_valid(spec_normalize(s)),
    ensures
        spec_normalize(spec_normalize(s)) == spec_normalize(s),
{
    let u = spec_fold_seq(lower_of(s));
    let t1 = spec_replace_pair(u, 'r', 'n', 'm');
    let t = spec_replace_pair(t1, 'v', 'v', 'w');
    assert(t == spec_normalize(s));
    lemma_replace_pair_no_pair(u, 'r', 'n', 'm', 'r', 'n');
    lemma_replace_pair_no_pair(t1, 'v', 'v', 'w', 'r', 'n');
    lemma_replace_pair_no_pair(t1, 'v', 'v', 'w', 'v', 'v');
    if seq_valid(t) {
        lemma_normalized_fixpoint(t);
    } else {
        let low = spec_ascii_lower_seq(s);
        assert(lower_of(s) == low);
        let p = (|c: char|
            spec_to_lower(c) == c && spec_fold_char(c) == c && c <= '\u{7f}');
        assert forall|i: int| 0 <= i < u.len() implies p(#[trigger] u[i]) by {
            assert(u[i] == spec_fold_char(spec_to_lower(s[i])));
            lemma_fold_lower_fixed(s[i]);
        }
        assert(p('m'));
        assert(p('w'));
        lemma_replace_pair_preserves(u, 'r', 'n', 'm', p);
        lemma_replace_pair_preserves(t1, 'v', 'v', 'w', p);
        assert forall|i: int| 0 <= i < t.len() implies '\0' <= #[trigger] t[i] <= '\u{7f}' by {
            assert(p(t[i]));
        }
        assert(vstd::utf8::is_ascii_chars(t));
        assert(lower_of(t) == spec_ascii_lower_seq(t));
        assert(spec_ascii_lower_seq(t) =~= t);
        assert(spec_fold_seq(t) =~= t);
        lemma_replace_pair_absent(t, 'r', 'n', 'm');
        lemma_replace_pair_absent(t, 'v', 'v', 'w');
    }
}

/// Normalize one potentially ambiguous character per the confusable map.
pub fn normalize_char(c: char) -> (r: char)
    ensures
        r == spec_fold_char(c),
{
    match c {
        '0' => 'o',
        '1' | 'l' | '7' => 'i',
        'z' | '5' | '2' => 's',
        'u' => 'v',
        '6' | '8' | '9' | 'g' | 'q' => 'b',
        _ => c,
    }
}

/// The rank of a character in the check alphabet, or `None` for a character
/// outside it.
fn rank_of_char(c: char) -> (r: Option<u8>)
    ensures
        is_check_char(c) ==> r == Some(char_rank(c) as u8),
        !is_check_char(c) ==> r is None,
{
    match c {
        'a' => Some(0),
        'b' => Some(1),
        'c' => Some(2),
        'd' => Some(3),
        'e' => Some(4),
        'f' => Some(5),
        'h' => Some(6),
        'i' => Some(7),
        'j' => Some(8),
        'k' => Some(9),
        'm' => Some(10),
        'n' => Some(11),
        'o' => Some(12),
        'p' => Some(13),
        'r' => Some(14),
        's' => Some(15),
        't' => Some(16),
        'w' => Some(17),
        'x' => Some(18),
        'y' => Some(19),
        '3' => Some(20),
        '4' => Some(21),
        'v' => Some(22),
        _ => None,
    }
}

/// The check-alphabet character of a given rank.
pub(crate) fn char_at_rank(i: u64) -> (c: char)
    requires
        0 <= i < alphabet_size(),
    ensures
        c == check_alphabet()[i as int],
{
    match i {
        0 => 'a',
        1 => 'b',
        2 => 'c',
        3 => 'd',
        4 => 'e',
        5 => 'f',
        6 => 'h',
        7 => 'i',
        8 => 'j',
        9 => 'k',
        10 => 'm',
        11 => 'n',
        12 => 'o',
        13 => 'p',
        14 => 'r',
        15 => 's',
        16 => 't',
        17 => 'w',
        18 => 'x',
        19 => 'y',
        20 => '3',
        21 => '4',
        _ => 'v',
    }
}

/// Validate a character against the check alphabet.
pub fn validate_char(c: char) -> (r: Result<(), IdError>)
    ensures
        r is Ok <==> is_check_char(c),
        r is Err ==> r->Err_0 == IdError::InvalidCharacter,
{
    match rank_of_char(c) {
        Some(_) => Ok(()),
        None => Err(IdError::InvalidCharacter),
    }
}

/// Whether every character of a string is a member of the check alphabet.
pub open spec fn seq_valid(s: Seq<char>) -> bool {
    forall|i: int| 0 <= i < s.len() ==> #[trigger] is_check_char(s[i])
}

/// The sum of the check-alphabet ranks of a string's characters.
pub open spec fn rank_sum(s: Seq<char>) -> int {
    s.fold_right(|c: char, acc: int| char_rank(c) + acc, 0)
}

/// Appending one character adds its rank to the sum.
pub proof fn lemma_rank_sum_push(s: Seq<char>, c: char)
    ensures
        rank_sum(s.push(c)) == rank_sum(s) + char_rank(c),
{
    let f = |c: char, acc: int| char_rank(c) + acc;
    assert(s.push(c).drop_last() =~= s);
    s.lemma_fold_right_commute_one(c, f, 0);
}

/// The checksum is a pure function of the multiset of a body's characters:
/// two bodies that are anagrams of each other checksum identically. The rank
/// sum carries no positional weighting, so this is expected of the scheme,
/// not a defect.
pub proof fn lemma_calculate_anagram(s1: Seq<char>, s2: Seq<char>)
    requires
        s1.to_multiset() == s2.to_multiset(),
    ensures
        spec_calculate(s1) == spec_calculate(s2),
        spec_check_char(s1) == spec_check_char(s2),
{
    s1.to_multiset_ensures();
    s2.to_multiset_ensures();
    assert(s1.to_multiset().len() == s2.to_multiset().len());
    assert(s1.len() == s2.len());
    assert forall|i: int| 0 <= i < s2.len() && seq_valid(s1) implies is_check_char(
        #[trigger] s2[i],
    ) by {
        assert(s2.contains(s2[i]));
        assert(s2.to_multiset().count(s2[i]) > 0);
        assert(s1.contains(s2[i]));
        let j = choose|j: int| 0 <= j < s1.len() && s1[j] == s2[i];
        assert(is_check_char(s1[j]));
    }
    assert forall|i: int| 0 <= i < s1.len() && seq_valid(s2) implies is_check_char(
        #[trigger] s1[i],
    ) by {
        assert(s1.contains(s1[i]));
        assert(s1.to_multiset().count(s1[i]) > 0);
        assert(s2.contains(s1[i]));
        let j = choose|j: int| 0 <= j < s2.len() && s2[j] == s1[i];
        assert(is_check_char(s2[j]));
    }
    let f = |c: char, acc: int| char_rank(c) + acc;
    assert(vstd::seq_lib::commutative_foldr(f)) by {
        assert forall|x: char, y: char, v: int| #[trigger] f(x, f(y, v)) == f(y, f(x, v)) by {
            assert(f(x, f(y, v)) == char_rank(x) + char_rank(y) + v);
            assert(f(y, f(x, v)) == char_rank(y) + char_rank(x) + v);
        }
    }
    vstd::seq_lib::lemma_fold_right_permutation(s1, s2, f, 0);
    assert(rank_sum(s1) == rank_sum(s2));
}

/// The largest body length whose rank sum is guaranteed to fit in unsigned
/// 64-bit arithmetic.
pub open spec fn spec_max_body() -> int {
    u64::MAX as int / 22
}

/// What the checksum returns: the check character of a body, or the error
/// that rules the body out. A body longer than the overflow bound cannot be
/// checksummed safely; a body with a character outside the check alphabet has
/// no rank sum.
pub open spec fn spec_calculate(s: Seq<char>) -> Result<char, IdError> {
    if s.len() > spec_max_body() {
        Err(IdError::InvalidCheckBit)
    } else if !seq_valid(s) {
        Err(IdError::InvalidCharacter)
    } else {
        Ok(spec_check_char(s))
    }
}

/// The check character of a body: the check-alphabet character whose rank is
/// the body's rank sum modulo the alphabet size.
pub open spec fn spec_check_char(s: Seq<char>) -> char {
    check_alphabet()[rank_sum(s) % alphabet_size()]
}

/// Every character of the check alphabet has its index as rank.
pub proof fn lemma_alphabet_ranks()
    ensures
        forall|k: int|
            0 <= k < alphabet_size() ==> char_rank(#[trigger] check_alphabet()[k]) == k,
{
    assert forall|k: int| 0 <= k < alphabet_size() implies char_rank(
        #[trigger] check_alphabet()[k],
    ) == k by {
        if k < 12 {
            if k < 6 {
                assert(char_rank(check_alphabet()[k]) == k);
            } else {
                assert(char_rank(check_alphabet()[k]) == k);
            }
        } else {
            if k < 18 {
                assert(char_rank(check_alphabet()[k]) == k);
            } else {
                assert(char_rank(check_alphabet()[k]) == k);
            }
        }
    }
}

/// A computed check character is itself a member of the check alphabet.
pub proof fn lemma_check_char_member(s: Seq<char>)
    ensures
        is_check_char(spec_check_char(s)),
{
    lemma_alphabet_ranks();
    assert(0 <= rank_sum(s) % alphabet_size() < alphabet_size());
}

/// A character of the check alphabet is ASCII and a fixed point of both the
/// lowercase pass and the confusable fold.
pub proof fn lemma_check_char_fixed(c: char)
    requires
        is_check_char(c),
    ensures
        spec_to_lower(c) == c,
        spec_fold_char(c) == c,
        '\0' <= c <= '\u{7f}',
{
}

/// A string of check-alphabet characters that holds neither ambiguous pair
/// is already in normal form.
pub proof fn lemma_normalized_fixpoint(s: Seq<char>)
    requires
        lower_of_facts(),
        seq_valid(s),
        !has_pair(s, 'r', 'n'),
        !has_pair(s, 'v', 'v'),
    ensures
        spec_normalize(s) == s,
{
    assert forall|i: int| 0 <= i < s.len() implies '\0' <= #[trigger] s[i] <= '\u{7f}' by {
        lemma_check_char_fixed(s[i]);
    }
    assert(vstd::utf8::is_ascii_chars(s));
    assert(lower_of(s) == spec_ascii_lower_seq(s));
    assert forall|i: int| 0 <= i < s.len() implies spec_to_lower(#[trigger] s[i]) == s[i]
        && spec_fold_char(s[i]) == s[i] by {
        lemma_check_char_fixed(s[i]);
    }
    assert(spec_ascii_lower_seq(s) =~= s);
    assert(spec_fold_seq(s) =~= s);
    lemma_replace_pair_absent(s, 'r', 'n', 'm');
    lemma_replace_pair_absent(s, 'v', 'v', 'w');
}

/// Appending a character that does not complete the pattern keeps a string
/// free of it.
pub proof fn lemma_push_no_pair(s: Seq<char>, c: char, a: char, b: char)
    requires
        !has_pair(s, a, b),
        s.len() > 0 ==> !(s.last() == a && c == b),
    ensures
        !has_pair(s.push(c), a, b),
{
    let t = s.push(c);
    assert forall|i: int| 0 <= i && i + 1 < t.len() implies !(#[trigger] t[i] == a && t[i + 1]
        == b) by {
        if i + 1 < s.len() {
            assert(t[i] == s[i]);
            assert(t[i + 1] == s[i + 1]);
        } else {
            assert(t[i] == s.last());
            assert(t[i + 1] == c);
        }
    }
}

/// Calculate the expected check character for a body held as characters.
pub(crate) fn check_char_of_chars(v: &Vec<char>) -> (r: Result<char, IdError>)
    ensures
        r == spec_calculate(v@),
{
    if v.len() as u64 > u64::MAX / 22 {
        return Err(IdError::InvalidCheckBit);
    }
    let mut sum: u64 = 0;
    let mut i: usize = 0;
    while i < v.len()
        invariant
            i <= v.len(),
            v@.len() <= spec_max_body(),
            seq_valid(v@.take(i as int)),
            sum == rank_sum(v@.take(i as int)),
            sum <= 22 * i,
        decreases v.len() - i,
    {
        match rank_of_char(v[i]) {
            Some(rk) => {
                proof {
                    assert(v@.take(i + 1) =~= v@.take(i as int).push(v@[i as int]));
                    lemma_rank_sum_push(v@.take(i as int), v@[i as int]);
                }
                sum = sum + rk as u64;
            },
            None => {
                return Err(IdError::InvalidCharacter);
            },
        }
        i = i + 1;
    }
    proof {
        assert(v@.take(v@.len() as int) =~= v@);
    }
    let idx = sum % 23;
    Ok(char_at_rank(idx))
}

/// Calculate the expected check character for a body string.
pub fn calculate_check_char(s: &str) -> (r: Result<char, IdError>)
    ensures
        r == spec_calculate(s@),
{
    let v = chars_of(s);
    check_char_of_chars(&v)
}

/// Collect the characters of a string slice.
pub(crate) fn chars_of(s: &str) -> (v: Vec<char>)
    ensures
        v@ == s@,
{
    broadcast use vstd::string::group_string_axioms;

    let mut v: Vec<char> = Vec::new();
    let mut it = s.chars();
    loop
        invariant_except_break
            it.obeys_prophetic_iter_laws(),
            it.decrease() is Some,
            v@ + it.remaining() == s@,
        ensures
            v@ == s@,
        decreases it.decrease()->0,
    {
        match it.next() {
            Some(c) => {
                v.push(c);
            },
            None => {
                proof {
                    assert(v@ + it.remaining() =~= v@);
                }
                break ;
            },
        }
    }
    v
}

/// Apply the confusable fold to every character of a string.
fn fold_chars(v: &Vec<char>) -> (out: Vec<char>)
    ensures
        out@ == spec_fold_seq(v@),
{
    let mut out: Vec<char> = Vec::new();
    let mut i: usize = 0;
    while i < v.len()
        invariant
            i <= v.len(),
            out@ == spec_fold_seq(v@.take(i as int)),
        decreases v.len() - i,
    {
        let c = normalize_char(v[i]);
        out.push(c);
        proof {
            assert(out@ =~= spec_fold_seq(v@.take(i + 1)));
        }
        i = i + 1;
    }
    proof {
        assert(v@.take(v@.len() as int) =~= v@);
    }
    out
}

/// Replace every occurrence of the two-character pattern `ab` by `r`,
/// scanning left to right without overlap.
fn replace_pair_chars(v: &Vec<char>, a: char, b: char, r: char) -> (out: Vec<char>)
    ensures
        out@ == spec_replace_pair(v@, a, b, r),
{
    let mut out: Vec<char> = Vec::new();
    let mut i: usize = 0;
    proof {
        assert(v@.skip(0) =~= v@);
        assert(out@ + spec_replace_pair(v@, a, b, r) =~= spec_replace_pair(v@, a, b, r));
    }
    while i < v.len()
        invariant
            i <= v.len(),
            out@ + spec_replace_pair(v@.skip(i as int), a, b, r) == spec_replace_pair(v@, a, b, r),
        decreases v.len() - i,
    {
        let ghost rest = v@.skip(i as int);
        if i + 1 < v.len() && v[i] == a && v[i + 1] == b {
            out.push(r);
            proof {
                assert(rest.skip(2) =~= v@.skip(i + 2));
                assert(out@ + spec_replace_pair(v@.skip(i + 2), a, b, r) =~= (out@.drop_last()
                    + spec_replace_pair(rest, a, b, r)));
            }
            i = i + 2;
        } else {
            out.push(v[i]);
            proof {
                if i + 1 < v.len() {
                    assert(rest.skip(1) =~= v@.skip(i + 1));
                    assert(out@ + spec_replace_pair(v@.skip(i + 1), a, b, r) =~= (out@.drop_last()
                        + spec_replace_pair(rest, a, b, r)));
                } else {
                    assert(rest =~= seq![v@[i as int]]);
                    assert(spec_replace_pair(rest, a, b, r) == rest);
                    assert(v@.skip(i + 1) =~= Seq::<char>::empty());
                    assert(out@ + spec_replace_pair(v@.skip(i + 1), a, b, r) =~= (out@.drop_last()
                        + spec_replace_pair(rest, a, b, r)));
                }
            }
            i = i + 1;
        }
    }
    proof {
        assert(v@.skip(v@.len() as int) =~= Seq::<char>::empty());
        assert(out@ + Seq::<char>::empty() =~= out@);
    }
    out
}

/// Relies on `str::to_lowercase`: the result depends on the characters
/// alone, and on an ASCII string it is the per-character ASCII lowercase
/// (ASCII letters have unconditional single-character lowercase mappings,
/// and no other ASCII character is cased).
#[verifier::external_body]
pub(crate) fn lowercase(s: &str) -> (r: String)
    ensures
        r@ == lower_of(s@),
        lower_ensures(s@, r@),
{
    s.to_lowercase()
}

/// Fold each character per the confusable map, then rewrite the two
/// ambiguous sequences: the passes of normalization after lowercasing.
pub(crate) fn fold_and_rewrite(v: &Vec<char>) -> (out: Vec<char>)
    ensures
        out@ == spec_rewrite(spec_fold_seq(v@)),
{
    let folded = fold_chars(v);
    let pass1 = replace_pair_chars(&folded, 'r', 'n', 'm');
    replace_pair_chars(&pass1, 'v', 'v', 'w')
}

/// Normalize a string and replace ambiguous sequences in it.
///
/// The result is in normal form: normalizing it again changes nothing, as
/// the second clause states for every ASCII input and for every result that
/// lies in the check alphabet.
pub fn normalize_string(s: &str) -> (r: String)
    ensures
        r@ == spec_normalize(s@),
        (vstd::utf8::is_ascii_chars(s@) || seq_valid(r@)) ==> spec_normalize(r@) == r@,
{
    let low = lowercase(s);
    let v = chars_of(low.as_str());
    let folded = fold_and_rewrite(&v);
    let r = string_of(&folded);
    proof {
        if vstd::utf8::is_ascii_chars(s@) || seq_valid(r@) {
            lemma_normalize_idempotent(s@);
        }
    }
    r
}

/// Relies on `String::push`: appends exactly the given character.
#[verifier::external_body]
fn push_char(s: &mut String, c: char)
    ensures
        final(s)@ == old(s)@.push(c),
{
    s.push(c)
}

/// Build a string from a sequence of characters.
pub(crate) fn string_of(v: &Vec<char>) -> (s: String)
    ensures
        s@ == v@,
{
    let mut s = String::new();
    let mut i: usize = 0;
    while i < v.len()
        invariant
            i <= v.len(),
            s@ == v@.take(i as int),
        decreases v.len() - i,
    {
        proof {
            assert(v@.take(i as int).push(v@[i as int]) =~= v@.take(i + 1));
        }
        push_char(&mut s, v[i]);
        i = i + 1;
    }
    proof {
        assert(v@.take(v@.len() as int) =~= v@);
    }
    s
}

} // verus!
