//! The identifier type and its operations.
//!
//! An [`Id`] owns a normalized string whose last character is the checksum of
//! everything before it. It is created either by parsing untrusted text or by
//! drawing a fresh random body, and never mutated afterwards.

use vstd::prelude::*;

use crate::alphabet;
use crate::alphabet::{
    check_alphabet, gen_alphabet, is_check_char, seq_valid, spec_calculate, spec_check_char,
    spec_max_body, spec_normalize,
};
use crate::error::IdError;

verus! {

/// The number of bytes in the UTF-8 encoding of a string.
pub open spec fn spec_byte_len(s: Seq<char>) -> int {
    vstd::utf8::encode_utf8(s).len() as int
}

/// A well-formed identifier: at least a check character, a body short enough
/// to be checksummed safely, every character in the check alphabet, and the
/// last character equal to the checksum of the body.
pub open spec fn id_wf(s: Seq<char>) -> bool {
    &&& s.len() >= 1
    &&& s.len() - 1 <= spec_max_body()
    &&& seq_valid(s)
    &&& s.last() == spec_check_char(s.drop_last())
}

/// What parsing returns: the normalized input if it decodes and validates,
/// or the error of the first failing step. The steps, in order: the
/// normalized input must be longer than three bytes; the body (all but the
/// last character) must checksum successfully; the last character must equal
/// that checksum.
pub open spec fn spec_parse(s: Seq<char>) -> Result<Seq<char>, IdError> {
    let n = spec_normalize(s);
    if spec_byte_len(n) <= 3 {
        Err(IdError::TooShort)
    } else {
        match spec_calculate(n.drop_last()) {
            Err(e) => Err(e),
            Ok(expected) => if n.last() != expected {
                Err(IdError::InvalidCheckBit)
            } else {
                Ok(n)
            },
        }
    }
}

/// A string with a positive byte length holds at least one character.
proof fn lemma_byte_len_pos(s: Seq<char>)
    requires
        spec_byte_len(s) > 0,
    ensures
        s.len() > 0,
{
    if s.len() == 0 {
        assert(vstd::utf8::encode_utf8(s).len() == 0);
    }
}

/// Every character takes at least one byte, so a string's byte length is at
/// least its character count.
proof fn lemma_byte_len_lower(s: Seq<char>)
    ensures
        spec_byte_len(s) >= s.len(),
    decreases s.len(),
{
    if s.len() > 0 {
        lemma_byte_len_lower(s.drop_first());
        assert(vstd::utf8::encode_scalar(s[0] as u32).len() >= 1);
    }
}

/// The number of bytes of one character's UTF-8 encoding.
fn char_width(c: char) -> (w: usize)
    ensures
        w == vstd::utf8::encode_scalar(c as u32).len(),
        1 <= w <= 4,
{
    proof {
        vstd::utf8::char_is_scalar(c);
    }
    let u = c as u32;
    if u <= 0x7F {
        1
    } else if u <= 0x7FF {
        2
    } else if u <= 0xFFFF {
        3
    } else {
        4
    }
}

/// Whether a string's UTF-8 encoding is at most three bytes long: the bound
/// below which a candidate identifier is rejected as too short.
fn is_too_short(n: &Vec<char>) -> (r: bool)
    ensures
        r <==> spec_byte_len(n@) <= 3,
{
    proof {
        lemma_byte_len_lower(n@);
    }
    if n.len() > 3 {
        return false;
    }
    let mut sum: usize = 0;
    let mut i: usize = 0;
    proof {
        assert(n@.skip(0) =~= n@);
    }
    while i < n.len()
        invariant
            i <= n@.len() <= 3,
            sum <= 4 * i,
            spec_byte_len(n@) == sum + spec_byte_len(n@.skip(i as int)),
        decreases n.len() - i,
    {
        proof {
            assert(n@.skip(i as int)[0] == n@[i as int]);
            assert(n@.skip(i as int).drop_first() =~= n@.skip(i + 1));
        }
        sum = sum + char_width(n[i]);
        i = i + 1;
    }
    proof {
        assert(n@.skip(n@.len() as int) =~= Seq::<char>::empty());
        assert(spec_byte_len(Seq::<char>::empty()) == 0);
    }
    sum <= 3
}

/// A successfully parsed string is a well-formed identifier.
proof fn lemma_parse_ok_wf(s: Seq<char>)
    requires
        spec_parse(s) is Ok,
    ensures
        id_wf(spec_parse(s)->Ok_0),
{
    let n = spec_normalize(s);
    lemma_byte_len_pos(n);
    assert(n.len() >= 1);
    let body = n.drop_last();
    assert(spec_calculate(body) is Ok);
    assert(seq_valid(body));
    assert(n.last() == spec_check_char(body));
    alphabet::lemma_check_char_member(body);
    assert(is_check_char(spec_check_char(body)));
    assert forall|i: int| 0 <= i < n.len() implies is_check_char(#[trigger] n[i]) by {
        if i < n.len() - 1 {
            assert(n[i] == body[i]);
        } else {
            assert(n[i] == n.last());
        }
    }
}

/// A string of check-alphabet characters is ASCII, so its byte length is its
/// character count.
proof fn lemma_valid_ascii_len(s: Seq<char>)
    requires
        seq_valid(s),
    ensures
        spec_byte_len(s) == s.len(),
{
    assert forall|i: int| 0 <= i < s.len() implies '\0' <= #[trigger] s[i] <= '\u{7f}' by {
        alphabet::lemma_check_char_fixed(s[i]);
    }
    assert(vstd::utf8::is_ascii_chars(s));
    vstd::utf8::is_ascii_chars_encode_utf8(s);
}

/// Whether a character may be drawn at the current position of a fresh body:
/// it must not complete an ambiguous pair with the previous character, and
/// the last body position must not hold a character that could form such a
/// pair with the check character appended after it.
pub open spec fn spec_draw_ok(prev: Option<char>, c: char, is_last: bool) -> bool {
    &&& !(prev == Some('r') && c == 'n')
    &&& !(prev == Some('v') && c == 'v')
    &&& is_last ==> c != 'r' && c != 'v'
}

#[verifier::external_type_specification]
#[verifier::external_body]
pub struct ExThreadRng(rand::rngs::ThreadRng);

/// Relies on `rand::rng`: hands out the thread-local generator.
#[verifier::external_body]
fn fresh_rng() -> rand::rngs::ThreadRng {
    rand::rng()
}

/// Relies on `RngExt::random_range`: returns a value drawn from the given
/// range, and panics only when the range is empty.
#[verifier::external_body]
fn draw_index(rng: &mut rand::rngs::ThreadRng, n: usize) -> (i: usize)
    requires
        n > 0,
    ensures
        i < n,
{
    rand::RngExt::random_range(rng, 0..n)
}

/// The generation-alphabet characters that may be drawn at the current
/// position. Never empty: `'a'` is always allowed.
fn allowed_chars(prev: Option<char>, is_last: bool) -> (out: Vec<char>)
    ensures
        out@.len() > 0,
        forall|k: int|
            0 <= k < out@.len() ==> is_check_char(#[trigger] out@[k]) && gen_alphabet().contains(
                out@[k],
            ) && spec_draw_ok(prev, out@[k], is_last),
{
    let mut out: Vec<char> = Vec::new();
    let mut i: u64 = 0;
    while i < 23
        invariant
            i <= 23,
            i > 0 ==> out@.len() > 0,
            forall|k: int|
                0 <= k < out@.len() ==> is_check_char(#[trigger] out@[k])
                    && gen_alphabet().contains(out@[k]) && spec_draw_ok(prev, out@[k], is_last),
        decreases 23 - i,
    {
        let c = alphabet::char_at_rank(i);
        proof {
            alphabet::lemma_alphabet_ranks();
            assert(gen_alphabet() =~= check_alphabet());
            assert(gen_alphabet()[i as int] == c);
            assert(gen_alphabet().contains(c));
        }
        let blocked_pair = match prev {
            Some(p) => (p == 'r' && c == 'n') || (p == 'v' && c == 'v'),
            None => false,
        };
        let blocked_tail = is_last && (c == 'r' || c == 'v');
        if !(blocked_pair || blocked_tail) {
            out.push(c);
        }
        i = i + 1;
    }
    out
}

/// A user-friendly identifier with check-character validation.
///
/// Identifiers are value types: equality and hashing go by the stored
/// normalized string.
#[derive(Debug, Clone, Eq, Hash)]
pub struct Id {
    s: String,
}

impl View for Id {
    type V = Seq<char>;

    closed spec fn view(&self) -> Seq<char> {
        self.s@
    }
}

impl PartialEq for Id {
    fn eq(&self, other: &Id) -> (r: bool) {
        self.s == other.s
    }
}

impl vstd::std_specs::cmp::PartialEqSpecImpl for Id {
    open spec fn obeys_eq_spec() -> bool {
        true
    }

    open spec fn eq_spec(&self, other: &Id) -> bool {
        self@ == other@
    }
}

impl TryFrom<String> for Id {
    type Error = IdError;

    fn try_from(value: String) -> (r: Result<Id, IdError>)
        ensures
            r is Ok <==> spec_parse(value@) is Ok,
            r is Ok ==> r->Ok_0@ == spec_parse(value@)->Ok_0 && r->Ok_0.wf(),
            r is Err ==> r->Err_0 == spec_parse(value@)->Err_0,
    {
        Id::from_str(value.as_str())
    }
}

impl vstd::std_specs::convert::TryFromSpecImpl<String> for Id {
    open spec fn obeys_try_from_spec() -> bool {
        false
    }

    open spec fn try_from_spec(v: String) -> Result<Id, IdError> {
        arbitrary()
    }
}

impl core::str::FromStr for Id {
    type Err = IdError;

    fn from_str(s: &str) -> (r: Result<Id, IdError>) {
        Id::from_str(s)
    }
}

impl From<Id> for String {
    fn from(id: Id) -> (r: String)
        ensures
            r@ == id@,
    {
        id.s
    }
}

impl vstd::std_specs::convert::FromSpecImpl<Id> for String {
    open spec fn obeys_from_spec() -> bool {
        false
    }

    open spec fn from_spec(v: Id) -> String {
        arbitrary()
    }
}

impl Id {
    /// Whether this identifier satisfies the type's invariant.
    pub open spec fn wf(&self) -> bool {
        id_wf(self@)
    }

    /// The canonical normalized form as a string slice.
    pub fn as_str(&self) -> (r: &str)
        ensures
            r@ == self@,
    {
        self.s.as_str()
    }

    /// The largest identifier length for which the checksum's rank sum is
    /// guaranteed to fit in unsigned 64-bit arithmetic.
    pub fn max_length() -> (r: u64)
        ensures
            r == spec_max_body() + 1,
    {
        u64::MAX / 22 + 1
    }

    /// Decode and validate an identifier from untrusted text.
    ///
    /// The input is normalized first, so the stored canonical form differs
    /// from the raw input whenever the input held a confusable character,
    /// a digit that folds to a letter, or an uppercase letter.
    pub fn from_str(input: &str) -> (r: Result<Id, IdError>)
        ensures
            r is Ok <==> spec_parse(input@) is Ok,
            r is Ok ==> r->Ok_0@ == spec_parse(input@)->Ok_0 && r->Ok_0.wf(),
            r is Err ==> r->Err_0 == spec_parse(input@)->Err_0,
    {
        let low = alphabet::lowercase(input);
        let v = alphabet::chars_of(low.as_str());
        let n = alphabet::fold_and_rewrite(&v);
        let normalized = alphabet::string_of(&n);
        if is_too_short(&n) {
            return Err(IdError::TooShort);
        }
        proof {
            lemma_byte_len_pos(n@);
        }
        let mut body: Vec<char> = Vec::new();
        let mut i: usize = 0;
        while i < n.len() - 1
            invariant
                n@.len() >= 1,
                i <= n@.len() - 1,
                body@ == n@.take(i as int),
            decreases n.len() - 1 - i,
        {
            body.push(n[i]);
            proof {
                assert(body@ =~= n@.take(i + 1));
            }
            i = i + 1;
        }
        proof {
            assert(body@ =~= n@.drop_last());
        }
        let check_char = n[n.len() - 1];
        let expected = match alphabet::check_char_of_chars(&body) {
            Ok(c) => c,
            Err(e) => {
                return Err(e);
            },
        };
        if check_char != expected {
            return Err(IdError::InvalidCheckBit);
        }
        let mut j: usize = 0;
        while j < body.len()
            invariant
                seq_valid(body@),
            decreases body.len() - j,
        {
            match alphabet::validate_char(body[j]) {
                Ok(()) => {},
                Err(e) => {
                    return Err(e);
                },
            }
            j = j + 1;
        }
        proof {
            lemma_parse_ok_wf(input@);
        }
        Ok(Id { s: normalized })
    }

    /// Generate a fresh identifier of the given length with the given
    /// generator.
    ///
    /// The body is drawn from the generation alphabet, never forming an
    /// ambiguous pair and never ending in a character that could form one
    /// with the check character appended after it. Given the lowercasing
    /// facts the normalization wrapper states, a generated identifier of a
    /// viable length parses back to itself unchanged.
    pub fn new_with_rng(len: usize, rng: &mut rand::rngs::ThreadRng) -> (id: Id)
        requires
            len as int <= spec_max_body() + 1,
        ensures
            id.wf(),
            id@.len() == if len == 0 { 1int } else { len as int },
            forall|i: int| 0 <= i < id@.len() - 1 ==> gen_alphabet().contains(#[trigger] id@[i]),
            !alphabet::has_pair(id@, 'r', 'n'),
            !alphabet::has_pair(id@, 'v', 'v'),
            id@.len() >= 2 ==> id@[id@.len() - 2] != 'r' && id@[id@.len() - 2] != 'v',
            alphabet::lower_of_facts() && len >= 4 ==> spec_parse(id@) == Ok::<
                Seq<char>,
                IdError,
            >(id@),
    {
        let target: usize = if len == 0 { 0 } else { len - 1 };
        let mut body: Vec<char> = Vec::new();
        while body.len() < target
            invariant
                target as int <= spec_max_body(),
                body@.len() <= target,
                seq_valid(body@),
                forall|i: int| 0 <= i < body@.len() ==> gen_alphabet().contains(#[trigger] body@[i]),
                !alphabet::has_pair(body@, 'r', 'n'),
                !alphabet::has_pair(body@, 'v', 'v'),
                body@.len() == target && target > 0 ==> body@.last() != 'r' && body@.last()
                    != 'v',
            decreases target - body.len(),
        {
            let is_last = body.len() + 1 == target;
            let prev: Option<char> = if body.len() == 0 {
                None
            } else {
                Some(body[body.len() - 1])
            };
            let allowed = allowed_chars(prev, is_last);
            let idx = draw_index(rng, allowed.len());
            let c = allowed[idx];
            proof {
                alphabet::lemma_push_no_pair(body@, c, 'r', 'n');
                alphabet::lemma_push_no_pair(body@, c, 'v', 'v');
            }
            body.push(c);
        }
        let check = match alphabet::check_char_of_chars(&body) {
            Ok(c) => c,
            Err(_) => {
                proof {
                    assert(spec_calculate(body@) is Ok);
                }
                vstd::pervasive::unreached()
            },
        };
        proof {
            alphabet::lemma_check_char_member(body@);
        }
        let ghost body_snap = body@;
        let mut full = body;
        full.push(check);
        let s = alphabet::string_of(&full);
        proof {
            assert(full@ =~= body_snap.push(spec_check_char(body_snap)));
            assert(full@.drop_last() =~= body_snap);
            assert forall|i: int| 0 <= i < full@.len() implies is_check_char(
                #[trigger] full@[i],
            ) by {
                if i < body_snap.len() {
                    assert(full@[i] == body_snap[i]);
                } else {
                    assert(full@[i] == spec_check_char(body_snap));
                }
            }
            alphabet::lemma_push_no_pair(body_snap, full@.last(), 'r', 'n');
            alphabet::lemma_push_no_pair(body_snap, full@.last(), 'v', 'v');
            if alphabet::lower_of_facts() && len >= 4 {
                alphabet::lemma_normalized_fixpoint(full@);
                lemma_valid_ascii_len(full@);
            }
        }
        Id { s }
    }

    /// Generate a fresh identifier of the given length using the
    /// thread-local generator.
    pub fn new(len: usize) -> (id: Id)
        requires
            len as int <= spec_max_body() + 1,
        ensures
            id.wf(),
            id@.len() == if len == 0 { 1int } else { len as int },
            forall|i: int| 0 <= i < id@.len() - 1 ==> gen_alphabet().contains(#[trigger] id@[i]),
            !alphabet::has_pair(id@, 'r', 'n'),
            !alphabet::has_pair(id@, 'v', 'v'),
            id@.len() >= 2 ==> id@[id@.len() - 2] != 'r' && id@[id@.len() - 2] != 'v',
            alphabet::lower_of_facts() && len >= 4 ==> spec_parse(id@) == Ok::<
                Seq<char>,
                IdError,
            >(id@),
    {
        let mut rng = fresh_rng();
        Self::new_with_rng(len, &mut rng)
    }
}

} // verus!
