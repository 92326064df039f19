//! The reversible address codec that test environments use in place of a chain's own
//! address format. A human address is lower-cased, padded with zero bytes to a fixed
//! length, rotated by its byte sum and riffle-shuffled; decoding shuffles on until the
//! initial order returns, rotates back and drops the padding.

use vstd::prelude::*;
use vstd::string::StringSliceAdditionalSpecFns;
use vstd::utf8::{decode_utf8, encode_utf8, valid_utf8};

verus! {

/// Length of a canonical address.
pub const CANONICAL_LENGTH: usize = 90;

/// Shuffles applied when encoding.
pub const SHUFFLES_ENCODE: usize = 10;

/// Shuffles applied when decoding; with the encoding's they restore the initial order.
pub const SHUFFLES_DECODE: usize = 2;

/// Why an address was refused.
#[derive(Clone, Copy, Debug, PartialEq, Eq, Structural)]
pub enum AddrError {
    /// A human address shorter than three bytes.
    TooShort,
    /// A human address longer than a canonical address.
    TooLong,
    /// A canonical address of the wrong length.
    WrongCanonicalLength,
    /// Decoded bytes that are not UTF-8.
    InvalidUtf8,
    /// A human address that does not decode back to itself.
    NotNormalized,
}

/// The lower-case form of a string.
pub uninterp spec fn lower_of(s: Seq<char>) -> Seq<char>;

/// Relies on `str::to_lowercase`: the lower-case form depends on the characters alone.
#[verifier::external_body]
fn to_lowercase(s: &str) -> (r: String)
    ensures
        r@ == lower_of(s@),
{
    s.to_lowercase()
}

/// Relies on `String::from_utf8`: it succeeds exactly on valid UTF-8, and then holds the
/// characters those bytes encode.
#[verifier::external_body]
fn string_from_utf8(bytes: Vec<u8>) -> (r: Option<String>)
    ensures
        r.is_some() <==> valid_utf8(bytes@),
        r matches Some(s) ==> s@ == decode_utf8(bytes@),
{
    match String::from_utf8(bytes) {
        Ok(s) => Some(s),
        Err(_) => None,
    }
}

/// The sum of the bytes of `s`.
pub open spec fn byte_sum(s: Seq<u8>) -> int
    decreases s.len(),
{
    if s.len() == 0 {
        0
    } else {
        byte_sum(s.drop_last()) + s.last()
    }
}

proof fn lemma_byte_sum_prefix(s: Seq<u8>, i: int)
    requires
        0 <= i <= s.len(),
    ensures
        0 <= byte_sum(s.subrange(0, i)) <= byte_sum(s),
    decreases s.len() - i,
{
    if i < s.len() {
        lemma_byte_sum_prefix(s, i + 1);
        assert(s.subrange(0, i + 1).drop_last() =~= s.subrange(0, i));
    } else {
        assert(s.subrange(0, i) =~= s);
    }
    lemma_byte_sum_nonneg(s.subrange(0, i));
}

proof fn lemma_byte_sum_nonneg(s: Seq<u8>)
    ensures
        0 <= byte_sum(s) <= 255 * s.len(),
    decreases s.len(),
{
    if s.len() > 0 {
        lemma_byte_sum_nonneg(s.drop_last());
    }
}

/// The sum of the bytes of `input`.
pub fn digit_sum(input: &[u8]) -> (r: usize)
    requires
        byte_sum(input@) <= usize::MAX,
    ensures
        r == byte_sum(input@),
{
    let mut sum: usize = 0;
    let mut i: usize = 0;
    while i < input.len()
        invariant
            i <= input.len(),
            byte_sum(input@) <= usize::MAX,
            sum == byte_sum(input@.subrange(0, i as int)),
        decreases input.len() - i,
    {
        proof {
            lemma_byte_sum_prefix(input@, i + 1);
            assert(input@.subrange(0, i + 1).drop_last() =~= input@.subrange(0, i as int));
        }
        sum = sum + input[i] as usize;
        i = i + 1;
    }
    assert(input@.subrange(0, i as int) =~= input@);
    sum
}

/// The in-shuffle of a sequence of even length: the first element of the second half,
/// then the first of the first half, and so on.
pub open spec fn riffled<T>(s: Seq<T>) -> Seq<T> {
    let mid = s.len() / 2;
    Seq::new(
        s.len(),
        |k: int|
            if k % 2 == 0 {
                s[mid + k / 2]
            } else {
                s[k / 2]
            },
    )
}

/// The in-shuffle of `input`, whose length must be even; each element is a clone.
pub fn riffle_shuffle<T: Clone>(input: &[T]) -> (out: Vec<T>)
    requires
        input.len() % 2 == 0,
    ensures
        out.len() == input.len(),
        forall|k: int| 0 <= k < input.len() ==> cloned(#[trigger] riffled(input@)[k], out@[k]),
{
    let mid = input.len() / 2;
    let (left, right) = input.split_at(mid);
    let mut out: Vec<T> = Vec::with_capacity(input.len());
    let mut i: usize = 0;
    while i < mid
        invariant
            mid == input.len() / 2,
            input.len() % 2 == 0,
            left@ == input@.subrange(0, mid as int),
            right@ == input@.subrange(mid as int, input@.len() as int),
            i <= mid,
            out.len() == 2 * i,
            forall|k: int| 0 <= k < 2 * i ==> cloned(#[trigger] riffled(input@)[k], out@[k]),
        decreases mid - i,
    {
        out.push(right[i].clone());
        out.push(left[i].clone());
        assert forall|k: int| 0 <= k < 2 * i + 2 implies cloned(
            #[trigger] riffled(input@)[k],
            out@[k],
        ) by {
            if k == 2 * i {
                assert(riffled(input@)[k] == input@[mid + i]);
            } else if k == 2 * i + 1 {
                assert(riffled(input@)[k] == input@[i as int]);
            }
        }
        i = i + 1;
    }
    out
}

/// `b` cut or padded with zero bytes to the canonical length.
pub open spec fn padded(b: Seq<u8>) -> Seq<u8> {
    Seq::new(CANONICAL_LENGTH as nat, |k: int| if k < b.len() { b[k] } else { 0u8 })
}

/// `s` rotated left by `n` places.
pub open spec fn rotated_left(s: Seq<u8>, n: int) -> Seq<u8> {
    Seq::new(s.len(), |k: int| s[(k + n) % (s.len() as int)])
}

/// `s` rotated right by `n` places, `n` below its length.
pub open spec fn rotated_right(s: Seq<u8>, n: int) -> Seq<u8> {
    Seq::new(s.len(), |k: int| s[(k + s.len() - n) % (s.len() as int)])
}

/// `s` riffle-shuffled `times` times.
pub open spec fn shuffled(s: Seq<u8>, times: nat) -> Seq<u8>
    decreases times,
{
    if times == 0 {
        s
    } else {
        riffled(shuffled(s, (times - 1) as nat))
    }
}

/// The canonical form of a human address.
pub open spec fn canonical_of(input: Seq<char>) -> Seq<u8> {
    encoded(lower_of(input))
}

/// The canonical form of an address that is already lower-cased.
pub open spec fn encoded(lowered: Seq<char>) -> Seq<u8> {
    let p = padded(encode_utf8(lowered));
    shuffled(rotated_left(p, byte_sum(p) % (CANONICAL_LENGTH as int)), SHUFFLES_ENCODE as nat)
}

/// Why `validate` refuses a human address of `len` bytes, if it does.
pub open spec fn validate_error(len: int, input: Seq<char>) -> Option<AddrError> {
    validate_lowered_error(len, input, lower_of(input))
}

/// Why `validate_lowered` refuses a human address of `len` bytes whose lower-cased form is
/// `lowered`, if it does.
pub open spec fn validate_lowered_error(len: int, input: Seq<char>, lowered: Seq<char>) -> Option<
    AddrError,
> {
    let h = human_bytes_of(encoded(lowered));
    if len < 3 {
        Some(AddrError::TooShort)
    } else if len > CANONICAL_LENGTH {
        Some(AddrError::TooLong)
    } else if !valid_utf8(h) {
        Some(AddrError::InvalidUtf8)
    } else if decode_utf8(h) != input {
        Some(AddrError::NotNormalized)
    } else {
        None
    }
}

/// The bytes of the human address that a canonical address decodes to.
pub open spec fn human_bytes_of(c: Seq<u8>) -> Seq<u8> {
    let t = shuffled(c, SHUFFLES_DECODE as nat);
    nonzero_bytes(rotated_right(t, byte_sum(t) % (CANONICAL_LENGTH as int)))
}

/// `s` without its zero bytes.
pub open spec fn nonzero_bytes(s: Seq<u8>) -> Seq<u8> {
    s.filter(|x: u8| x != 0)
}

fn pad_to_canonical(b: &[u8]) -> (r: Vec<u8>)
    ensures
        r@ == padded(b@),
{
    let mut out: Vec<u8> = Vec::with_capacity(CANONICAL_LENGTH);
    let mut k: usize = 0;
    while k < CANONICAL_LENGTH
        invariant
            k <= CANONICAL_LENGTH,
            out@ == padded(b@).subrange(0, k as int),
        decreases CANONICAL_LENGTH - k,
    {
        if k < b.len() {
            out.push(b[k]);
        } else {
            out.push(0u8);
        }
        k = k + 1;
        assert(out@ =~= padded(b@).subrange(0, k as int));
    }
    assert(out@ =~= padded(b@));
    out
}

fn rotate_left_by(s: &Vec<u8>, n: usize) -> (r: Vec<u8>)
    requires
        0 < s.len() <= CANONICAL_LENGTH,
        n < s.len(),
    ensures
        r@ == rotated_left(s@, n as int),
{
    let len = s.len();
    let mut out: Vec<u8> = Vec::with_capacity(len);
    let mut k: usize = 0;
    while k < len
        invariant
            len == s.len(),
            0 < len <= CANONICAL_LENGTH,
            n < len,
            k <= len,
            out@ == rotated_left(s@, n as int).subrange(0, k as int),
        decreases len - k,
    {
        out.push(s[(k + n) % len]);
        k = k + 1;
        assert(out@ =~= rotated_left(s@, n as int).subrange(0, k as int));
    }
    assert(out@ =~= rotated_left(s@, n as int));
    out
}

fn rotate_right_by(s: &Vec<u8>, n: usize) -> (r: Vec<u8>)
    requires
        0 < s.len() <= CANONICAL_LENGTH,
        n < s.len(),
    ensures
        r@ == rotated_right(s@, n as int),
{
    let len = s.len();
    let mut out: Vec<u8> = Vec::with_capacity(len);
    let mut k: usize = 0;
    while k < len
        invariant
            len == s.len(),
            0 < len <= CANONICAL_LENGTH,
            n < len,
            k <= len,
            out@ == rotated_right(s@, n as int).subrange(0, k as int),
        decreases len - k,
    {
        out.push(s[(k + len - n) % len]);
        k = k + 1;
        assert(out@ =~= rotated_right(s@, n as int).subrange(0, k as int));
    }
    assert(out@ =~= rotated_right(s@, n as int));
    out
}

fn shuffle_times(s: Vec<u8>, times: usize) -> (r: Vec<u8>)
    requires
        s.len() % 2 == 0,
    ensures
        r@ == shuffled(s@, times as nat),
        r.len() == s.len(),
{
    let mut out = s;
    let mut i: usize = 0;
    while i < times
        invariant
            i <= times,
            s.len() % 2 == 0,
            out.len() == s.len(),
            out@ == shuffled(s@, i as nat),
        decreases times - i,
    {
        let next = riffle_shuffle(out.as_slice());
        assert(next@ =~= riffled(out@));
        out = next;
        i = i + 1;
    }
    out
}

fn drop_zeros(s: &Vec<u8>) -> (r: Vec<u8>)
    ensures
        r@ == nonzero_bytes(s@),
{
    let mut out: Vec<u8> = Vec::new();
    let mut i: usize = 0;
    while i < s.len()
        invariant
            i <= s.len(),
            out@ == nonzero_bytes(s@.subrange(0, i as int)),
        decreases s.len() - i,
    {
        let ghost prefix = s@.subrange(0, i + 1);
        assert(prefix.drop_last() =~= s@.subrange(0, i as int));
        assert(prefix.last() == s@[i as int]);
        if s[i] != 0 {
            out.push(s[i]);
        }
        i = i + 1;
        proof {
            reveal_with_fuel(Seq::filter, 2);
        }
        assert(out@ =~= nonzero_bytes(prefix));
    }
    assert(s@.subrange(0, i as int) =~= s@);
    out
}

/// The byte sum of a canonical-length sequence, reduced modulo that length.
fn rotation_of(s: &Vec<u8>) -> (r: usize)
    requires
        s.len() == CANONICAL_LENGTH,
    ensures
        r == byte_sum(s@) % (CANONICAL_LENGTH as int),
        r < CANONICAL_LENGTH,
{
    proof {
        lemma_byte_sum_nonneg(s@);
    }
    digit_sum(s.as_slice()) % CANONICAL_LENGTH
}

/// The canonical form of a human address of 3 to 90 bytes.
pub fn canonicalize(input: &str) -> (r: Result<Vec<u8>, AddrError>)
    ensures
        input.len() < 3 ==> r == Err::<Vec<u8>, AddrError>(AddrError::TooShort),
        3 <= input.len() <= CANONICAL_LENGTH ==> (r matches Ok(c) && c@ == canonical_of(input@)),
        input.len() > CANONICAL_LENGTH ==> r == Err::<Vec<u8>, AddrError>(AddrError::TooLong),
        r matches Ok(c) ==> c@.len() == CANONICAL_LENGTH,
{
    if input.len() < 3 {
        return Err(AddrError::TooShort);
    }
    if input.len() > CANONICAL_LENGTH {
        return Err(AddrError::TooLong);
    }
    let normalized = to_lowercase(input);
    Ok(canonicalize_lowered(normalized.as_str()))
}

/// The canonical form of an address that is already lower-cased: padded, rotated by its
/// byte sum and shuffled.
pub fn canonicalize_lowered(lowered: &str) -> (r: Vec<u8>)
    ensures
        r@ == encoded(lowered@),
        r@.len() == CANONICAL_LENGTH,
{
    let out = pad_to_canonical(lowered.as_bytes());
    let rotate_by = rotation_of(&out);
    let rotated = rotate_left_by(&out, rotate_by);
    shuffle_times(rotated, SHUFFLES_ENCODE)
}

/// The human address that a canonical address decodes to.
pub fn humanize(canonical: &[u8]) -> (r: Result<String, AddrError>)
    ensures
        canonical@.len() != CANONICAL_LENGTH ==> r == Err::<String, AddrError>(
            AddrError::WrongCanonicalLength,
        ),
        canonical@.len() == CANONICAL_LENGTH && !valid_utf8(human_bytes_of(canonical@)) ==> r
            == Err::<String, AddrError>(AddrError::InvalidUtf8),
        canonical@.len() == CANONICAL_LENGTH && valid_utf8(human_bytes_of(canonical@)) ==> (r matches Ok(s) && s@ == decode_utf8(human_bytes_of(canonical@))),
{
    if canonical.len() != CANONICAL_LENGTH {
        return Err(AddrError::WrongCanonicalLength);
    }
    let mut tmp: Vec<u8> = Vec::with_capacity(CANONICAL_LENGTH);
    let mut i: usize = 0;
    while i < canonical.len()
        invariant
            i <= canonical.len(),
            tmp@ == canonical@.subrange(0, i as int),
        decreases canonical.len() - i,
    {
        tmp.push(canonical[i]);
        i = i + 1;
        assert(tmp@ =~= canonical@.subrange(0, i as int));
    }
    assert(tmp@ =~= canonical@);
    let shuffled_back = shuffle_times(tmp, SHUFFLES_DECODE);
    let rotate_by = rotation_of(&shuffled_back);
    let rotated = rotate_right_by(&shuffled_back, rotate_by);
    let trimmed = drop_zeros(&rotated);
    match string_from_utf8(trimmed) {
        Some(s) => Ok(s),
        None => Err(AddrError::InvalidUtf8),
    }
}

/// A human address is valid when it is canonicalized and decoded back to itself.
pub fn validate(input: &str) -> (r: Result<String, AddrError>)
    ensures
        match validate_error(input.len() as int, input@) {
            Some(e) => r == Err::<String, AddrError>(e),
            None => r matches Ok(s) && s@ == input@,
        },
{
    if input.len() < 3 {
        return Err(AddrError::TooShort);
    }
    if input.len() > CANONICAL_LENGTH {
        return Err(AddrError::TooLong);
    }
    let lowered = to_lowercase(input);
    validate_lowered(input, lowered.as_str())
}

/// The check of `validate` given the address's lower-cased form `lowered`: the length,
/// then the decoding of its canonical form, which must give `input` back.
pub fn validate_lowered(input: &str, lowered: &str) -> (r: Result<String, AddrError>)
    ensures
        match validate_lowered_error(input.len() as int, input@, lowered@) {
            Some(e) => r == Err::<String, AddrError>(e),
            None => r matches Ok(s) && s@ == input@,
        },
{
    if input.len() < 3 {
        return Err(AddrError::TooShort);
    }
    if input.len() > CANONICAL_LENGTH {
        return Err(AddrError::TooLong);
    }
    let canonical = canonicalize_lowered(lowered);
    let normalized = match humanize(canonical.as_slice()) {
        Ok(h) => h,
        Err(e) => return Err(e),
    };
    let owned = input.to_owned();
    if !(owned == normalized) {
        return Err(AddrError::NotNormalized);
    }
    Ok(owned)
}

/// The address codec of a mock environment for a pool's own tests.
pub struct CustomMockApi;

impl CustomMockApi {
    pub fn addr_validate(&self, input: &str) -> (r: Result<String, AddrError>)
        ensures
            match validate_error(input.len() as int, input@) {
                Some(e) => r == Err::<String, AddrError>(e),
                None => r matches Ok(s) && s@ == input@,
            },
    {
        validate(input)
    }

    pub fn addr_canonicalize(&self, input: &str) -> (r: Result<Vec<u8>, AddrError>)
        ensures
            input.len() < 3 ==> r == Err::<Vec<u8>, AddrError>(AddrError::TooShort),
            3 <= input.len() <= CANONICAL_LENGTH ==> (r matches Ok(c) && c@ == canonical_of(input@)),
            input.len() > CANONICAL_LENGTH ==> r == Err::<Vec<u8>, AddrError>(
                AddrError::TooLong,
            ),
    {
        canonicalize(input)
    }

    pub fn addr_humanize(&self, canonical: &[u8]) -> (r: Result<String, AddrError>)
        ensures
            canonical@.len() != CANONICAL_LENGTH ==> r == Err::<String, AddrError>(
                AddrError::WrongCanonicalLength,
            ),
            canonical@.len() == CANONICAL_LENGTH && !valid_utf8(human_bytes_of(canonical@)) ==> r
                == Err::<String, AddrError>(AddrError::InvalidUtf8),
            canonical@.len() == CANONICAL_LENGTH && valid_utf8(human_bytes_of(canonical@)) ==> (r matches Ok(s) && s@ == decode_utf8(human_bytes_of(canonical@))),
    {
        humanize(canonical)
    }
}

/// The address codec of a mock environment kept for older test suites.
pub struct LegacyMockApi;

impl LegacyMockApi {
    pub fn addr_validate(&self, input: &str) -> (r: Result<String, AddrError>)
        ensures
            match validate_error(input.len() as int, input@) {
                Some(e) => r == Err::<String, AddrError>(e),
                None => r matches Ok(s) && s@ == input@,
            },
    {
        validate(input)
    }

    pub fn addr_canonicalize(&self, input: &str) -> (r: Result<Vec<u8>, AddrError>)
        ensures
            input.len() < 3 ==> r == Err::<Vec<u8>, AddrError>(AddrError::TooShort),
            3 <= input.len() <= CANONICAL_LENGTH ==> (r matches Ok(c) && c@ == canonical_of(input@)),
            input.len() > CANONICAL_LENGTH ==> r == Err::<Vec<u8>, AddrError>(
                AddrError::TooLong,
            ),
    {
        canonicalize(input)
    }

    pub fn addr_humanize(&self, canonical: &[u8]) -> (r: Result<String, AddrError>)
        ensures
            canonical@.len() != CANONICAL_LENGTH ==> r == Err::<String, AddrError>(
                AddrError::WrongCanonicalLength,
            ),
            canonical@.len() == CANONICAL_LENGTH && !valid_utf8(human_bytes_of(canonical@)) ==> r
                == Err::<String, AddrError>(AddrError::InvalidUtf8),
            canonical@.len() == CANONICAL_LENGTH && valid_utf8(human_bytes_of(canonical@)) ==> (r matches Ok(s) && s@ == decode_utf8(human_bytes_of(canonical@))),
    {
        humanize(canonical)
    }
}

/// The position that the byte at position `j` holds after `t` shuffles of a canonical
/// address.
pub open spec fn shuffled_position(j: int, t: nat) -> int
    decreases t,
{
    if t == 0 {
        j
    } else {
        let p = shuffled_position(j, (t - 1) as nat);
        if p < 45 {
            2 * p + 1
        } else {
            2 * p - 90
        }
    }
}

/// `2^t`.
pub open spec fn pow2(t: nat) -> int
    decreases t,
{
    if t == 0 {
        1
    } else {
        2 * pow2((t - 1) as nat)
    }
}

/// Shuffling `a` times and then `b` times is shuffling `a + b` times.
proof fn lemma_shuffled_add(s: Seq<u8>, a: nat, b: nat)
    ensures
        shuffled(shuffled(s, a), b) == shuffled(s, a + b),
    decreases b,
{
    if b > 0 {
        lemma_shuffled_add(s, a, (b - 1) as nat);
    }
}

/// A shuffle keeps a canonical address's length and moves the byte at `p` to the next
/// shuffled position.
proof fn lemma_riffle_step(u: Seq<u8>, p: int)
    requires
        u.len() == CANONICAL_LENGTH,
        0 <= p < CANONICAL_LENGTH,
    ensures
        riffled(u).len() == CANONICAL_LENGTH,
        riffled(u)[if p < 45 {
            2 * p + 1
        } else {
            2 * p - 90
        }] == u[p],
{
    if p < 45 {
        assert((2 * p + 1) % 2 == 1 && (2 * p + 1) / 2 == p);
    } else {
        assert((2 * p - 90) % 2 == 0 && (2 * p - 90) / 2 == p - 45);
    }
}

/// After `t` shuffles the byte first at `j` stands at `shuffled_position(j, t)`, which is
/// one less than `(j + 1) * 2^t` modulo 91.
proof fn lemma_shuffled_tracks(s: Seq<u8>, j: int, t: nat)
    requires
        s.len() == CANONICAL_LENGTH,
        0 <= j < CANONICAL_LENGTH,
    ensures
        shuffled(s, t).len() == CANONICAL_LENGTH,
        0 <= shuffled_position(j, t) < CANONICAL_LENGTH,
        shuffled(s, t)[shuffled_position(j, t)] == s[j],
        shuffled_position(j, t) + 1 == ((j + 1) * pow2(t)) % 91,
    decreases t,
{
    if t == 0 {
        vstd::arithmetic::div_mod::lemma_small_mod((j + 1) as nat, 91);
    } else {
        let t1 = (t - 1) as nat;
        lemma_shuffled_tracks(s, j, t1);
        let p = shuffled_position(j, t1);
        lemma_riffle_step(shuffled(s, t1), p);
        // 2 * (p + 1) lies in [2, 180]; taking 91 off when it passes 90 is the remainder.
        if p < 45 {
            vstd::arithmetic::div_mod::lemma_small_mod((2 * (p + 1)) as nat, 91);
        } else {
            vstd::arithmetic::div_mod::lemma_small_mod((2 * (p + 1) - 91) as nat, 91);
            vstd::arithmetic::div_mod::lemma_mod_add_multiples_vanish(2 * (p + 1) - 91, 91);
        }
        vstd::arithmetic::div_mod::lemma_mul_mod_noop_right(2, (j + 1) * pow2(t1), 91);
        assert(2 * ((j + 1) * pow2(t1)) == (j + 1) * pow2(t)) by (nonlinear_arith)
            requires
                pow2(t) == 2 * pow2(t1),
        ;
    }
}

/// Twelve shuffles bring a canonical address back to its initial order, as
/// `2^12 = 45 * 91 + 1`.
proof fn lemma_twelve_shuffles(s: Seq<u8>)
    requires
        s.len() == CANONICAL_LENGTH,
    ensures
        shuffled(s, 12) == s,
{
    assert(pow2(12) == 4096) by {
        reveal_with_fuel(pow2, 13);
    }
    assert forall|j: int| 0 <= j < CANONICAL_LENGTH implies #[trigger] shuffled(s, 12)[j] == s[j] by {
        lemma_shuffled_tracks(s, j, 12);
        assert((j + 1) * 4096 == 91 * (45 * (j + 1)) + (j + 1)) by (nonlinear_arith);
        vstd::arithmetic::div_mod::lemma_mod_multiples_vanish(45 * (j + 1), j + 1, 91);
        vstd::arithmetic::div_mod::lemma_small_mod((j + 1) as nat, 91);
    }
    lemma_shuffled_tracks(s, 0, 12);
    assert(shuffled(s, 12) =~= s);
}

proof fn lemma_byte_sum_concat(a: Seq<u8>, b: Seq<u8>)
    ensures
        byte_sum(a + b) == byte_sum(a) + byte_sum(b),
    decreases b.len(),
{
    if b.len() == 0 {
        assert(a + b =~= a);
    } else {
        lemma_byte_sum_concat(a, b.drop_last());
        assert((a + b).drop_last() =~= a + b.drop_last());
    }
}

/// Rotating keeps the byte sum.
proof fn lemma_rotation_keeps_sum(p: Seq<u8>, n: int)
    requires
        p.len() == CANONICAL_LENGTH,
        0 <= n < CANONICAL_LENGTH,
    ensures
        rotated_left(p, n).len() == CANONICAL_LENGTH,
        byte_sum(rotated_left(p, n)) == byte_sum(p),
{
    let len = CANONICAL_LENGTH as int;
    assert forall|k: int| 0 <= k < len implies #[trigger] rotated_left(p, n)[k] == (p.subrange(n, len)
        + p.subrange(0, n))[k] by {
        if k + n < len {
            vstd::arithmetic::div_mod::lemma_small_mod((k + n) as nat, len as nat);
        } else {
            vstd::arithmetic::div_mod::lemma_small_mod((k + n - len) as nat, len as nat);
            vstd::arithmetic::div_mod::lemma_mod_add_multiples_vanish(k + n - len, len);
        }
    }
    assert(rotated_left(p, n) =~= p.subrange(n, len) + p.subrange(0, n));
    assert(p =~= p.subrange(0, n) + p.subrange(n, len));
    lemma_byte_sum_concat(p.subrange(n, len), p.subrange(0, n));
    lemma_byte_sum_concat(p.subrange(0, n), p.subrange(n, len));
}

/// Rotating right undoes rotating left by the same amount.
proof fn lemma_rotations_cancel(p: Seq<u8>, n: int)
    requires
        p.len() == CANONICAL_LENGTH,
        0 <= n < CANONICAL_LENGTH,
    ensures
        rotated_right(rotated_left(p, n), n) == p,
{
    let len = CANONICAL_LENGTH as int;
    let r = rotated_left(p, n);
    assert forall|k: int| 0 <= k < len implies #[trigger] rotated_right(r, n)[k] == p[k] by {
        if k >= n {
            vstd::arithmetic::div_mod::lemma_small_mod((k - n) as nat, len as nat);
            vstd::arithmetic::div_mod::lemma_mod_add_multiples_vanish(k - n, len);
            vstd::arithmetic::div_mod::lemma_small_mod(k as nat, len as nat);
        } else {
            vstd::arithmetic::div_mod::lemma_small_mod((k + len - n) as nat, len as nat);
            vstd::arithmetic::div_mod::lemma_small_mod(k as nat, len as nat);
            vstd::arithmetic::div_mod::lemma_mod_add_multiples_vanish(k, len);
        }
    }
    assert(rotated_right(r, n) =~= p);
}

proof fn lemma_nonzero_bytes_of_nonzero(b: Seq<u8>)
    requires
        forall|i: int| 0 <= i < b.len() ==> b[i] != 0,
    ensures
        nonzero_bytes(b) == b,
    decreases b.len(),
{
    reveal_with_fuel(Seq::filter, 2);
    if b.len() > 0 {
        lemma_nonzero_bytes_of_nonzero(b.drop_last());
        assert(b.drop_last().push(b.last()) =~= b);
    }
}

proof fn lemma_nonzero_bytes_of_zeros(z: Seq<u8>)
    requires
        forall|i: int| 0 <= i < z.len() ==> z[i] == 0,
    ensures
        nonzero_bytes(z) == Seq::<u8>::empty(),
    decreases z.len(),
{
    reveal_with_fuel(Seq::filter, 2);
    if z.len() > 0 {
        lemma_nonzero_bytes_of_zeros(z.drop_last());
    } else {
        assert(z =~= Seq::<u8>::empty());
    }
}

/// Dropping the zero bytes of a padded address without zero bytes gives it back.
proof fn lemma_padding_dropped(b: Seq<u8>)
    requires
        b.len() <= CANONICAL_LENGTH,
        forall|i: int| 0 <= i < b.len() ==> b[i] != 0,
    ensures
        nonzero_bytes(padded(b)) == b,
{
    let zeros = Seq::new((CANONICAL_LENGTH - b.len()) as nat, |k: int| 0u8);
    assert(padded(b) =~= b + zeros);
    Seq::filter_distributes_over_add(b, zeros, |x: u8| x != 0);
    lemma_nonzero_bytes_of_nonzero(b);
    lemma_nonzero_bytes_of_zeros(zeros);
    assert(b + Seq::<u8>::empty() =~= b);
}

/// The codec is reversible: decoding the canonical form of a lower-cased address of at
/// most 90 bytes, none of them zero, gives the address back.
pub proof fn lemma_codec_round_trip(lowered: Seq<char>)
    requires
        encode_utf8(lowered).len() <= CANONICAL_LENGTH,
        forall|i: int| 0 <= i < encode_utf8(lowered).len() ==> encode_utf8(lowered)[i] != 0,
    ensures
        human_bytes_of(encoded(lowered)) == encode_utf8(lowered),
        valid_utf8(human_bytes_of(encoded(lowered))),
        decode_utf8(human_bytes_of(encoded(lowered))) == lowered,
{
    let e = encode_utf8(lowered);
    let p = padded(e);
    lemma_byte_sum_nonneg(p);
    let n = byte_sum(p) % (CANONICAL_LENGTH as int);
    let r = rotated_left(p, n);
    lemma_rotation_keeps_sum(p, n);
    lemma_shuffled_add(r, SHUFFLES_ENCODE as nat, SHUFFLES_DECODE as nat);
    lemma_twelve_shuffles(r);
    assert(shuffled(encoded(lowered), SHUFFLES_DECODE as nat) == r);
    lemma_rotations_cancel(p, n);
    lemma_padding_dropped(e);
    vstd::utf8::encode_utf8_valid_utf8(lowered);
    vstd::utf8::encode_utf8_decode_utf8(lowered);
}

} // verus!
