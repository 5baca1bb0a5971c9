//! Checks on the queue file that an event stream publishes: its name, which
//! carries the queue identifier, and its seals against resizing.
use crate::text::{chars_is_prefix, chars_of, is_prefix, string_from_chars};
use vstd::prelude::*;

verus! {

/// The name of a published queue file is this prefix followed by the queue
/// identifier in decimal.
pub const QUEUE_FILE_NAME_PREFIX: &'static str = "queue-";

/// `libc::F_SEAL_SEAL`, the seal that forbids further seals, which libc
/// defines as 1 (Linux and the other systems that have it).
#[verifier::external_body]
fn seal_seal() -> (r: i32)
    ensures
        r == 1,
{
    libc::F_SEAL_SEAL
}

/// `libc::F_SEAL_SHRINK`, the seal that forbids shrinking the file, which
/// libc defines as 2.
#[verifier::external_body]
fn seal_shrink() -> (r: i32)
    ensures
        r == 2,
{
    libc::F_SEAL_SHRINK
}

/// `libc::F_SEAL_GROW`, the seal that forbids growing the file, which libc
/// defines as 4.
#[verifier::external_body]
fn seal_grow() -> (r: i32)
    ensures
        r == 4,
{
    libc::F_SEAL_GROW
}

/// The seals that a queue file must carry so that it cannot be resized:
/// shrink, grow and seal, together.
pub open spec fn required_seal_mask() -> i32 {
    7
}

/// The seals that a queue file must carry so that it cannot be resized:
/// `F_SEAL_SHRINK | F_SEAL_GROW | F_SEAL_SEAL`.
pub fn required_seals() -> (r: i32)
    ensures
        r == required_seal_mask(),
{
    let shrink = seal_shrink();
    let grow = seal_grow();
    let seal = seal_seal();
    assert(2i32 | 4i32 | 1i32 == 7i32) by (bit_vector);
    shrink | grow | seal
}

/// The value of an ASCII decimal digit.
pub open spec fn digit_value(c: char) -> int {
    (c as u32) - ('0' as u32)
}

/// Whether `c` is an ASCII decimal digit.
pub open spec fn is_digit(c: char) -> bool {
    '0' <= c && c <= '9'
}

/// The number that the decimal digits `s` write.
pub open spec fn decimal_value(s: Seq<char>) -> int
    decreases s.len(),
{
    if s.len() == 0 {
        0
    } else {
        10 * decimal_value(s.drop_last()) + digit_value(s.last())
    }
}

/// `s` without a leading `+`.
pub open spec fn unsigned_digits(s: Seq<char>) -> Seq<char> {
    if s.len() > 0 && s[0] == '+' {
        s.drop_first()
    } else {
        s
    }
}

/// Whether every character of `s` is a decimal digit.
pub open spec fn all_digits(s: Seq<char>) -> bool {
    forall|i: int| 0 <= i < s.len() ==> is_digit(#[trigger] s[i])
}

/// The `u64` that `s` writes, as `u64::from_str` reads it: an optional `+`
/// followed by at least one decimal digit and nothing else, with a value of
/// at most `u64::MAX`.
pub open spec fn parse_u64(s: Seq<char>) -> Option<u64> {
    let digits = unsigned_digits(s);
    if digits.len() > 0 && all_digits(digits) && decimal_value(digits) <= u64::MAX {
        Some(decimal_value(digits) as u64)
    } else {
        None
    }
}

/// The queue identifier that a queue file named `name` carries.
pub open spec fn queue_identifier_of(name: Seq<char>) -> Option<u64> {
    let prefix = seq!['q', 'u', 'e', 'u', 'e', '-'];
    if is_prefix(prefix, name) {
        parse_u64(name.skip(6))
    } else {
        None
    }
}

/// The character of the decimal digit `d`.
pub open spec fn digit_char(d: nat) -> char {
    ((d + 48) as u32) as char
}

/// The decimal digits of `n`, most significant first, with no leading zero.
pub open spec fn decimal_digits(n: nat) -> Seq<char>
    decreases n,
{
    if n < 10 {
        seq![digit_char(n)]
    } else {
        decimal_digits(n / 10).push(digit_char(n % 10))
    }
}

/// The name of the queue file of the queue `queue_identifier`.
pub open spec fn queue_file_name_of(queue_identifier: u64) -> Seq<char> {
    seq!['q', 'u', 'e', 'u', 'e', '-'] + decimal_digits(queue_identifier as nat)
}

/// The decimal digits of `n` are digits, at least one, and write `n`.
pub proof fn lemma_decimal_digits(n: nat)
    ensures
        decimal_digits(n).len() > 0,
        all_digits(decimal_digits(n)),
        decimal_value(decimal_digits(n)) == n,
    decreases n,
{
    let d = n % 10;
    assert(digit_char(d) as u32 == d + 48);
    assert(digit_value(digit_char(d)) == d);
    if n >= 10 {
        lemma_decimal_digits(n / 10);
        let s = decimal_digits(n / 10);
        assert(s.push(digit_char(d)).drop_last() =~= s);
        assert(decimal_value(decimal_digits(n)) == 10 * decimal_value(s) + digit_value(digit_char(d)));
        assert(10 * (n / 10) + n % 10 == n);
    } else {
        assert(decimal_digits(n).drop_last() =~= Seq::<char>::empty());
        assert(decimal_value(Seq::<char>::empty()) == 0);
        assert(n % 10 == n);
    }
}

/// A queue file name carries back the identifier that it was made from.
pub proof fn lemma_queue_file_name_round_trip(queue_identifier: u64)
    ensures
        queue_identifier_of(queue_file_name_of(queue_identifier)) == Some(queue_identifier),
{
    let digits = decimal_digits(queue_identifier as nat);
    let name = queue_file_name_of(queue_identifier);
    lemma_decimal_digits(queue_identifier as nat);
    assert(name.take(6) =~= seq!['q', 'u', 'e', 'u', 'e', '-']);
    assert(name.skip(6) =~= digits);
    assert(is_digit(digits[0]));
    assert(unsigned_digits(digits) == digits);
}

/// Appends the decimal digits of `n` to `out`.
fn push_decimal(out: &mut Vec<char>, n: u64)
    ensures
        final(out)@ == old(out)@ + decimal_digits(n as nat),
    decreases n,
{
    if n >= 10 {
        push_decimal(out, n / 10);
    }
    let d = (n % 10) as u8;
    let c = (48u8 + d) as char;
    proof {
        assert(c == digit_char((n % 10) as nat));
    }
    out.push(c);
    proof {
        if n >= 10 {
            assert(old(out)@ + decimal_digits(n as nat) =~= old(out)@ + decimal_digits((n / 10) as nat) + seq![c]);
        } else {
            assert(old(out)@ + decimal_digits(n as nat) =~= old(out)@ + seq![c]);
        }
    }
}

/// The name of the file that publishes the queue `queue_identifier`: the
/// prefix `queue-` followed by the identifier in decimal.
pub fn queue_file_name(queue_identifier: u64) -> (r: String)
    ensures
        r@ == queue_file_name_of(queue_identifier),
{
    let mut chars: Vec<char> = vec!['q', 'u', 'e', 'u', 'e', '-'];
    push_decimal(&mut chars, queue_identifier);
    string_from_chars(chars.as_slice())
}

/// Why a published queue was refused.
#[derive(Debug, Clone, Copy, PartialEq, Eq, Structural)]
pub enum QueueCheckError {
    /// The file name does not carry a valid `u64` identifier.
    InvalidQueueIdentifier,
    /// The file is not sealed against resizing.
    QueueIsNotSealed,
    /// The queue holds another identifier than its file name says.
    QueueIdentifierMismatch { expected: u64, actual: u64 },
}

proof fn lemma_decimal_value_nonneg(s: Seq<char>)
    requires
        forall|i: int| 0 <= i < s.len() ==> is_digit(#[trigger] s[i]),
    ensures
        decimal_value(s) >= 0,
    decreases s.len(),
{
    if s.len() > 0 {
        lemma_decimal_value_nonneg(s.drop_last());
    }
}

proof fn lemma_decimal_value_grows(s: Seq<char>, k: int)
    requires
        0 <= k <= s.len(),
        forall|i: int| 0 <= i < s.len() ==> is_digit(#[trigger] s[i]),
    ensures
        decimal_value(s.take(k)) <= decimal_value(s),
    decreases s.len() - k,
{
    if k < s.len() {
        assert(s.take(k + 1).drop_last() =~= s.take(k));
        lemma_decimal_value_nonneg(s.take(k));
        assert(s.take(k + 1).last() == s[k]);
        lemma_decimal_value_grows(s, k + 1);
    } else {
        assert(s.take(k) =~= s);
    }
}

/// Reads a `u64` written in decimal, as `u64::from_str` does.
pub fn parse_u64_decimal(s: &[char]) -> (r: Option<u64>)
    ensures
        r == parse_u64(s@),
{
    let n = s.len();
    let start: usize = if n > 0 && s[0] == '+' {
        1
    } else {
        0
    };
    let ghost digits = unsigned_digits(s@);
    proof {
        assert(digits =~= s@.skip(start as int));
    }
    if start == n {
        return None;
    }
    let mut acc: u64 = 0;
    let mut i: usize = start;
    while i < n
        invariant
            start <= i <= n == s@.len(),
            start < n,
            digits =~= s@.skip(start as int),
            digits == unsigned_digits(s@),
            forall|k: int| start <= k < i ==> is_digit(#[trigger] s@[k]),
            acc == decimal_value(s@.subrange(start as int, i as int)),
        decreases n - i,
    {
        let c = s[i];
        if !('0' <= c && c <= '9') {
            proof {
                assert(digits[i - start] == s@[i as int]);
                assert(!is_digit(digits[i - start]));
                assert(!all_digits(digits));
            }
            return None;
        }
        let d = (c as u32 - '0' as u32) as u64;
        proof {
            assert(s@.subrange(start as int, i + 1).drop_last() =~= s@.subrange(start as int, i as int));
            assert(s@.subrange(start as int, i + 1).last() == c);
        }
        if acc > (u64::MAX - d) / 10 {
            proof {
                assert(10 * acc + d > u64::MAX) by (nonlinear_arith)
                    requires
                        acc > (u64::MAX - d) / 10,
                        d <= 9,
                ;
                // The digits that follow only make the value larger.
                if all_digits(digits) {
                    assert(digits.take(i + 1 - start) =~= s@.subrange(start as int, i + 1));
                    lemma_decimal_value_grows(digits, i + 1 - start);
                }
            }
            return None;
        }
        acc = 10 * acc + d;
        i = i + 1;
    }
    proof {
        assert(s@.subrange(start as int, n as int) =~= digits);
    }
    Some(acc)
}

/// The queue identifier that the queue file name `name` carries: the
/// decimal `u64` after the prefix `queue-`.
pub fn queue_identifier_from_file_name(name: &str) -> (r: Option<u64>)
    ensures
        r == queue_identifier_of(name@),
{
    let chars = chars_of(name);
    let prefix: [char; 6] = ['q', 'u', 'e', 'u', 'e', '-'];
    assert(prefix@ =~= seq!['q', 'u', 'e', 'u', 'e', '-']);
    if chars.len() < 6 {
        return None;
    }
    let mut i: usize = 0;
    while i < 6
        invariant
            0 <= i <= 6,
            chars@.len() >= 6,
            chars@ == name@,
            prefix@ =~= seq!['q', 'u', 'e', 'u', 'e', '-'],
            forall|k: int| 0 <= k < i ==> chars@[k] == prefix@[k],
        decreases 6 - i,
    {
        if chars[i] != prefix[i] {
            proof {
                assert(chars@.take(6)[i as int] == chars@[i as int]);
                assert(!(chars@.take(6) =~= seq!['q', 'u', 'e', 'u', 'e', '-']));
            }
            return None;
        }
        i = i + 1;
    }
    proof {
        assert(chars@.take(6) =~= seq!['q', 'u', 'e', 'u', 'e', '-']);
    }
    let rest = crate::text::copy_range(chars.as_slice(), 6, chars.len());
    proof {
        assert(rest@ =~= chars@.skip(6));
    }
    parse_u64_decimal(rest.as_slice())
}

/// Whether `name` names a queue file: it starts with `queue-`.
pub open spec fn is_queue_file_name(name: Seq<char>) -> bool {
    is_prefix(seq!['q', 'u', 'e', 'u', 'e', '-'], name)
}

/// The first of the entries `names` of a stream directory that names a queue
/// file; `None` when none does, and the queue was not published.
pub fn first_queue_file(names: &[String]) -> (r: Option<usize>)
    ensures
        match r {
            Some(i) => i < names@.len() && is_queue_file_name(names@[i as int]@) && forall|j: int|
                0 <= j < i ==> !is_queue_file_name(#[trigger] names@[j]@),
            None => forall|j: int| 0 <= j < names@.len() ==> !is_queue_file_name(#[trigger] names@[j]@),
        },
{
    let prefix: [char; 6] = ['q', 'u', 'e', 'u', 'e', '-'];
    assert(prefix@ =~= seq!['q', 'u', 'e', 'u', 'e', '-']);
    let mut i: usize = 0;
    while i < names.len()
        invariant
            0 <= i <= names@.len(),
            prefix@ =~= seq!['q', 'u', 'e', 'u', 'e', '-'],
            forall|j: int| 0 <= j < i ==> !is_queue_file_name(#[trigger] names@[j]@),
        decreases names@.len() - i,
    {
        let chars = chars_of(names[i].as_str());
        if chars_is_prefix(&prefix, chars.as_slice()) {
            return Some(i);
        }
        i = i + 1;
    }
    None
}

/// Why the seals of a queue file were refused.
#[derive(Debug, Clone, Copy, PartialEq, Eq, Structural)]
pub enum SealCheckError {
    /// The seals could not be read (the query gave -1).
    QueryFailed,
    /// Some required seal is missing, so the file could be resized.
    NotSealed,
}

/// Checks the seals that a query on a queue file gave: the query must have
/// succeeded and every required seal must be present.
pub fn verify_seals(seals: i32) -> (r: Result<(), SealCheckError>)
    ensures
        r == (if seals == -1 {
            Err(SealCheckError::QueryFailed)
        } else if seals & required_seal_mask() != required_seal_mask() {
            Err(SealCheckError::NotSealed)
        } else {
            Ok(())
        }),
{
    if seals == -1 {
        return Err(SealCheckError::QueryFailed);
    }
    let required = required_seals();
    if seals & required != required {
        return Err(SealCheckError::NotSealed);
    }
    Ok(())
}

/// Checks a published queue: its file name must carry a valid identifier,
/// the file must carry every required seal (a failed seal query reads as
/// -1), and the queue must hold the identifier that the file name says.
pub fn check_published_queue(file_name: &str, seals: i32, actual_identifier: u64) -> (r: Result<
    u64,
    QueueCheckError,
>)
    ensures
        match queue_identifier_of(file_name@) {
            None => r == Err::<u64, QueueCheckError>(QueueCheckError::InvalidQueueIdentifier),
            Some(expected) => if seals == -1 || seals & required_seal_mask() != required_seal_mask() {
                r == Err::<u64, QueueCheckError>(QueueCheckError::QueueIsNotSealed)
            } else if expected != actual_identifier {
                r == Err::<u64, QueueCheckError>(
                    QueueCheckError::QueueIdentifierMismatch { expected, actual: actual_identifier },
                )
            } else {
                r == Ok::<u64, QueueCheckError>(expected)
            },
        },
{
    let expected = match queue_identifier_from_file_name(file_name) {
        Some(id) => id,
        None => return Err(QueueCheckError::InvalidQueueIdentifier),
    };
    let required = required_seals();
    if seals == -1 || seals & required != required {
        return Err(QueueCheckError::QueueIsNotSealed);
    }
    if expected != actual_identifier {
        return Err(QueueCheckError::QueueIdentifierMismatch { expected, actual: actual_identifier });
    }
    Ok(expected)
}

} // verus!
