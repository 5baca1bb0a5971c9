//! Validated names of event streams.
use crate::text::chars_of;
use vstd::prelude::*;

verus! {

/// Whether `c` is one of the punctuation characters a stream name may hold.
pub open spec fn is_special_char(c: char) -> bool {
    c == '.' || c == '-' || c == ':' || c == '_'
}

/// Whether `c` is an ASCII letter or digit.
pub open spec fn is_ascii_alphanumeric_char(c: char) -> bool {
    ('0' <= c && c <= '9') || ('a' <= c && c <= 'z') || ('A' <= c && c <= 'Z')
}

/// Whether `c` may appear in a stream name.
pub open spec fn is_allowed_char(c: char) -> bool {
    is_ascii_alphanumeric_char(c) || is_special_char(c)
}

/// Whether `s` is one of the reserved directory names `.` and `..`.
pub open spec fn is_reserved_name(s: Seq<char>) -> bool {
    s =~= seq!['.'] || s =~= seq!['.', '.']
}

/// The outcome of validating the characters `s` as a stream name.
pub open spec fn stream_name_check(s: Seq<char>) -> Result<(), StreamNameValidationError> {
    if s.len() == 0 {
        Err(StreamNameValidationError::Empty)
    } else if is_reserved_name(s) {
        Err(StreamNameValidationError::ReservedDirectoryName)
    } else if exists|i: int| 0 <= i < s.len() && !is_allowed_char(#[trigger] s[i]) {
        Err(StreamNameValidationError::InvalidCharacter)
    } else {
        Ok(())
    }
}

/// Whether `s` is a valid stream name.
pub open spec fn is_valid_stream_name(s: Seq<char>) -> bool {
    stream_name_check(s) is Ok
}

/// Why a candidate stream name was refused.
#[derive(Debug, Clone, Copy, PartialEq, Eq)]
pub enum StreamNameValidationError {
    /// The name is empty.
    Empty,
    /// The name is `.` or `..`.
    ReservedDirectoryName,
    /// The name holds a character other than an ASCII letter, an ASCII digit,
    /// `.`, `-`, `:` or `_`.
    InvalidCharacter,
}

impl StreamNameValidationError {
    /// The human-readable description of the error.
    pub fn message(&self) -> (r: &'static str)
        ensures
            r@ == (match self {
                StreamNameValidationError::Empty => "stream name must not be empty"@,
                StreamNameValidationError::ReservedDirectoryName => "stream name must not be `.` or `..`"@,
                StreamNameValidationError::InvalidCharacter =>
                    "validation of stream name failed due to a disallowed character in the name."@,
            }),
    {
        match self {
            StreamNameValidationError::Empty => "stream name must not be empty",
            StreamNameValidationError::ReservedDirectoryName => "stream name must not be `.` or `..`",
            StreamNameValidationError::InvalidCharacter =>
                "validation of stream name failed due to a disallowed character in the name.",
        }
    }
}

/// A validated stream name.
///
/// A stream name is non-empty, holds only ASCII letters, ASCII digits and the
/// characters `-`, `.`, `:`, `_`, and is neither `.` nor `..`.
#[derive(Debug, Clone, PartialEq, Eq)]
pub struct StreamName {
    name: String,
}

impl View for StreamName {
    type V = Seq<char>;

    closed spec fn view(&self) -> Seq<char> {
        self.name@
    }
}

impl StreamName {
    /// Every stream name holds a valid name.
    pub closed spec fn wf(&self) -> bool {
        is_valid_stream_name(self.name@)
    }

    /// Creates a stream name if `name` passes validation, and otherwise
    /// reports the first rule that it breaks.
    pub fn try_new(name: &str) -> (r: Result<StreamName, StreamNameValidationError>)
        ensures
            match r {
                Ok(n) => n@ == name@ && n.wf() && stream_name_check(name@) is Ok,
                Err(e) => stream_name_check(name@) == Err::<(), StreamNameValidationError>(e),
            },
    {
        validate_stream_name(name)?;
        Ok(StreamName { name: name.to_owned() })
    }

    /// Returns the stream name as a string slice.
    pub fn as_str(&self) -> (r: &str)
        ensures
            r@ == self@,
    {
        self.name.as_str()
    }

    /// Validity of a stream name follows from its being a stream name.
    pub proof fn lemma_valid(&self)
        requires
            self.wf(),
        ensures
            is_valid_stream_name(self@),
    {
    }
}

/// `stream_name` gives what `StreamName::try_new` gives: given what the two
/// return for the same text `name` (`made` from `stream_name`, `checked` from
/// `try_new`), `try_new` succeeds exactly on the names that `stream_name`
/// accepts, and then both stream names hold the text `name`.
pub proof fn lemma_stream_name_agrees_with_try_new(
    name: Seq<char>,
    made: StreamName,
    checked: Result<StreamName, StreamNameValidationError>,
)
    requires
        is_valid_stream_name(name),
        made@ == name,
        match checked {
            Ok(n) => n@ == name && n.wf() && stream_name_check(name) is Ok,
            Err(e) => stream_name_check(name) == Err::<(), StreamNameValidationError>(e),
        },
    ensures
        checked matches Ok(n) && n@ == made@ && n@ == name,
{
}

/// Creates a stream name from a name that is known to be valid.
pub fn stream_name(name: &'static str) -> (r: StreamName)
    requires
        is_valid_stream_name(name@),
    ensures
        r@ == name@,
        r.wf(),
{
    StreamName { name: name.to_owned() }
}

/// Whether `byte` is one of the punctuation characters `.`, `-`, `:`, `_`.
pub fn is_valid_special_character(c: char) -> (r: bool)
    ensures
        r == is_special_char(c),
{
    c == '.' || c == '-' || c == ':' || c == '_'
}

/// Checks the characters of `stream_name` against the stream-name rules.
pub fn validate_stream_name(stream_name: &str) -> (r: Result<(), StreamNameValidationError>)
    ensures
        r == stream_name_check(stream_name@),
{
    let chars = chars_of(stream_name);
    let n = chars.len();
    if n == 0 {
        return Err(StreamNameValidationError::Empty);
    }
    if (n == 1 && chars[0] == '.') || (n == 2 && chars[0] == '.' && chars[1] == '.') {
        assert(is_reserved_name(chars@));
        return Err(StreamNameValidationError::ReservedDirectoryName);
    }
    assert(!is_reserved_name(chars@)) by {
        if chars@ =~= seq!['.'] {
            assert(chars@[0] == '.');
        }
        if chars@ =~= seq!['.', '.'] {
            assert(chars@[0] == '.' && chars@[1] == '.');
        }
    }
    let mut i: usize = 0;
    while i < n
        invariant
            n == chars@.len(),
            chars@ == stream_name@,
            n > 0,
            !is_reserved_name(chars@),
            0 <= i <= n,
            forall|j: int| 0 <= j < i ==> is_allowed_char(#[trigger] chars@[j]),
        decreases n - i,
    {
        let c = chars[i];
        let alnum = ('0' <= c && c <= '9') || ('a' <= c && c <= 'z') || ('A' <= c && c <= 'Z');
        if !(alnum || is_valid_special_character(c)) {
            assert(!is_allowed_char(chars@[i as int]));
            return Err(StreamNameValidationError::InvalidCharacter);
        }
        i = i + 1;
    }
    Ok(())
}

} // verus!
