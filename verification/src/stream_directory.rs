//! The layout of an event-system directory and the names that may stand in
//! it.
//!
//! ```text
//! event-system-directory/
//! ├── tmp/              streams still being set up
//! └── event-streams/
//!     └── <stream>/
//!         ├── queue     the sealed shared-memory queue
//!         └── schema    the encoded schema of the stream's events
//! ```
use crate::stream_name::{is_allowed_char, is_valid_stream_name};
use crate::text::{chars_of, find_char, find_from};
use vstd::prelude::*;

verus! {

/// The name of the queue file of a stream.
pub const EVENT_QUEUE_FILE_NAME: &'static str = "queue";

/// The name of the schema file of a stream.
pub const EVENT_SCHEMA_FILE_NAME: &'static str = "schema";

/// The directory in which streams are set up before they are published.
pub const EVENT_STAGING_DIRECTORY_NAME: &'static str = "tmp";

/// The directory that holds the published streams.
pub const EVENT_STREAMS_DIRECTORY_NAME: &'static str = "event-streams";

/// Where the first component of the relative path `name` ends: at its first
/// `/`, or at its end.
pub open spec fn first_component_end(name: Seq<char>) -> int {
    match find_from(name, '/', 0) {
        Some(i) => i,
        None => name.len() as int,
    }
}

/// Whether `rest`, the part of a path after its first component, holds only
/// separators and `.` components, both of which path normalization removes.
pub open spec fn only_separators_and_dots(rest: Seq<char>) -> bool {
    forall|i: int|
        0 <= i < rest.len() ==> #[trigger] rest[i] == '/' || (rest[i] == '.' && i > 0 && rest[i
            - 1] == '/' && (i + 1 == rest.len() || rest[i + 1] == '/'))
}

/// Whether `name`, read as a path, is exactly one normal component: it is
/// not empty, does not start at the root, its first component is neither `.`
/// nor `..`, and nothing but separators and `.` components follows it.
pub open spec fn is_single_normal_component(name: Seq<char>) -> bool {
    let k = first_component_end(name);
    &&& k > 0
    &&& name.take(k) != seq!['.']
    &&& name.take(k) != seq!['.', '.']
    &&& only_separators_and_dots(name.skip(k))
}

/// Whether `name` may name an event stream: its directory is then the entry
/// `name` of the streams directory, and nothing else.
pub fn is_valid_event_stream_name(name: &str) -> (r: bool)
    ensures
        r == is_single_normal_component(name@),
{
    let chars = chars_of(name);
    let n = chars.len();
    let k = match find_char(chars.as_slice(), '/') {
        Some(i) => i,
        None => n,
    };
    assert(k == first_component_end(name@));
    if k == 0 {
        return false;
    }
    if k == 1 && chars[0] == '.' {
        assert(name@.take(1) =~= seq!['.']);
        return false;
    }
    if k == 2 && chars[0] == '.' && chars[1] == '.' {
        assert(name@.take(2) =~= seq!['.', '.']);
        return false;
    }
    proof {
        if name@.take(k as int) =~= seq!['.'] {
            assert(name@.take(k as int)[0] == '.');
        }
        if name@.take(k as int) =~= seq!['.', '.'] {
            assert(name@.take(k as int)[0] == '.');
            assert(name@.take(k as int)[1] == '.');
        }
    }
    let ghost rest = name@.skip(k as int);
    let mut i: usize = k;
    while i < n
        invariant
            k <= i <= n == chars@.len(),
            chars@ == name@,
            rest == name@.skip(k as int),
            k == first_component_end(name@),
            k < n ==> chars@[k as int] == '/',
            forall|j: int|
                0 <= j < i - k ==> #[trigger] rest[j] == '/' || (rest[j] == '.' && j > 0 && rest[j
                    - 1] == '/' && (j + 1 == rest.len() || rest[j + 1] == '/')),
        decreases n - i,
    {
        let c = chars[i];
        let ok = c == '/' || (c == '.' && i > k && chars[i - 1] == '/' && (i + 1 == n || chars[i
            + 1] == '/'));
        proof {
            assert(rest[i - k] == c);
            if i > k {
                assert(rest[i - k - 1] == chars@[i - 1]);
            }
            if i + 1 < n {
                assert(rest[i - k + 1] == chars@[i + 1]);
            }
            if i == k {
                assert(c == '/');
            }
        }
        if !ok {
            return false;
        }
        i = i + 1;
    }
    true
}

proof fn lemma_find_absent(s: Seq<char>, c: char, i: int)
    requires
        0 <= i,
        forall|j: int| i <= j < s.len() ==> s[j] != c,
    ensures
        find_from(s, c, i) is None,
    decreases s.len() - i,
{
    if i < s.len() {
        lemma_find_absent(s, c, i + 1);
    }
}

/// Every valid stream name is a single normal path component, so the
/// directory of a stream is always an entry of the streams directory and
/// never reaches outside it.
pub proof fn lemma_stream_name_is_single_component(name: Seq<char>)
    requires
        is_valid_stream_name(name),
    ensures
        is_single_normal_component(name),
{
    assert forall|j: int| 0 <= j < name.len() implies name[j] != '/' by {
        assert(is_allowed_char(name[j]));
    }
    lemma_find_absent(name, '/', 0);
    assert(name.take(name.len() as int) =~= name);
    assert(name.skip(name.len() as int).len() == 0);
}

} // verus!
