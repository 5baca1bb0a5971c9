//! Character-level text operations over `&str` and character sequences,
//! with their meaning stated over `Seq<char>`.
use vstd::prelude::*;

verus! {

/// Whether `c` has the Unicode `White_Space` property, as `char::is_whitespace`
/// tests it.
pub open spec fn is_ws(c: char) -> bool {
    let u = c as u32;
    (0x9 <= u && u <= 0xD) || u == 0x20 || u == 0x85 || u == 0xA0 || u == 0x1680 || (0x2000 <= u
        && u <= 0x200A) || u == 0x2028 || u == 0x2029 || u == 0x202F || u == 0x205F || u == 0x3000
}

/// The index of the first character of `s` at or after `i` that is not
/// whitespace, or `s.len()`.
pub open spec fn leading_ws_end(s: Seq<char>, i: int) -> int
    decreases s.len() - i,
{
    if 0 <= i < s.len() && is_ws(s[i]) {
        leading_ws_end(s, i + 1)
    } else {
        i
    }
}

/// The index just past the last character of `s` before `j` and at or after
/// `lo` that is not whitespace, or `lo`.
pub open spec fn trailing_ws_start(s: Seq<char>, lo: int, j: int) -> int
    decreases j - lo,
{
    if lo < j && is_ws(s[j - 1]) {
        trailing_ws_start(s, lo, j - 1)
    } else {
        j
    }
}

/// `s` without leading and trailing whitespace, as `str::trim` gives it.
pub open spec fn trim(s: Seq<char>) -> Seq<char> {
    let a = leading_ws_end(s, 0);
    s.subrange(a, trailing_ws_start(s, a, s.len() as int))
}

/// The pieces of `s` between the occurrences of `sep`, in order, as
/// `str::split` gives them: one more piece than there are separators.
pub open spec fn split(s: Seq<char>, sep: char) -> Seq<Seq<char>>
    decreases s.len(),
{
    if s.len() == 0 {
        seq![Seq::<char>::empty()]
    } else {
        let parts = split(s.drop_last(), sep);
        if s.last() == sep {
            parts.push(Seq::<char>::empty())
        } else {
            parts.update(parts.len() - 1, parts.last().push(s.last()))
        }
    }
}

/// The index of the first `c` in `s` at or after `i`, if any.
pub open spec fn find_from(s: Seq<char>, c: char, i: int) -> Option<int>
    decreases s.len() - i,
{
    if i < 0 || i >= s.len() {
        None
    } else if s[i] == c {
        Some(i)
    } else {
        find_from(s, c, i + 1)
    }
}

/// The code point of the ASCII lowercase of `c`; other characters keep
/// their own code point.
pub open spec fn ascii_lower(c: char) -> u32 {
    if 'A' <= c && c <= 'Z' {
        ((c as u32) + 32) as u32
    } else {
        c as u32
    }
}

/// Whether `s` and `t` are equal when ASCII letters are compared without
/// regard to case, as `str::eq_ignore_ascii_case` tests it.
pub open spec fn eq_ignore_ascii_case(s: Seq<char>, t: Seq<char>) -> bool {
    s.len() == t.len() && forall|i: int| 0 <= i < s.len() ==> ascii_lower(s[i]) == ascii_lower(t[i])
}

/// The number of bytes that `c` takes in UTF-8.
pub open spec fn utf8_width(c: char) -> int {
    let u = c as u32;
    if u < 0x80 {
        1
    } else if u < 0x800 {
        2
    } else if u < 0x10000 {
        3
    } else {
        4
    }
}

/// The number of bytes that `s` takes in UTF-8, as `str::len` gives it.
pub open spec fn utf8_len(s: Seq<char>) -> int
    decreases s.len(),
{
    if s.len() == 0 {
        0
    } else {
        utf8_len(s.drop_last()) + utf8_width(s.last())
    }
}

/// Whether `a` comes strictly before `b` in lexicographic order of code
/// points (the order of `str`'s `Ord`, which compares UTF-8 bytes).
pub open spec fn lex_lt(a: Seq<char>, b: Seq<char>) -> bool {
    exists|k: int|
        0 <= k <= a.len() && k <= b.len() && a.take(k) =~= b.take(k) && ((k == a.len() && k
            < b.len()) || (k < a.len() && k < b.len() && a[k] < b[k]))
}

/// Whether `p` is a prefix of `s`.
pub open spec fn is_prefix(p: Seq<char>, s: Seq<char>) -> bool {
    p.len() <= s.len() && s.take(p.len() as int) =~= p
}

/// `utf8_len` is never negative and at least the number of characters.
pub proof fn lemma_utf8_len_bounds(s: Seq<char>)
    ensures
        s.len() <= utf8_len(s) <= 4 * s.len(),
    decreases s.len(),
{
    if s.len() > 0 {
        lemma_utf8_len_bounds(s.drop_last());
    }
}

/// A proper prefix takes fewer bytes than the whole.
pub proof fn lemma_utf8_len_prefix(s: Seq<char>, k: int)
    requires
        0 <= k < s.len(),
    ensures
        utf8_len(s.take(k)) < utf8_len(s),
    decreases s.len(),
{
    if k == s.len() - 1 {
        assert(s.take(k) =~= s.drop_last());
    } else {
        lemma_utf8_len_prefix(s.drop_last(), k);
        assert(s.drop_last().take(k) =~= s.take(k));
    }
}

proof fn lemma_leading_ws_end(s: Seq<char>, i: int)
    requires
        0 <= i <= s.len(),
    ensures
        i <= leading_ws_end(s, i) <= s.len(),
        leading_ws_end(s, i) < s.len() ==> !is_ws(s[leading_ws_end(s, i)]),
    decreases s.len() - i,
{
    if i < s.len() && is_ws(s[i]) {
        lemma_leading_ws_end(s, i + 1);
    }
}

proof fn lemma_trailing_ws_start(s: Seq<char>, lo: int, j: int)
    requires
        0 <= lo <= j <= s.len(),
    ensures
        lo <= trailing_ws_start(s, lo, j) <= j,
        trailing_ws_start(s, lo, j) > lo ==> !is_ws(s[trailing_ws_start(s, lo, j) - 1]),
    decreases j - lo,
{
    if lo < j && is_ws(s[j - 1]) {
        lemma_trailing_ws_start(s, lo, j - 1);
    }
}

/// Trimming is idempotent: what `trim` gives has no surrounding whitespace
/// left, so trimming it again changes nothing.
pub proof fn lemma_trim_idempotent(s: Seq<char>)
    ensures
        trim(trim(s)) == trim(s),
{
    let a = leading_ws_end(s, 0);
    lemma_leading_ws_end(s, 0);
    let b = trailing_ws_start(s, a, s.len() as int);
    lemma_trailing_ws_start(s, a, s.len() as int);
    let t = trim(s);
    assert(t.len() == b - a);
    if t.len() > 0 {
        assert(t[0] == s[a]);
        assert(t[t.len() - 1] == s[b - 1]);
    }
    assert(leading_ws_end(t, 0) == 0);
    assert(trailing_ws_start(t, 0, t.len() as int) == t.len());
    assert(t.subrange(0, t.len() as int) =~= t);
}

/// Returns the characters of `s`, in order.
pub fn chars_of(s: &str) -> (r: Vec<char>)
    ensures
        r@ == s@,
{
    broadcast use vstd::string::group_string_axioms;

    let mut out: Vec<char> = Vec::new();
    let mut chars_it = s.chars();
    for c in it: chars_it
        invariant
            out@ == it.seq().take(it.index() as int),
    {
        out.push(c);
    }
    out
}

/// Whether `c` is whitespace.
pub fn is_whitespace(c: char) -> (r: bool)
    ensures
        r == is_ws(c),
{
    let u = c as u32;
    (0x9 <= u && u <= 0xD) || u == 0x20 || u == 0x85 || u == 0xA0 || u == 0x1680 || (0x2000 <= u
        && u <= 0x200A) || u == 0x2028 || u == 0x2029 || u == 0x202F || u == 0x205F || u == 0x3000
}

/// Copies the characters of `s` from `a` up to `b`.
pub fn copy_range(s: &[char], a: usize, b: usize) -> (r: Vec<char>)
    requires
        a <= b <= s@.len(),
    ensures
        r@ == s@.subrange(a as int, b as int),
{
    let mut out: Vec<char> = Vec::new();
    let mut i = a;
    while i < b
        invariant
            a <= i <= b <= s@.len(),
            out@ == s@.subrange(a as int, i as int),
        decreases b - i,
    {
        out.push(s[i]);
        i = i + 1;
    }
    out
}

/// `s` without leading and trailing whitespace.
pub fn trim_chars(s: &[char]) -> (r: Vec<char>)
    ensures
        r@ == trim(s@),
{
    let n = s.len();
    let mut a: usize = 0;
    while a < n && is_whitespace(s[a])
        invariant
            0 <= a <= n == s@.len(),
            leading_ws_end(s@, 0) == leading_ws_end(s@, a as int),
        decreases n - a,
    {
        a = a + 1;
    }
    let mut b: usize = n;
    while b > a && is_whitespace(s[b - 1])
        invariant
            a <= b <= n == s@.len(),
            leading_ws_end(s@, 0) == a,
            trailing_ws_start(s@, a as int, n as int) == trailing_ws_start(s@, a as int, b as int),
        decreases b - a,
    {
        b = b - 1;
    }
    copy_range(s, a, b)
}

/// The pieces of `s` between the occurrences of `sep`.
pub fn split_chars(s: &[char], sep: char) -> (r: Vec<Vec<char>>)
    ensures
        r@.len() == split(s@, sep).len(),
        forall|i: int| 0 <= i < r@.len() ==> #[trigger] r@[i]@ == split(s@, sep)[i],
{
    let mut parts: Vec<Vec<char>> = Vec::new();
    let mut current: Vec<char> = Vec::new();
    let n = s.len();
    let mut i: usize = 0;
    while i < n
        invariant
            0 <= i <= n == s@.len(),
            parts@.len() + 1 == split(s@.take(i as int), sep).len(),
            forall|k: int|
                0 <= k < parts@.len() ==> #[trigger] parts@[k]@ == split(s@.take(i as int), sep)[k],
            current@ == split(s@.take(i as int), sep).last(),
        decreases n - i,
    {
        proof {
            assert(s@.take(i + 1).drop_last() =~= s@.take(i as int));
            assert(s@.take(i + 1).last() == s@[i as int]);
        }
        if s[i] == sep {
            parts.push(current);
            current = Vec::new();
        } else {
            current.push(s[i]);
        }
        i = i + 1;
    }
    proof {
        assert(s@.take(n as int) =~= s@);
    }
    parts.push(current);
    parts
}

/// The index of the first `c` in `s`, if any.
pub fn find_char(s: &[char], c: char) -> (r: Option<usize>)
    ensures
        match r {
            Some(i) => find_from(s@, c, 0) == Some(i as int) && i < s@.len() && s@[i as int] == c,
            None => find_from(s@, c, 0) is None,
        },
{
    let n = s.len();
    let mut i: usize = 0;
    while i < n
        invariant
            0 <= i <= n == s@.len(),
            find_from(s@, c, 0) == find_from(s@, c, i as int),
        decreases n - i,
    {
        if s[i] == c {
            return Some(i);
        }
        i = i + 1;
    }
    None
}

/// The code point of the ASCII lowercase of `c`.
pub fn to_ascii_lower(c: char) -> (r: u32)
    ensures
        r == ascii_lower(c),
{
    if 'A' <= c && c <= 'Z' {
        (c as u32) + 32
    } else {
        c as u32
    }
}

/// Whether `s` equals `t` when ASCII letters are compared without regard to
/// case.
pub fn chars_eq_ignore_ascii_case(s: &[char], t: &[char]) -> (r: bool)
    ensures
        r == eq_ignore_ascii_case(s@, t@),
{
    if s.len() != t.len() {
        return false;
    }
    let n = s.len();
    let mut i: usize = 0;
    while i < n
        invariant
            0 <= i <= n == s@.len() == t@.len(),
            forall|k: int| 0 <= k < i ==> ascii_lower(s@[k]) == ascii_lower(t@[k]),
        decreases n - i,
    {
        if to_ascii_lower(s[i]) != to_ascii_lower(t[i]) {
            return false;
        }
        i = i + 1;
    }
    true
}

/// The number of bytes that `s` takes in UTF-8.
pub fn chars_utf8_len(s: &[char]) -> (r: u128)
    ensures
        r == utf8_len(s@),
{
    let n = s.len();
    let mut total: u128 = 0;
    let mut i: usize = 0;
    while i < n
        invariant
            0 <= i <= n == s@.len() <= usize::MAX,
            total == utf8_len(s@.take(i as int)),
        decreases n - i,
    {
        proof {
            assert(s@.take(i + 1).drop_last() =~= s@.take(i as int));
            lemma_utf8_len_bounds(s@.take(i as int));
        }
        let u = s[i] as u32;
        let w: u128 = if u < 0x80 {
            1
        } else if u < 0x800 {
            2
        } else if u < 0x10000 {
            3
        } else {
            4
        };
        total = total + w;
        i = i + 1;
    }
    proof {
        assert(s@.take(n as int) =~= s@);
    }
    total
}

/// Whether `a` comes strictly before `b` in lexicographic order of code points.
pub fn chars_lex_lt(a: &[char], b: &[char]) -> (r: bool)
    ensures
        r == lex_lt(a@, b@),
{
    let n = if a.len() < b.len() {
        a.len()
    } else {
        b.len()
    };
    let mut k: usize = 0;
    while k < n
        invariant
            0 <= k <= n,
            n <= a@.len(),
            n <= b@.len(),
            n == a@.len() || n == b@.len(),
            a@.take(k as int) =~= b@.take(k as int),
        decreases n - k,
    {
        if a[k] != b[k] {
            let lt = a[k] < b[k];
            proof {
                if lt {
                    assert(lex_lt(a@, b@));
                } else {
                    assert forall|j: int|
                        0 <= j <= a@.len() && j <= b@.len() && a@.take(j) =~= b@.take(j) implies !((j
                            == a@.len() && j < b@.len()) || (j < a@.len() && j < b@.len() && a@[j] < b@[j])) by {
                        if j > k {
                            assert(a@.take(j)[k as int] == b@.take(j)[k as int]);
                        }
                        if j < k {
                            assert(a@.take(k as int)[j] == b@.take(k as int)[j]);
                        }
                    }
                }
            }
            return lt;
        }
        proof {
            assert(a@.take(k + 1) =~= a@.take(k as int).push(a@[k as int]));
            assert(b@.take(k + 1) =~= b@.take(k as int).push(b@[k as int]));
        }
        k = k + 1;
    }
    let lt = a.len() < b.len();
    proof {
        if lt {
            assert(lex_lt(a@, b@));
        } else {
            assert forall|j: int|
                0 <= j <= a@.len() && j <= b@.len() && a@.take(j) =~= b@.take(j) implies !((j
                    == a@.len() && j < b@.len()) || (j < a@.len() && j < b@.len() && a@[j] < b@[j])) by {
                if j < n {
                    assert(a@.take(n as int)[j] == b@.take(n as int)[j]);
                }
            }
        }
    }
    lt
}

/// Whether `p` is a prefix of `s`.
pub fn chars_is_prefix(p: &[char], s: &[char]) -> (r: bool)
    ensures
        r == is_prefix(p@, s@),
{
    if p.len() > s.len() {
        return false;
    }
    let n = p.len();
    let mut i: usize = 0;
    while i < n
        invariant
            0 <= i <= n == p@.len() <= s@.len(),
            forall|k: int| 0 <= k < i ==> p@[k] == s@[k],
        decreases n - i,
    {
        if p[i] != s[i] {
            proof {
                assert(s@.take(n as int)[i as int] != p@[i as int]);
            }
            return false;
        }
        i = i + 1;
    }
    proof {
        assert(s@.take(n as int) =~= p@);
    }
    true
}

/// Appends `c` to `s`.
#[verifier::external_body]
pub(crate) fn string_push(s: &mut String, c: char)
    ensures
        final(s)@ == old(s)@.push(c),
{
    s.push(c);
}

/// A `String` holding the characters `cs`.
pub(crate) fn string_from_chars(cs: &[char]) -> (r: String)
    ensures
        r@ == cs@,
{
    let mut s = String::new();
    let mut i: usize = 0;
    while i < cs.len()
        invariant
            0 <= i <= cs@.len(),
            s@ == cs@.take(i as int),
        decreases cs@.len() - i,
    {
        proof {
            assert(cs@.take(i + 1) =~= cs@.take(i as int).push(cs@[i as int]));
        }
        string_push(&mut s, cs[i]);
        i = i + 1;
    }
    proof {
        assert(cs@.take(cs@.len() as int) =~= cs@);
    }
    s
}

} // verus!
