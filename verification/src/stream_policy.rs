//! Which streams of an event system may emit events.
//!
//! A policy is a comma-separated list of directives: a bare `on` or `off`
//! sets the default rule, `prefix=rule` sets the rule of streams whose names
//! start with `prefix`, and a bare `prefix` or `prefix=` means `prefix=on`.
//! The longest matching prefix decides a stream's rule; streams that no
//! prefix matches follow the default rule, which is `off` unless a directive
//! sets it. Rule names ignore ASCII case, whitespace around directives,
//! prefixes and rules is ignored, and the last directive for a prefix (or for
//! the default) wins.
use crate::stream_name::StreamName;
use crate::text::{
    ascii_lower, chars_eq_ignore_ascii_case, chars_is_prefix, chars_lex_lt, chars_of,
    chars_utf8_len, copy_range, eq_ignore_ascii_case, find_char, find_from, is_prefix,
    leading_ws_end, trailing_ws_start,
    lemma_trim_idempotent, lemma_utf8_len_prefix, lex_lt, split, split_chars, string_from_chars, trim, trim_chars,
    utf8_len,
};
use vstd::prelude::*;

verus! {

/// Whether streams may emit events.
#[derive(Clone, Copy, Debug, PartialEq, Eq, Structural)]
pub enum StreamRule {
    /// Events are emitted.
    On,
    /// Events are dropped.
    Off,
}

impl Default for StreamRule {
    /// Events are off unless a policy turns them on.
    fn default() -> (r: StreamRule)
        ensures
            r == StreamRule::Off,
    {
        StreamRule::Off
    }
}

impl StreamRule {
    /// The name of the rule: `on` or `off`.
    pub fn as_str(&self) -> (r: &'static str)
        ensures
            r@ == (match self {
                StreamRule::On => seq!['o', 'n'],
                StreamRule::Off => seq!['o', 'f', 'f'],
            }),
    {
        proof {
            reveal_strlit("on");
            reveal_strlit("off");
        }
        match self {
            StreamRule::On => "on",
            StreamRule::Off => "off",
        }
    }
}

/// An error encountered while parsing a stream policy.
#[derive(Debug, PartialEq, Eq)]
pub enum ParseStreamFilterError {
    /// A rule value that is neither `on` nor `off` (in any ASCII case).
    InvalidStreamRuleValue(String),
}

impl ParseStreamFilterError {
    /// The offending rule value.
    pub closed spec fn value(&self) -> Seq<char> {
        match self {
            ParseStreamFilterError::InvalidStreamRuleValue(s) => s@,
        }
    }
}

/// A prefix of stream names with the rule for the streams that it matches.
#[derive(Debug, PartialEq, Eq)]
pub(crate) struct PrefixStreamRule {
    pub(crate) prefix: Vec<char>,
    pub(crate) stream_state: StreamRule,
}

/// Configures which streams of an event system can emit events.
#[derive(Debug, PartialEq, Eq)]
pub struct StreamPolicy {
    /// Rule to apply when no prefix matches the stream name.
    default_rule: StreamRule,
    /// Prefix rules sorted by increasing UTF-8 length of the prefix, then
    /// lexicographically.
    prefix_rules_sorted_by_length: Vec<PrefixStreamRule>,
}

// ---------------------------------------------------------------------------
// The meaning of a policy string.
// ---------------------------------------------------------------------------

/// The rule that `s` names, ignoring ASCII case, if it names one.
pub open spec fn rule_word(s: Seq<char>) -> Option<StreamRule> {
    if eq_ignore_ascii_case(s, seq!['o', 'n']) {
        Some(StreamRule::On)
    } else if eq_ignore_ascii_case(s, seq!['o', 'f', 'f']) {
        Some(StreamRule::Off)
    } else {
        None
    }
}

/// A directive `prefix[=[rule]]` with its prefix and rule trimmed: the
/// prefix is everything before the first `=`, and an absent or blank rule
/// means `on`. A rule value that names no rule is the error.
pub open spec fn prefix_directive(d: Seq<char>) -> Result<(Seq<char>, StreamRule), Seq<char>> {
    let (p, v) = match find_from(d, '=', 0) {
        Some(i) => (d.take(i), d.skip(i + 1)),
        None => (d, Seq::<char>::empty()),
    };
    let p = trim(p);
    let v = trim(v);
    if v.len() == 0 {
        Ok((p, StreamRule::On))
    } else {
        match rule_word(v) {
            Some(r) => Ok((p, r)),
            None => Err(v),
        }
    }
}

/// The state of parsing after one more raw directive: blank directives are
/// ignored, a rule name sets the default rule, a prefix rule with an empty
/// prefix sets the default rule too, and any other prefix rule sets the rule
/// of its prefix, replacing an earlier one.
pub open spec fn apply_directive(
    st: Result<(StreamRule, Map<Seq<char>, StreamRule>), Seq<char>>,
    raw: Seq<char>,
) -> Result<(StreamRule, Map<Seq<char>, StreamRule>), Seq<char>> {
    match st {
        Err(e) => Err(e),
        Ok((def, m)) => {
            let d = trim(raw);
            if d.len() == 0 {
                Ok((def, m))
            } else {
                match rule_word(d) {
                    Some(r) => Ok((r, m)),
                    None => match prefix_directive(d) {
                        Err(e) => Err(e),
                        Ok((p, r)) => if p.len() == 0 {
                            Ok((r, m))
                        } else {
                            Ok((def, m.insert(p, r)))
                        },
                    },
                }
            }
        },
    }
}

/// The state after all of `ds`, in order, from the default rule `off` and no
/// prefix rules.
pub open spec fn apply_directives(ds: Seq<Seq<char>>) -> Result<
    (StreamRule, Map<Seq<char>, StreamRule>),
    Seq<char>,
>
    decreases ds.len(),
{
    if ds.len() == 0 {
        Ok((StreamRule::Off, Map::empty()))
    } else {
        apply_directive(apply_directives(ds.drop_last()), ds.last())
    }
}

/// The default rule and the rule of each prefix that the policy string
/// `input` sets, or the first invalid rule value in it. A blank string sets
/// nothing.
pub open spec fn policy_of(input: Seq<char>) -> Result<
    (StreamRule, Map<Seq<char>, StreamRule>),
    Seq<char>,
> {
    if trim(input).len() == 0 {
        Ok((StreamRule::Off, Map::empty()))
    } else {
        apply_directives(split(input, ','))
    }
}

// ---------------------------------------------------------------------------
// Sequences of prefix rules.
// ---------------------------------------------------------------------------

/// Whether the prefixes of `rs` are distinct.
pub open spec fn unique_prefixes(rs: Seq<(Seq<char>, StreamRule)>) -> bool {
    forall|i: int, j: int| 0 <= i < rs.len() && 0 <= j < rs.len() && i != j ==> #[trigger] rs[i].0 != #[trigger] rs[j].0
}

/// Whether some rule of `rs` has prefix `p`.
pub open spec fn has_prefix_rule(rs: Seq<(Seq<char>, StreamRule)>, p: Seq<char>) -> bool {
    exists|i: int| 0 <= i < rs.len() && #[trigger] rs[i].0 == p
}

/// The rule of each prefix in `rs`.
pub open spec fn rules_map(rs: Seq<(Seq<char>, StreamRule)>) -> Map<Seq<char>, StreamRule> {
    Map::new(
        |p: Seq<char>| has_prefix_rule(rs, p),
        |p: Seq<char>| rs[choose|i: int| 0 <= i < rs.len() && #[trigger] rs[i].0 == p].1,
    )
}

/// The order of prefixes in a policy: by UTF-8 length, then
/// lexicographically.
pub open spec fn prefix_lt(a: Seq<char>, b: Seq<char>) -> bool {
    utf8_len(a) < utf8_len(b) || (utf8_len(a) == utf8_len(b) && lex_lt(a, b))
}

/// Whether the prefixes of `rs` strictly increase in the policy order.
pub open spec fn sorted_prefixes(rs: Seq<(Seq<char>, StreamRule)>) -> bool {
    forall|i: int, j: int| 0 <= i < j < rs.len() ==> prefix_lt(#[trigger] rs[i].0, #[trigger] rs[j].0)
}

/// The prefix rules of a vector, as pairs.
pub(crate) open spec fn rule_pairs(v: Seq<PrefixStreamRule>) -> Seq<(Seq<char>, StreamRule)> {
    v.map_values(|r: PrefixStreamRule| (r.prefix@, r.stream_state))
}

// ---------------------------------------------------------------------------
// Lemmas on orders and prefix rules.
// ---------------------------------------------------------------------------

/// No sequence comes before itself.
pub proof fn lemma_lex_lt_irreflexive(a: Seq<char>)
    ensures
        !lex_lt(a, a),
{
}

/// Lexicographic order is transitive.
pub proof fn lemma_lex_lt_transitive(a: Seq<char>, b: Seq<char>, c: Seq<char>)
    requires
        lex_lt(a, b),
        lex_lt(b, c),
    ensures
        lex_lt(a, c),
{
    let k1 = choose|k: int|
        0 <= k <= a.len() && k <= b.len() && a.take(k) =~= b.take(k) && ((k == a.len() && k
            < b.len()) || (k < a.len() && k < b.len() && a[k] < b[k]));
    let k2 = choose|k: int|
        0 <= k <= b.len() && k <= c.len() && b.take(k) =~= c.take(k) && ((k == b.len() && k
            < c.len()) || (k < b.len() && k < c.len() && b[k] < c[k]));
    if k1 < k2 {
        assert(b.take(k2)[k1] == c.take(k2)[k1]);
        assert(a.take(k1) =~= c.take(k1)) by {
            assert forall|i: int| 0 <= i < k1 implies #[trigger] a.take(k1)[i] == c.take(k1)[i] by {
                assert(a.take(k1)[i] == b.take(k1)[i]);
                assert(b.take(k2)[i] == c.take(k2)[i]);
            }
        }
    } else if k2 < k1 {
        assert(a.take(k1)[k2] == b.take(k1)[k2]);
        assert(a.take(k2) =~= c.take(k2)) by {
            assert forall|i: int| 0 <= i < k2 implies #[trigger] a.take(k2)[i] == c.take(k2)[i] by {
                assert(a.take(k1)[i] == b.take(k1)[i]);
                assert(b.take(k2)[i] == c.take(k2)[i]);
            }
        }
    } else {
        assert(a.take(k1) =~= c.take(k1));
    }
}

/// Distinct sequences are ordered one way or the other.
pub proof fn lemma_lex_lt_total(a: Seq<char>, b: Seq<char>)
    ensures
        lex_lt(a, b) || lex_lt(b, a) || a =~= b,
    decreases a.len(),
{
    if a.len() == 0 && b.len() == 0 {
        assert(a =~= b);
    } else if a.len() == 0 || b.len() == 0 {
        assert(a.take(0) =~= b.take(0));
        if a.len() == 0 {
            assert(lex_lt(a, b));
        } else {
            assert(lex_lt(b, a));
        }
    } else if a[0] != b[0] {
        assert(a.take(0) =~= b.take(0));
        if a[0] < b[0] {
            assert(lex_lt(a, b));
        } else {
            assert(b[0] < a[0]);
            assert(lex_lt(b, a));
        }
    } else {
        let a1 = a.drop_first();
        let b1 = b.drop_first();
        lemma_lex_lt_total(a1, b1);
        if a1 =~= b1 {
            assert forall|i: int| 0 <= i < a.len() implies #[trigger] a[i] == b[i] by {
                if i > 0 {
                    assert(a1[i - 1] == b1[i - 1]);
                }
            }
            assert(a =~= b);
        } else if lex_lt(a1, b1) {
            let k = choose|k: int|
                0 <= k <= a1.len() && k <= b1.len() && a1.take(k) =~= b1.take(k) && ((k == a1.len()
                    && k < b1.len()) || (k < a1.len() && k < b1.len() && a1[k] < b1[k]));
            assert(a.take(k + 1) =~= b.take(k + 1)) by {
                assert forall|i: int| 0 <= i < k + 1 implies #[trigger] a.take(k + 1)[i] == b.take(k + 1)[i] by {
                    if i > 0 {
                        assert(a1.take(k)[i - 1] == b1.take(k)[i - 1]);
                    }
                }
            }
            assert(lex_lt(a, b));
        } else {
            let k = choose|k: int|
                0 <= k <= b1.len() && k <= a1.len() && b1.take(k) =~= a1.take(k) && ((k == b1.len()
                    && k < a1.len()) || (k < b1.len() && k < a1.len() && b1[k] < a1[k]));
            assert(b.take(k + 1) =~= a.take(k + 1)) by {
                assert forall|i: int| 0 <= i < k + 1 implies #[trigger] b.take(k + 1)[i] == a.take(k + 1)[i] by {
                    if i > 0 {
                        assert(b1.take(k)[i - 1] == a1.take(k)[i - 1]);
                    }
                }
            }
            assert(lex_lt(b, a));
        }
    }
}

/// The policy order is a strict total order on prefixes.
pub proof fn lemma_prefix_lt_order(a: Seq<char>, b: Seq<char>, c: Seq<char>)
    ensures
        !prefix_lt(a, a),
        prefix_lt(a, b) && prefix_lt(b, c) ==> prefix_lt(a, c),
        prefix_lt(a, b) || prefix_lt(b, a) || a =~= b,
{
    lemma_lex_lt_irreflexive(a);
    if prefix_lt(a, b) && prefix_lt(b, c) && utf8_len(a) == utf8_len(b) && utf8_len(b) == utf8_len(c) {
        lemma_lex_lt_transitive(a, b, c);
    }
    lemma_lex_lt_total(a, b);
}

/// Adding a rule for a new prefix adds it to the map.
pub proof fn lemma_rules_map_push(rs: Seq<(Seq<char>, StreamRule)>, p: Seq<char>, r: StreamRule)
    requires
        unique_prefixes(rs),
        !has_prefix_rule(rs, p),
    ensures
        unique_prefixes(rs.push((p, r))),
        rules_map(rs.push((p, r))) =~= rules_map(rs).insert(p, r),
{
    let rs2 = rs.push((p, r));
    assert forall|q: Seq<char>| #[trigger] has_prefix_rule(rs2, q) <==> (has_prefix_rule(rs, q) || q == p) by {
        if has_prefix_rule(rs, q) {
            let i = choose|i: int| 0 <= i < rs.len() && #[trigger] rs[i].0 == q;
            assert(rs2[i].0 == q);
        }
        if q == p {
            assert(rs2[rs.len() as int].0 == q);
        }
    }
    assert forall|q: Seq<char>| has_prefix_rule(rs2, q) implies rules_map(rs2)[q] == rules_map(rs).insert(p, r)[q] by {
        let i2 = choose|i: int| 0 <= i < rs2.len() && #[trigger] rs2[i].0 == q;
        if q == p {
            assert(i2 == rs.len());
        } else {
            let i1 = choose|i: int| 0 <= i < rs.len() && #[trigger] rs[i].0 == q;
            assert(rs2[i1].0 == q);
            assert(i1 == i2);
        }
    }
}

/// Replacing the rule of a prefix that is present sets it in the map.
pub proof fn lemma_rules_map_update(rs: Seq<(Seq<char>, StreamRule)>, j: int, r: StreamRule)
    requires
        unique_prefixes(rs),
        0 <= j < rs.len(),
    ensures
        unique_prefixes(rs.update(j, (rs[j].0, r))),
        rules_map(rs.update(j, (rs[j].0, r))) =~= rules_map(rs).insert(rs[j].0, r),
{
    let p = rs[j].0;
    let rs2 = rs.update(j, (p, r));
    assert forall|i: int| 0 <= i < rs.len() implies #[trigger] rs2[i].0 == rs[i].0 by {}
    assert forall|q: Seq<char>| #[trigger] has_prefix_rule(rs2, q) <==> has_prefix_rule(rs, q) by {
        if has_prefix_rule(rs, q) {
            let i = choose|i: int| 0 <= i < rs.len() && #[trigger] rs[i].0 == q;
            assert(rs2[i].0 == q);
        }
        if has_prefix_rule(rs2, q) {
            let i = choose|i: int| 0 <= i < rs2.len() && #[trigger] rs2[i].0 == q;
            assert(rs[i].0 == q);
        }
    }
    assert forall|q: Seq<char>| has_prefix_rule(rs2, q) implies rules_map(rs2)[q] == rules_map(rs).insert(p, r)[q] by {
        let i2 = choose|i: int| 0 <= i < rs2.len() && #[trigger] rs2[i].0 == q;
        let i1 = choose|i: int| 0 <= i < rs.len() && #[trigger] rs[i].0 == q;
        assert(rs2[i1].0 == q);
        assert(i1 == i2);
    }
    assert(rules_map(rs).insert(p, r).dom() =~= rules_map(rs).dom()) by {
        assert(rs[j].0 == p);
    }
}

/// Two sequences of rules with distinct prefixes and the same pairs have the
/// same map.
pub proof fn lemma_rules_map_same_pairs(a: Seq<(Seq<char>, StreamRule)>, b: Seq<(Seq<char>, StreamRule)>)
    requires
        unique_prefixes(a),
        unique_prefixes(b),
        forall|i: int| 0 <= i < a.len() ==> b.contains(#[trigger] a[i]),
        forall|i: int| 0 <= i < b.len() ==> a.contains(#[trigger] b[i]),
    ensures
        rules_map(a) =~= rules_map(b),
{
    assert forall|q: Seq<char>| #[trigger] has_prefix_rule(a, q) <==> has_prefix_rule(b, q) by {
        if has_prefix_rule(a, q) {
            let i = choose|i: int| 0 <= i < a.len() && #[trigger] a[i].0 == q;
            assert(b.contains(a[i]));
            let k = choose|k: int| 0 <= k < b.len() && #[trigger] b[k] == a[i];
            assert(b[k].0 == q);
        }
        if has_prefix_rule(b, q) {
            let i = choose|i: int| 0 <= i < b.len() && #[trigger] b[i].0 == q;
            assert(a.contains(b[i]));
            let k = choose|k: int| 0 <= k < a.len() && #[trigger] a[k] == b[i];
            assert(a[k].0 == q);
        }
    }
    assert forall|q: Seq<char>| has_prefix_rule(a, q) implies rules_map(a)[q] == rules_map(b)[q] by {
        let ia = choose|i: int| 0 <= i < a.len() && #[trigger] a[i].0 == q;
        let ib = choose|i: int| 0 <= i < b.len() && #[trigger] b[i].0 == q;
        assert(b.contains(a[ia]));
        let k = choose|k: int| 0 <= k < b.len() && #[trigger] b[k] == a[ia];
        assert(b[k].0 == q);
        assert(k == ib);
    }
}

/// An invalid directive makes the whole policy invalid.
pub proof fn lemma_apply_directives_err(ds: Seq<Seq<char>>, i: int, e: Seq<char>)
    requires
        0 <= i <= ds.len(),
        apply_directives(ds.take(i)) == Err::<(StreamRule, Map<Seq<char>, StreamRule>), Seq<char>>(e),
    ensures
        apply_directives(ds) == Err::<(StreamRule, Map<Seq<char>, StreamRule>), Seq<char>>(e),
    decreases ds.len() - i,
{
    if i < ds.len() {
        assert(ds.take(i + 1).drop_last() =~= ds.take(i));
        lemma_apply_directives_err(ds, i + 1, e);
    } else {
        assert(ds.take(i) =~= ds);
    }
}

/// Strictly sorted prefixes are distinct.
pub proof fn lemma_sorted_unique(rs: Seq<(Seq<char>, StreamRule)>)
    requires
        sorted_prefixes(rs),
    ensures
        unique_prefixes(rs),
{
    assert forall|i: int, j: int| 0 <= i < rs.len() && 0 <= j < rs.len() && i != j implies #[trigger] rs[i].0 != #[trigger] rs[j].0 by {
        lemma_prefix_lt_order(rs[i].0, rs[j].0, rs[j].0);
        if i < j {
            assert(prefix_lt(rs[i].0, rs[j].0));
        } else {
            assert(prefix_lt(rs[j].0, rs[i].0));
            lemma_prefix_lt_order(rs[j].0, rs[i].0, rs[i].0);
        }
    }
}

// ---------------------------------------------------------------------------
// Parsing.
// ---------------------------------------------------------------------------

/// The rule that `value` names, ignoring ASCII case.
fn parse_rule_word(value: &[char]) -> (r: Option<StreamRule>)
    ensures
        r == rule_word(value@),
{
    let on: [char; 2] = ['o', 'n'];
    let off: [char; 3] = ['o', 'f', 'f'];
    assert(on@ =~= seq!['o', 'n']);
    assert(off@ =~= seq!['o', 'f', 'f']);
    if chars_eq_ignore_ascii_case(value, on.as_slice()) {
        Some(StreamRule::On)
    } else if chars_eq_ignore_ascii_case(value, off.as_slice()) {
        Some(StreamRule::Off)
    } else {
        None
    }
}

/// Parses a rule value: `on` or `off` in any ASCII case.
pub fn parse_stream_rule(value: &str) -> (r: Result<StreamRule, ParseStreamFilterError>)
    ensures
        match r {
            Ok(rule) => rule_word(value@) == Some(rule),
            Err(e) => rule_word(value@) is None && e.value() == value@,
        },
{
    let chars = chars_of(value);
    match parse_rule_word(chars.as_slice()) {
        Some(rule) => Ok(rule),
        None => Err(ParseStreamFilterError::InvalidStreamRuleValue(value.to_owned())),
    }
}

/// Parses a directive `prefix[=[rule]]`, trimming the prefix and the rule.
fn parse_prefix_directive(d: &[char]) -> (r: Result<(Vec<char>, StreamRule), ParseStreamFilterError>)
    ensures
        match r {
            Ok((p, rule)) => prefix_directive(d@) == Ok::<(Seq<char>, StreamRule), Seq<char>>(
                (p@, rule),
            ),
            Err(e) => prefix_directive(d@) == Err::<(Seq<char>, StreamRule), Seq<char>>(e.value()),
        },
{
    let n = d.len();
    let (prefix, value) = match find_char(d, '=') {
        Some(i) => (copy_range(d, 0, i), copy_range(d, i + 1, d.len())),
        None => (copy_range(d, 0, d.len()), Vec::new()),
    };
    proof {
        assert(d@.subrange(0, d@.len() as int) =~= d@);
        if let Some(i) = find_from(d@, '=', 0) {
            assert(d@.subrange(0, i) =~= d@.take(i));
            assert(d@.subrange(i + 1, d@.len() as int) =~= d@.skip(i + 1));
        }
        assert(value@ =~= (match find_from(d@, '=', 0) {
            Some(i) => d@.skip(i + 1),
            None => Seq::<char>::empty(),
        }));
    }
    let prefix = trim_chars(prefix.as_slice());
    let value = trim_chars(value.as_slice());
    if value.len() == 0 {
        return Ok((prefix, StreamRule::On));
    }
    match parse_rule_word(value.as_slice()) {
        Some(rule) => Ok((prefix, rule)),
        None => Err(ParseStreamFilterError::InvalidStreamRuleValue(string_from_chars(value.as_slice()))),
    }
}

/// Whether `a` and `b` hold the same characters.
fn chars_eq(a: &[char], b: &[char]) -> (r: bool)
    ensures
        r == (a@ == b@),
{
    if a.len() != b.len() {
        return false;
    }
    let mut i: usize = 0;
    while i < a.len()
        invariant
            0 <= i <= a@.len() == b@.len(),
            forall|k: int| 0 <= k < i ==> a@[k] == b@[k],
        decreases a@.len() - i,
    {
        if a[i] != b[i] {
            return false;
        }
        i = i + 1;
    }
    assert(a@ =~= b@);
    true
}

/// The index of the rule for prefix `p`, if there is one.
fn find_rule(rules: &Vec<PrefixStreamRule>, p: &[char]) -> (r: Option<usize>)
    ensures
        match r {
            Some(j) => j < rules@.len() && rules@[j as int].prefix@ == p@,
            None => !has_prefix_rule(rule_pairs(rules@), p@),
        },
{
    let mut j: usize = 0;
    while j < rules.len()
        invariant
            0 <= j <= rules@.len(),
            forall|k: int| 0 <= k < j ==> (#[trigger] rules@[k]).prefix@ != p@,
        decreases rules@.len() - j,
    {
        if chars_eq(rules[j].prefix.as_slice(), p) {
            return Some(j);
        }
        j = j + 1;
    }
    proof {
        if has_prefix_rule(rule_pairs(rules@), p@) {
            let k = choose|k: int| 0 <= k < rule_pairs(rules@).len() && #[trigger] rule_pairs(rules@)[k].0 == p@;
            assert(rules@[k].prefix@ == p@);
        }
    }
    None
}

/// Whether the prefix of `a` comes before the prefix of `b` in policy order.
fn rule_lt(a: &PrefixStreamRule, b: &PrefixStreamRule) -> (r: bool)
    ensures
        r == prefix_lt(a.prefix@, b.prefix@),
{
    let la = chars_utf8_len(a.prefix.as_slice());
    let lb = chars_utf8_len(b.prefix.as_slice());
    if la < lb {
        true
    } else if la > lb {
        false
    } else {
        chars_lex_lt(a.prefix.as_slice(), b.prefix.as_slice())
    }
}

/// Sorts rules with distinct prefixes into policy order.
fn sort_rules(rules: Vec<PrefixStreamRule>) -> (r: Vec<PrefixStreamRule>)
    requires
        unique_prefixes(rule_pairs(rules@)),
    ensures
        sorted_prefixes(rule_pairs(r@)),
        rules_map(rule_pairs(r@)) == rules_map(rule_pairs(rules@)),
        forall|i: int| 0 <= i < r@.len() ==> rule_pairs(rules@).contains(#[trigger] rule_pairs(r@)[i]),
{
    let ghost orig = rule_pairs(rules@);
    let mut rest = rules;
    let mut sorted: Vec<PrefixStreamRule> = Vec::new();
    while rest.len() > 0
        invariant
            rule_pairs(rest@) == orig.take(rest@.len() as int),
            rest@.len() <= orig.len(),
            unique_prefixes(orig),
            sorted_prefixes(rule_pairs(sorted@)),
            forall|i: int| 0 <= i < sorted@.len() ==> orig.skip(rest@.len() as int).contains(#[trigger] rule_pairs(sorted@)[i]),
            forall|i: int| 0 <= i < orig.skip(rest@.len() as int).len() ==> rule_pairs(sorted@).contains(#[trigger] orig.skip(rest@.len() as int)[i]),
        decreases rest@.len(),
    {
        let ghost k = rest@.len() - 1;
        let ghost old_rest = rest@;
        let x = rest.pop().unwrap();
        proof {
            assert(rule_pairs(rest@) =~= orig.take(k));
            assert(rule_pairs(old_rest)[k] == (x.prefix@, x.stream_state));
            assert(orig.take(k + 1)[k] == orig[k]);
        }
        let mut j: usize = 0;
        while j < sorted.len() && rule_lt(&sorted[j], &x)
            invariant
                0 <= j <= sorted@.len(),
                    forall|i: int| 0 <= i < j ==> prefix_lt((#[trigger] sorted@[i]).prefix@, x.prefix@),
            decreases sorted@.len() - j,
        {
            j = j + 1;
        }
        let ghost old_sorted = rule_pairs(sorted@);
        proof {
            // `x`'s prefix is not yet in `sorted`, so it is distinct from all of them.
            assert forall|i: int| 0 <= i < sorted@.len() implies (#[trigger] sorted@[i]).prefix@ != x.prefix@ by {
                assert(orig.skip(k + 1).contains(old_sorted[i]));
                let m = choose|m: int| 0 <= m < orig.skip(k + 1).len() && #[trigger] orig.skip(k + 1)[m] == old_sorted[i];
                assert(orig[k + 1 + m] == old_sorted[i]);
                assert(orig[k].0 != orig[k + 1 + m].0);
            }
            if j < sorted@.len() {
                lemma_prefix_lt_order(x.prefix@, sorted@[j as int].prefix@, x.prefix@);
                assert(prefix_lt(x.prefix@, sorted@[j as int].prefix@));
                assert forall|i: int| j < i < sorted@.len() implies prefix_lt(x.prefix@, (#[trigger] sorted@[i]).prefix@) by {
                    assert(prefix_lt(old_sorted[j as int].0, old_sorted[i].0));
                    lemma_prefix_lt_order(x.prefix@, sorted@[j as int].prefix@, sorted@[i].prefix@);
                }
            }
        }
        sorted.insert(j, x);
        proof {
            let ns = rule_pairs(sorted@);
            assert(ns =~= old_sorted.insert(j as int, orig[k]));
            assert(sorted_prefixes(ns)) by {
                assert forall|a: int, b: int| 0 <= a < b < ns.len() implies prefix_lt(#[trigger] ns[a].0, #[trigger] ns[b].0) by {
                    if a < j && b < j {
                        assert(ns[a] == old_sorted[a] && ns[b] == old_sorted[b]);
                    } else if a < j && b == j {
                    } else if a < j && b > j {
                        assert(ns[b] == old_sorted[b - 1]);
                        assert(ns[a] == old_sorted[a]);
                    } else if a == j {
                        assert(ns[b] == old_sorted[b - 1]);
                    } else {
                        assert(ns[a] == old_sorted[a - 1] && ns[b] == old_sorted[b - 1]);
                    }
                }
            }
            assert(orig.skip(k) =~= seq![orig[k]] + orig.skip(k + 1));
            assert forall|i: int| 0 <= i < ns.len() implies orig.skip(k).contains(#[trigger] ns[i]) by {
                if i == j {
                    assert(orig.skip(k)[0] == orig[k]);
                } else {
                    let oi = if i < j { i } else { i - 1 };
                    assert(ns[i] == old_sorted[oi]);
                    assert(orig.skip(k + 1).contains(old_sorted[oi]));
                    let m = choose|m: int| 0 <= m < orig.skip(k + 1).len() && #[trigger] orig.skip(k + 1)[m] == old_sorted[oi];
                    assert(orig.skip(k)[m + 1] == ns[i]);
                }
            }
            assert forall|i: int| 0 <= i < orig.skip(k).len() implies ns.contains(#[trigger] orig.skip(k)[i]) by {
                if i == 0 {
                    assert(ns[j as int] == orig[k]);
                } else {
                    assert(orig.skip(k)[i] == orig.skip(k + 1)[i - 1]);
                    assert(old_sorted.contains(orig.skip(k + 1)[i - 1]));
                    let m = choose|m: int| 0 <= m < old_sorted.len() && #[trigger] old_sorted[m] == orig.skip(k + 1)[i - 1];
                    if m < j {
                        assert(ns[m] == old_sorted[m]);
                    } else {
                        assert(ns[m + 1] == old_sorted[m]);
                    }
                }
            }
        }
    }
    proof {
        assert(orig.skip(0) =~= orig);
        lemma_sorted_unique(rule_pairs(sorted@));
        lemma_rules_map_same_pairs(rule_pairs(sorted@), orig);
    }
    sorted
}

impl StreamPolicy {
    /// The rule for streams that no prefix matches.
    pub closed spec fn default_view(&self) -> StreamRule {
        self.default_rule
    }

    /// The prefix rules, in policy order.
    pub closed spec fn rules_view(&self) -> Seq<(Seq<char>, StreamRule)> {
        rule_pairs(self.prefix_rules_sorted_by_length@)
    }

    /// The rule that the policy gives the stream named `name`.
    pub open spec fn rule_for(&self, name: Seq<char>) -> StreamRule {
        last_match_rule(self.rules_view(), name, self.default_view())
    }

    /// The rule of each prefix.
    pub open spec fn prefix_map(&self) -> Map<Seq<char>, StreamRule> {
        rules_map(self.rules_view())
    }

    /// A policy holds non-empty prefixes in strictly increasing policy
    /// order.
    pub open spec fn wf(&self) -> bool {
        &&& sorted_prefixes(self.rules_view())
        &&& forall|i: int| 0 <= i < self.rules_view().len() ==> (#[trigger] self.rules_view()[i]).0.len() > 0
    }

    /// The policy that disables events on all streams.
    pub fn off() -> (r: StreamPolicy)
        ensures
            r.default_view() == StreamRule::Off,
            r.rules_view().len() == 0,
            r.wf(),
    {
        StreamPolicy { default_rule: StreamRule::Off, prefix_rules_sorted_by_length: Vec::new() }
    }

    /// Parses a policy string (see the module documentation).
    pub fn parse(input: &str) -> (r: Result<StreamPolicy, ParseStreamFilterError>)
        ensures
            match r {
                Ok(p) => p.wf() && policy_of(input@) == Ok::<
                    (StreamRule, Map<Seq<char>, StreamRule>),
                    Seq<char>,
                >((p.default_view(), p.prefix_map())),
                Err(e) => policy_of(input@) == Err::<
                    (StreamRule, Map<Seq<char>, StreamRule>),
                    Seq<char>,
                >(e.value()),
            },
    {
        let chars = chars_of(input);
        let trimmed = trim_chars(chars.as_slice());
        if trimmed.len() == 0 {
            let p = StreamPolicy::off();
            proof {
                assert(p.prefix_map() =~= Map::<Seq<char>, StreamRule>::empty());
            }
            return Ok(p);
        }
        let pieces = split_chars(chars.as_slice(), ',');
        let ghost ds = split(chars@, ',');
        let mut default_rule = StreamRule::Off;
        let mut rules: Vec<PrefixStreamRule> = Vec::new();
        let mut i: usize = 0;
        proof {
            assert(rules_map(rule_pairs(rules@)) =~= Map::<Seq<char>, StreamRule>::empty());
        }
        while i < pieces.len()
            invariant
                pieces@.len() == ds.len(),
                forall|k: int| 0 <= k < pieces@.len() ==> #[trigger] pieces@[k]@ == ds[k],
                ds == split(input@, ','),
                policy_of(input@) == apply_directives(ds),
                0 <= i <= pieces@.len(),
                unique_prefixes(rule_pairs(rules@)),
                forall|k: int| 0 <= k < rules@.len() ==> (#[trigger] rules@[k]).prefix@.len() > 0,
                apply_directives(ds.take(i as int)) == Ok::<
                    (StreamRule, Map<Seq<char>, StreamRule>),
                    Seq<char>,
                >((default_rule, rules_map(rule_pairs(rules@)))),
            decreases pieces@.len() - i,
        {
            proof {
                assert(ds.take(i + 1).drop_last() =~= ds.take(i as int));
                assert(ds.take(i + 1).last() == ds[i as int]);
            }
            let d = trim_chars(pieces[i].as_slice());
            if d.len() > 0 {
                match parse_rule_word(d.as_slice()) {
                    Some(rule) => {
                        default_rule = rule;
                    },
                    None => {
                        let parsed = parse_prefix_directive(d.as_slice());
                        if let Err(e) = parsed {
                            proof {
                                lemma_apply_directives_err(ds, i + 1, e.value());
                            }
                            return Err(e);
                        }
                        let (p, rule) = parsed.unwrap();
                        if p.len() == 0 {
                            default_rule = rule;
                        } else {
                            match find_rule(&rules, p.as_slice()) {
                                Some(j) => {
                                    proof {
                                        lemma_rules_map_update(rule_pairs(rules@), j as int, rule);
                                        assert(rule_pairs(rules@.update(j as int, PrefixStreamRule { prefix: p, stream_state: rule })) =~= rule_pairs(rules@).update(j as int, (rule_pairs(rules@)[j as int].0, rule)));
                                    }
                                    rules.set(j, PrefixStreamRule { prefix: p, stream_state: rule });
                                },
                                None => {
                                    proof {
                                        lemma_rules_map_push(rule_pairs(rules@), p@, rule);
                                        assert(rule_pairs(rules@.push(PrefixStreamRule { prefix: p, stream_state: rule })) =~= rule_pairs(rules@).push((p@, rule)));
                                    }
                                    rules.push(PrefixStreamRule { prefix: p, stream_state: rule });
                                },
                            }
                        }
                    },
                }
            }
            i = i + 1;
        }
        proof {
            assert(ds.take(ds.len() as int) =~= ds);
        }
        let sorted = sort_rules(rules);
        let policy = StreamPolicy { default_rule, prefix_rules_sorted_by_length: sorted };
        proof {
            assert forall|k: int| 0 <= k < policy.rules_view().len() implies (#[trigger] policy.rules_view()[k]).0.len() > 0 by {
                let x = policy.rules_view()[k];
                let orig = rule_pairs(rules@);
                assert(orig.contains(x));
                let m = choose|m: int| 0 <= m < orig.len() && #[trigger] orig[m] == x;
                assert(rules@[m].prefix@.len() > 0);
            }
        }
        Ok(policy)
    }
}


/// The rule of the last rule in `rs` whose prefix `name` starts with, or
/// `default` if there is none.
pub open spec fn last_match_rule(
    rs: Seq<(Seq<char>, StreamRule)>,
    name: Seq<char>,
    default: StreamRule,
) -> StreamRule
    decreases rs.len(),
{
    if rs.len() == 0 {
        default
    } else if is_prefix(rs.last().0, name) {
        rs.last().1
    } else {
        last_match_rule(rs.drop_last(), name, default)
    }
}

/// The rule that `last_match_rule` picks belongs to the last matching rule.
pub proof fn lemma_last_match(rs: Seq<(Seq<char>, StreamRule)>, name: Seq<char>, default: StreamRule)
    ensures
        (forall|i: int| 0 <= i < rs.len() ==> !is_prefix(#[trigger] rs[i].0, name))
            ==> last_match_rule(rs, name, default) == default,
        (exists|i: int| 0 <= i < rs.len() && is_prefix(#[trigger] rs[i].0, name)) ==> exists|i: int|
            0 <= i < rs.len() && is_prefix(#[trigger] rs[i].0, name) && last_match_rule(rs, name, default)
                == rs[i].1 && forall|j: int| i < j < rs.len() ==> !is_prefix(#[trigger] rs[j].0, name),
    decreases rs.len(),
{
    if rs.len() > 0 {
        let init = rs.drop_last();
        lemma_last_match(init, name, default);
        if is_prefix(rs.last().0, name) {
            assert(is_prefix(rs[rs.len() - 1].0, name));
        } else {
            assert forall|i: int| 0 <= i < init.len() implies init[i] == rs[i] by {}
            if exists|i: int| 0 <= i < rs.len() && is_prefix(#[trigger] rs[i].0, name) {
                let k = choose|i: int| 0 <= i < rs.len() && is_prefix(#[trigger] rs[i].0, name);
                assert(k < init.len());
                assert(is_prefix(init[k].0, name));
                let i = choose|i: int|
                    0 <= i < init.len() && is_prefix(#[trigger] init[i].0, name) && last_match_rule(init, name, default)
                        == init[i].1 && forall|j: int| i < j < init.len() ==> !is_prefix(#[trigger] init[j].0, name);
                assert(is_prefix(rs[i].0, name));
                assert forall|j: int| i < j < rs.len() implies !is_prefix(#[trigger] rs[j].0, name) by {
                    if j < init.len() {
                        assert(init[j] == rs[j]);
                    }
                }
            }
        }
    }
}

/// Two prefixes of one name: the one with fewer characters is a prefix of
/// the other.
proof fn lemma_prefixes_nest(p: Seq<char>, q: Seq<char>, name: Seq<char>)
    requires
        is_prefix(p, name),
        is_prefix(q, name),
        p.len() <= q.len(),
    ensures
        q.take(p.len() as int) =~= p,
{
    assert forall|i: int| 0 <= i < p.len() implies #[trigger] q.take(p.len() as int)[i] == p[i] by {
        assert(name.take(q.len() as int)[i] == q[i]);
        assert(name.take(p.len() as int)[i] == p[i]);
    }
}

/// Rule names ignore ASCII case: two spellings that differ only in the case
/// of ASCII letters name the same rule, or both name none.
pub proof fn lemma_rule_names_ignore_case(s: Seq<char>, t: Seq<char>)
    requires
        eq_ignore_ascii_case(s, t),
    ensures
        rule_word(s) == rule_word(t),
{
    let on = seq!['o', 'n'];
    let off = seq!['o', 'f', 'f'];
    if eq_ignore_ascii_case(s, on) {
        assert forall|i: int| 0 <= i < t.len() implies ascii_lower(t[i]) == ascii_lower(on[i]) by {
            assert(ascii_lower(s[i]) == ascii_lower(t[i]));
        }
    }
    if eq_ignore_ascii_case(t, on) {
        assert forall|i: int| 0 <= i < s.len() implies ascii_lower(s[i]) == ascii_lower(on[i]) by {
            assert(ascii_lower(s[i]) == ascii_lower(t[i]));
        }
    }
    if eq_ignore_ascii_case(s, off) {
        assert forall|i: int| 0 <= i < t.len() implies ascii_lower(t[i]) == ascii_lower(off[i]) by {
            assert(ascii_lower(s[i]) == ascii_lower(t[i]));
        }
    }
    if eq_ignore_ascii_case(t, off) {
        assert forall|i: int| 0 <= i < s.len() implies ascii_lower(s[i]) == ascii_lower(off[i]) by {
            assert(ascii_lower(s[i]) == ascii_lower(t[i]));
        }
    }
}

proof fn lemma_find_none_means_absent(s: Seq<char>, c: char, i: int)
    requires
        0 <= i,
        find_from(s, c, i) is None,
    ensures
        forall|j: int| i <= j < s.len() ==> s[j] != c,
    decreases s.len() - i,
{
    if i < s.len() {
        lemma_find_none_means_absent(s, c, i + 1);
    }
}

proof fn lemma_find_first_at(s: Seq<char>, c: char, i: int, k: int)
    requires
        0 <= i <= k < s.len(),
        s[k] == c,
        forall|j: int| i <= j < k ==> s[j] != c,
    ensures
        find_from(s, c, i) == Some(k),
    decreases k - i,
{
    if i < k {
        lemma_find_first_at(s, c, i + 1, k);
    }
}

/// A prefix directive needs neither `=` nor a rule: `prefix`, `prefix=` and
/// `prefix=on` all enable events for `prefix`.
pub proof fn lemma_prefix_shorthand_means_on(p: Seq<char>)
    requires
        find_from(p, '=', 0) is None,
    ensures
        prefix_directive(p) == Ok::<(Seq<char>, StreamRule), Seq<char>>((trim(p), StreamRule::On)),
        prefix_directive(p.push('=')) == prefix_directive(p),
        prefix_directive(p + seq!['=', 'o', 'n']) == prefix_directive(p),
{
    let e = p.push('=');
    let f = p + seq!['=', 'o', 'n'];
    lemma_find_none_means_absent(p, '=', 0);
    lemma_find_first_at(e, '=', 0, p.len() as int);
    lemma_find_first_at(f, '=', 0, p.len() as int);
    assert(e.take(p.len() as int) =~= p);
    assert(f.take(p.len() as int) =~= p);
    assert(e.skip(p.len() as int + 1) =~= Seq::<char>::empty());
    let on = seq!['o', 'n'];
    assert(f.skip(p.len() as int + 1) =~= on);
    assert(trim(Seq::<char>::empty()).len() == 0);
    assert(leading_ws_end(on, 0) == 0);
    assert(trailing_ws_start(on, 0, 2) == 2);
    assert(trim(on) =~= on);
    assert(eq_ignore_ascii_case(on, on));
}

/// The last directive for a prefix wins: after any directives, a prefix
/// directive `p=r` with a non-empty prefix sets the rule of `p` to `r`,
/// replacing an earlier one, and changes nothing else.
pub proof fn lemma_last_directive_wins(ds: Seq<Seq<char>>, d: Seq<char>)
    requires
        apply_directives(ds) is Ok,
        trim(d).len() > 0,
        rule_word(trim(d)) is None,
        prefix_directive(trim(d)) matches Ok((p, _)) && p.len() > 0,
    ensures
        apply_directives(ds.push(d)) == Ok::<(StreamRule, Map<Seq<char>, StreamRule>), Seq<char>>(
            (
                apply_directives(ds)->Ok_0.0,
                apply_directives(ds)->Ok_0.1.insert(
                    prefix_directive(trim(d))->Ok_0.0,
                    prefix_directive(trim(d))->Ok_0.1,
                ),
            ),
        ),
{
    assert(ds.push(d).drop_last() =~= ds);
}

/// The last default directive wins: after any directives, `on` or `off`
/// (in any ASCII case) sets the default rule and leaves the prefix rules as
/// they were.
pub proof fn lemma_last_default_wins(ds: Seq<Seq<char>>, d: Seq<char>)
    requires
        apply_directives(ds) is Ok,
        rule_word(trim(d)) is Some,
    ensures
        apply_directives(ds.push(d)) == Ok::<(StreamRule, Map<Seq<char>, StreamRule>), Seq<char>>(
            (rule_word(trim(d))->0, apply_directives(ds)->Ok_0.1),
        ),
{
    assert(ds.push(d).drop_last() =~= ds);
    if trim(d).len() == 0 {
        assert(!eq_ignore_ascii_case(trim(d), seq!['o', 'n']));
        assert(!eq_ignore_ascii_case(trim(d), seq!['o', 'f', 'f']));
    }
}

/// The longest matching prefix decides: for a policy in normal form, the
/// rule that the policy gives a name is the rule of the longest prefix of the
/// policy that the name starts with, and the default rule when no prefix
/// matches.
pub proof fn lemma_longest_prefix_wins(policy: &StreamPolicy, name: Seq<char>)
    requires
        policy.wf(),
    ensures
        (forall|q: Seq<char>| #[trigger] policy.prefix_map().contains_key(q) ==> !is_prefix(q, name))
            ==> last_match_rule(policy.rules_view(), name, policy.default_view()) == policy.default_view(),
        forall|q: Seq<char>|
            #[trigger] policy.prefix_map().contains_key(q) && is_prefix(q, name) && (forall|q2: Seq<char>|
                #[trigger] policy.prefix_map().contains_key(q2) && is_prefix(q2, name) ==> q2.len() <= q.len())
                ==> last_match_rule(policy.rules_view(), name, policy.default_view()) == policy.prefix_map()[q],
{
    let rs = policy.rules_view();
    let d = policy.default_view();
    let m = policy.prefix_map();
    lemma_last_match(rs, name, d);
    lemma_sorted_unique(rs);
    if forall|q: Seq<char>| #[trigger] m.contains_key(q) ==> !is_prefix(q, name) {
        assert forall|i: int| 0 <= i < rs.len() implies !is_prefix(#[trigger] rs[i].0, name) by {
            assert(has_prefix_rule(rs, rs[i].0));
            assert(m.contains_key(rs[i].0));
        }
    }
    assert forall|q: Seq<char>|
        #[trigger] m.contains_key(q) && is_prefix(q, name) && (forall|q2: Seq<char>|
            #[trigger] m.contains_key(q2) && is_prefix(q2, name) ==> q2.len() <= q.len())
        implies last_match_rule(rs, name, d) == m[q] by {
        let j = choose|j: int| 0 <= j < rs.len() && #[trigger] rs[j].0 == q;
        assert(is_prefix(rs[j].0, name));
        let i = choose|i: int|
            0 <= i < rs.len() && is_prefix(#[trigger] rs[i].0, name) && last_match_rule(rs, name, d)
                == rs[i].1 && forall|k: int| i < k < rs.len() ==> !is_prefix(#[trigger] rs[k].0, name);
        let p = rs[i].0;
        assert(has_prefix_rule(rs, p));
        assert(m.contains_key(p));
        assert(p.len() <= q.len());
        if p != q {
            lemma_prefixes_nest(p, q, name);
            if p.len() == q.len() {
                assert(p =~= q);
            }
            lemma_utf8_len_prefix(q, p.len() as int);
            assert(prefix_lt(p, q));
            assert(j <= i);
            if j < i {
                assert(prefix_lt(rs[j].0, rs[i].0));
                lemma_prefix_lt_order(p, q, p);
            }
        }
        assert(i == j);
    }
}

/// The same default rule and the same rule for each prefix make the same
/// policy: a policy in normal form is determined by what it means.
pub proof fn lemma_policy_normal_form(a: &StreamPolicy, b: &StreamPolicy)
    requires
        a.wf(),
        b.wf(),
        a.prefix_map() == b.prefix_map(),
    ensures
        a.rules_view() == b.rules_view(),
{
    lemma_sorted_same_map(a.rules_view(), b.rules_view());
}

/// Every prefix set by a sequence of directives is non-empty and trimmed.
proof fn lemma_directive_prefixes_trimmed(ds: Seq<Seq<char>>)
    requires
        apply_directives(ds) is Ok,
    ensures
        forall|p: Seq<char>| #[trigger] apply_directives(ds)->Ok_0.1.dom().contains(p) ==> p.len()
            > 0 && trim(p) == p,
    decreases ds.len(),
{
    if ds.len() > 0 {
        let d = trim(ds.last());
        lemma_directive_prefixes_trimmed(ds.drop_last());
        if d.len() > 0 && rule_word(d) is None {
            let (p, v) = match find_from(d, '=', 0) {
                Some(i) => (d.take(i), d.skip(i + 1)),
                None => (d, Seq::<char>::empty()),
            };
            lemma_trim_idempotent(p);
        }
    }
}

/// The prefixes of a policy string are clean: every prefix that the string
/// sets a rule for is non-empty and has no whitespace around it, so the
/// prefixes of a parsed policy are exactly the trimmed prefixes written in
/// it.
pub proof fn lemma_policy_prefixes_trimmed(input: Seq<char>)
    requires
        policy_of(input) is Ok,
    ensures
        forall|p: Seq<char>| #[trigger] policy_of(input)->Ok_0.1.dom().contains(p) ==> p.len() > 0
            && trim(p) == p,
{
    if trim(input).len() > 0 {
        lemma_directive_prefixes_trimmed(split(input, ','));
    }
}

/// The prefix rules of a policy parsed from `input` carry the prefixes that
/// `input` sets, each non-empty and without surrounding whitespace.
pub proof fn lemma_parsed_prefixes_trimmed(input: Seq<char>, policy: &StreamPolicy)
    requires
        policy_of(input) == Ok::<(StreamRule, Map<Seq<char>, StreamRule>), Seq<char>>(
            (policy.default_view(), policy.prefix_map()),
        ),
    ensures
        forall|i: int| #![trigger policy.rules_view()[i]]
            0 <= i < policy.rules_view().len() ==> policy.rules_view()[i].0.len() > 0 && trim(
                policy.rules_view()[i].0,
            ) == policy.rules_view()[i].0,
{
    lemma_policy_prefixes_trimmed(input);
    let m = policy_of(input)->Ok_0.1;
    assert forall|i: int| 0 <= i < policy.rules_view().len() implies policy.rules_view()[i].0.len()
        > 0 && trim(policy.rules_view()[i].0) == policy.rules_view()[i].0 by {
        let p = policy.rules_view()[i].0;
        assert(has_prefix_rule(policy.rules_view(), p));
        assert(m.dom().contains(p));
    }
}

/// Removing the last rule of a sequence with distinct prefixes removes its
/// prefix from the map.
proof fn lemma_rules_map_drop_last(rs: Seq<(Seq<char>, StreamRule)>)
    requires
        unique_prefixes(rs),
        rs.len() > 0,
    ensures
        unique_prefixes(rs.drop_last()),
        rules_map(rs.drop_last()) =~= rules_map(rs).remove(rs.last().0),
{
    let init = rs.drop_last();
    assert forall|q: Seq<char>| #[trigger] has_prefix_rule(init, q) <==> (has_prefix_rule(rs, q) && q != rs.last().0) by {
        if has_prefix_rule(init, q) {
            let i = choose|i: int| 0 <= i < init.len() && #[trigger] init[i].0 == q;
            assert(rs[i].0 == q);
            assert(rs[i].0 != rs[rs.len() - 1].0);
        }
        if has_prefix_rule(rs, q) && q != rs.last().0 {
            let i = choose|i: int| 0 <= i < rs.len() && #[trigger] rs[i].0 == q;
            assert(i < init.len());
            assert(init[i].0 == q);
        }
    }
    assert forall|q: Seq<char>| has_prefix_rule(init, q) implies rules_map(init)[q] == rules_map(rs)[q] by {
        let i1 = choose|i: int| 0 <= i < init.len() && #[trigger] init[i].0 == q;
        let i2 = choose|i: int| 0 <= i < rs.len() && #[trigger] rs[i].0 == q;
        assert(rs[i1].0 == q);
        assert(i1 == i2);
    }
}

/// Two sequences of prefix rules in policy order with the same map are
/// equal.
pub proof fn lemma_sorted_same_map(a: Seq<(Seq<char>, StreamRule)>, b: Seq<(Seq<char>, StreamRule)>)
    requires
        sorted_prefixes(a),
        sorted_prefixes(b),
        rules_map(a) == rules_map(b),
    ensures
        a == b,
    decreases a.len(),
{
    lemma_sorted_unique(a);
    lemma_sorted_unique(b);
    if a.len() == 0 {
        if b.len() > 0 {
            assert(has_prefix_rule(b, b[0].0));
            assert(rules_map(b).contains_key(b[0].0));
        }
        assert(a =~= b);
    } else {
        assert(has_prefix_rule(a, a.last().0));
        assert(rules_map(b).contains_key(a.last().0));
        assert(b.len() > 0);
        assert(has_prefix_rule(b, b.last().0));
        assert(rules_map(a).contains_key(b.last().0));
        let ka = a.last().0;
        let kb = b.last().0;
        if ka != kb {
            let ia = choose|i: int| 0 <= i < a.len() && #[trigger] a[i].0 == kb;
            let ib = choose|i: int| 0 <= i < b.len() && #[trigger] b[i].0 == ka;
            assert(ia < a.len() - 1);
            assert(ib < b.len() - 1);
            assert(prefix_lt(a[ia].0, a[a.len() - 1].0));
            assert(prefix_lt(b[ib].0, b[b.len() - 1].0));
            lemma_prefix_lt_order(kb, ka, kb);
        }
        let ia = choose|i: int| 0 <= i < a.len() && #[trigger] a[i].0 == ka;
        let ib = choose|i: int| 0 <= i < b.len() && #[trigger] b[i].0 == ka;
        assert(a[a.len() - 1].0 == ka);
        assert(ia == a.len() - 1);
        assert(b[b.len() - 1].0 == ka);
        assert(ib == b.len() - 1);
        assert(rules_map(a)[ka] == a[ia].1);
        assert(rules_map(b)[ka] == b[ib].1);
        assert(a.last() == b.last());
        lemma_rules_map_drop_last(a);
        lemma_rules_map_drop_last(b);
        assert(sorted_prefixes(a.drop_last()));
        assert(sorted_prefixes(b.drop_last()));
        lemma_sorted_same_map(a.drop_last(), b.drop_last());
        assert(a =~= b.drop_last().push(b.last()));
        assert(b =~= b.drop_last().push(b.last()));
    }
}

impl StreamPolicy {
    /// The rule for the stream named `stream_name`: that of the longest
    /// prefix that matches it, or the default rule if none does (see
    /// `lemma_longest_prefix_wins`).
    pub fn stream_rule(&self, stream_name: &StreamName) -> (r: StreamRule)
        ensures
            r == self.rule_for(stream_name@),
    {
        let name = chars_of(stream_name.as_str());
        let rules = &self.prefix_rules_sorted_by_length;
        let mut i: usize = rules.len();
        proof {
            assert(self.rules_view().take(i as int) =~= self.rules_view());
        }
        while i > 0
            invariant
                0 <= i <= rules@.len(),
                rules == &self.prefix_rules_sorted_by_length,
                name@ == stream_name@,
                last_match_rule(self.rules_view(), name@, self.default_view()) == last_match_rule(
                    self.rules_view().take(i as int),
                    name@,
                    self.default_view(),
                ),
            decreases i,
        {
            let ghost rs = self.rules_view().take(i as int);
            proof {
                assert(rs.last() == self.rules_view()[i - 1]);
                assert(rs.drop_last() =~= self.rules_view().take(i - 1));
            }
            if chars_is_prefix(rules[i - 1].prefix.as_slice(), name.as_slice()) {
                return rules[i - 1].stream_state;
            }
            i = i - 1;
        }
        self.default_rule
    }
}

impl Default for StreamPolicy {
    /// The policy that disables events on all streams.
    fn default() -> (r: StreamPolicy)
        ensures
            r.default_view() == StreamRule::Off,
            r.rules_view().len() == 0,
            r.wf(),
    {
        StreamPolicy::off()
    }
}

impl core::str::FromStr for StreamPolicy {
    type Err = ParseStreamFilterError;

    fn from_str(input: &str) -> (r: Result<StreamPolicy, ParseStreamFilterError>)
        ensures
            match r {
                Ok(p) => p.wf() && policy_of(input@) == Ok::<
                    (StreamRule, Map<Seq<char>, StreamRule>),
                    Seq<char>,
                >((p.default_view(), p.prefix_map())),
                Err(e) => policy_of(input@) == Err::<
                    (StreamRule, Map<Seq<char>, StreamRule>),
                    Seq<char>,
                >(e.value()),
            },
    {
        StreamPolicy::parse(input)
    }
}

} // verus!
