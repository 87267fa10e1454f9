//! Parsing a secret payload as `KEY=VALUE` lines.
//!
//! The payload is split on newline characters; each line is trimmed, and
//! lines that are blank, comments (`#`), without `=`, or with an empty
//! key are skipped. A line with a later occurrence of a key overwrites
//! an earlier one.

use vstd::prelude::*;
use vstd::string::StrSliceExecFns;
use crate::text::{
    first_non_space, is_space, is_space_char, last_non_space, lemma_first_non_space_bounds,
    lemma_first_non_space_unique, lemma_last_non_space_bounds, lemma_last_non_space_unique,
    lemma_trim_concat, lemma_trim_index_form, trim, trim_str,
};
use crate::env_map::EnvMap;

verus! {

/// The lines of `s`: the segments between newline characters, with the
/// accumulated open segment `cur` in front. Splitting on `'\n'` alone is
/// enough: a carriage return before the newline is whitespace, which the
/// per-line trimming removes.
pub open spec fn lines_acc(s: Seq<char>, cur: Seq<char>) -> Seq<Seq<char>>
    decreases s.len(),
{
    if s.len() == 0 {
        seq![cur]
    } else if s[0] == '\n' {
        seq![cur] + lines_acc(s.drop_first(), Seq::empty())
    } else {
        lines_acc(s.drop_first(), cur.push(s[0]))
    }
}

/// The segments of `s` between newline characters, in order.
pub open spec fn split_lines(s: Seq<char>) -> Seq<Seq<char>> {
    lines_acc(s, Seq::empty())
}

/// The position of the first `'='` in `s`, or `-1` if there is none.
pub open spec fn eq_pos(s: Seq<char>) -> int
    decreases s.len(),
{
    if s.len() == 0 {
        -1
    } else if s[0] == '=' {
        0
    } else if eq_pos(s.drop_first()) == -1 {
        -1
    } else {
        1 + eq_pos(s.drop_first())
    }
}

pub proof fn lemma_eq_pos_found(s: Seq<char>, i: int)
    requires
        0 <= i < s.len(),
        s[i] == '=',
        forall|j: int| 0 <= j < i ==> s[j] != '=',
    ensures
        eq_pos(s) == i,
    decreases i,
{
    if i > 0 {
        lemma_eq_pos_found(s.drop_first(), i - 1);
    }
}

pub proof fn lemma_eq_pos_none(s: Seq<char>)
    requires
        forall|j: int| 0 <= j < s.len() ==> s[j] != '=',
    ensures
        eq_pos(s) == -1,
    decreases s.len(),
{
    if s.len() > 0 {
        lemma_eq_pos_none(s.drop_first());
    }
}

/// What one line contributes: `Some((key, value))` for a well-formed
/// `KEY=VALUE` line, split at the first `=` with key and value trimmed
/// independently; `None` for a line that is blank, a comment, without
/// `=`, or with an empty key.
pub open spec fn parse_line(line: Seq<char>) -> Option<(Seq<char>, Seq<char>)> {
    let t = trim(line);
    if t.len() == 0 {
        None
    } else if t[0] == '#' {
        None
    } else if eq_pos(t) == -1 {
        None
    } else {
        let k = trim(t.take(eq_pos(t)));
        let v = trim(t.skip(eq_pos(t) + 1));
        if k.len() == 0 {
            None
        } else {
            Some((k, v))
        }
    }
}

/// The mapping that a sequence of lines denotes: contributions applied
/// in order, a later line with the same key overwriting an earlier one.
pub open spec fn map_of_lines(ls: Seq<Seq<char>>) -> Map<Seq<char>, Seq<char>>
    decreases ls.len(),
{
    if ls.len() == 0 {
        Map::empty()
    } else {
        let m = map_of_lines(ls.drop_last());
        match parse_line(ls.last()) {
            Some(kv) => m.insert(kv.0, kv.1),
            None => m,
        }
    }
}

/// The mapping that a whole payload denotes.
pub open spec fn payload_map(s: Seq<char>) -> Map<Seq<char>, Seq<char>> {
    map_of_lines(split_lines(s))
}

/// The views of a sequence of string slices.
pub open spec fn seq_views(ls: Seq<&str>) -> Seq<Seq<char>> {
    ls.map_values(|t: &str| t@)
}

/// Split `s` into its lines, the segments between newline characters.
pub fn split_into_lines<'a>(s: &'a str) -> (r: Vec<&'a str>)
    ensures
        seq_views(r@) == split_lines(s@),
{
    let n = s.unicode_len();
    let mut lines: Vec<&'a str> = Vec::new();
    let mut start: usize = 0;
    let mut i: usize = 0;
    proof {
        assert(s@.skip(0) =~= s@);
        assert(s@.subrange(0, 0) =~= Seq::<char>::empty());
        assert(seq_views(lines@) =~= Seq::<Seq<char>>::empty());
        assert(seq_views(lines@) + lines_acc(s@, Seq::<char>::empty()) =~= lines_acc(
            s@,
            Seq::<char>::empty(),
        ));
    }
    while i < n
        invariant
            n == s@.len(),
            start <= i <= n,
            split_lines(s@) == seq_views(lines@) + lines_acc(
                s@.skip(i as int),
                s@.subrange(start as int, i as int),
            ),
        decreases n - i,
    {
        let c = s.get_char(i);
        if c == '\n' {
            let line = s.substring_char(start, i);
            proof {
                let cur = s@.subrange(start as int, i as int);
                let rest = s@.skip(i as int + 1);
                assert(s@.skip(i as int)[0] == '\n');
                assert(s@.skip(i as int).drop_first() =~= rest);
                assert(s@.subrange(i as int + 1, i as int + 1) =~= Seq::<char>::empty());
                assert(lines_acc(s@.skip(i as int), cur) == seq![cur] + lines_acc(
                    rest,
                    Seq::<char>::empty(),
                ));
                assert(seq_views(lines@) + (seq![cur] + lines_acc(rest, Seq::<char>::empty()))
                    =~~= seq_views(lines@.push(line)) + lines_acc(rest, Seq::<char>::empty()));
            }
            lines.push(line);
            start = i + 1;
        } else {
            proof {
                assert(s@.skip(i as int)[0] == s@[i as int]);
                assert(s@.skip(i as int).drop_first() =~= s@.skip(i as int + 1));
                assert(s@.subrange(start as int, i as int).push(s@[i as int]) =~= s@.subrange(
                    start as int,
                    i as int + 1,
                ));
            }
        }
        i = i + 1;
    }
    let last = s.substring_char(start, n);
    proof {
        assert(s@.skip(n as int).len() == 0);
        assert(seq_views(lines@) + seq![s@.subrange(start as int, n as int)] =~~= seq_views(
            lines@.push(last),
        ));
    }
    lines.push(last);
    lines
}

/// How a line is classified during parsing. Only `Pair` contributes an
/// entry; each other variant names why the line was skipped.
pub enum LineOutcome {
    /// A well-formed `KEY=VALUE` line, trimmed key and value.
    Pair(String, String),
    /// Empty or whitespace-only after trimming.
    Blank,
    /// The trimmed line begins with `#`.
    Comment,
    /// The trimmed line holds no `=`.
    NoEquals,
    /// The key before the first `=` is empty after trimming.
    EmptyKey,
}

/// Classify one line and, for a well-formed line, extract its trimmed
/// key and value.
pub fn classify_line(line: &str) -> (r: LineOutcome)
    ensures
        match r {
            LineOutcome::Pair(k, v) => parse_line(line@) == Some((k@, v@)),
            LineOutcome::Blank => parse_line(line@) is None && trim(line@).len() == 0,
            LineOutcome::Comment => parse_line(line@) is None && trim(line@).len() > 0 && trim(
                line@,
            )[0] == '#',
            LineOutcome::NoEquals => parse_line(line@) is None && eq_pos(trim(line@)) == -1,
            LineOutcome::EmptyKey => parse_line(line@) is None && eq_pos(trim(line@)) >= 0 && trim(
                trim(line@).take(eq_pos(trim(line@))),
            ).len() == 0,
        },
{
    let t = trim_str(line);
    let n = t.unicode_len();
    if n == 0 {
        return LineOutcome::Blank;
    }
    if t.get_char(0) == '#' {
        return LineOutcome::Comment;
    }
    let mut i: usize = 0;
    while i < n && t.get_char(i) != '='
        invariant
            n == t@.len(),
            i <= n,
            forall|j: int| 0 <= j < i ==> t@[j] != '=',
        decreases n - i,
    {
        i = i + 1;
    }
    if i == n {
        proof {
            lemma_eq_pos_none(t@);
        }
        return LineOutcome::NoEquals;
    }
    proof {
        lemma_eq_pos_found(t@, i as int);
    }
    let key_part = t.substring_char(0, i);
    let value_part = t.substring_char(i + 1, n);
    proof {
        assert(key_part@ =~= t@.take(i as int));
        assert(value_part@ =~= t@.skip(i as int + 1));
    }
    let key = trim_str(key_part);
    let value = trim_str(value_part);
    if key.unicode_len() == 0 {
        return LineOutcome::EmptyKey;
    }
    LineOutcome::Pair(key.to_owned(), value.to_owned())
}

/// Law: a well-formed `KEY=VALUE` line parses to exactly its trimmed key
/// and trimmed value, independent of the surrounding whitespace of the
/// line. `key` here is everything before the first `=`, so it holds no
/// `=` itself; it must have some non-whitespace content, not beginning
/// with `#`.
pub proof fn lemma_parse_well_formed_line(
    pre: Seq<char>,
    key: Seq<char>,
    value: Seq<char>,
    post: Seq<char>,
)
    requires
        forall|j: int| 0 <= j < pre.len() ==> is_space(#[trigger] pre[j]),
        forall|j: int| 0 <= j < post.len() ==> is_space(#[trigger] post[j]),
        forall|j: int| 0 <= j < key.len() ==> (#[trigger] key[j]) != '=',
        trim(key).len() > 0,
        trim(key)[0] != '#',
    ensures
        parse_line(pre + (key + seq!['='] + value) + post) == Some((trim(key), trim(value))),
{
    let kev = key + seq!['='] + value;
    let kl = key.len() as int;
    lemma_trim_concat(pre, kev, post);
    let t = trim(kev);
    lemma_first_non_space_bounds(key);
    lemma_last_non_space_bounds(key);
    lemma_trim_index_form(key);
    let ak = first_non_space(key);
    let bk = last_non_space(key);
    assert(ak < key.len());
    // the first non-whitespace character of the whole line is key's
    lemma_first_non_space_unique(kev, ak);
    lemma_first_non_space_bounds(value);
    lemma_last_non_space_bounds(value);
    lemma_trim_index_form(value);
    let av = first_non_space(value);
    let bv = last_non_space(value);
    // the last non-whitespace character is value's, or the `=` itself
    let b: int = if av < value.len() {
        kl + 1 + bv
    } else {
        kl
    };
    assert forall|k: int| b < k < kev.len() implies is_space(#[trigger] kev[k]) by {
        assert(kev[k] == value[k - kl - 1]);
    }
    assert(!is_space(kev[b]));
    lemma_last_non_space_unique(kev, b);
    lemma_trim_index_form(kev);
    assert(t == kev.subrange(ak, b + 1));
    assert(t.len() > 0);
    assert(t[0] == key[ak]);
    assert(trim(key) == key.subrange(ak, bk + 1));
    assert(t[0] != '#');
    // the first `=` of the trimmed line is the split point
    let e = kl - ak;
    assert(t[e] == kev[kl]);
    assert forall|j: int| 0 <= j < e implies t[j] != '=' by {
        assert(t[j] == key[ak + j]);
    }
    assert(e < t.len());
    lemma_eq_pos_found(t, e);
    // the key part trims to the trimmed key
    let kp = t.take(e);
    assert(bk >= ak) by {
        if bk < ak {
            assert(is_space(key[ak]));
        }
    }
    assert(!is_space(kp[0]));
    lemma_first_non_space_unique(kp, 0);
    assert forall|k: int| bk - ak < k < kp.len() implies is_space(#[trigger] kp[k]) by {
        assert(kp[k] == key[ak + k]);
    }
    assert(kp[bk - ak] == key[bk]);
    lemma_last_non_space_unique(kp, bk - ak);
    lemma_trim_index_form(kp);
    assert(kp.subrange(0, bk - ak + 1) =~= key.subrange(ak, bk + 1));
    assert(trim(kp) == trim(key));
    // the value part trims to the trimmed value
    let vp = t.skip(e + 1);
    if av < value.len() {
        assert(vp =~= value.take(bv + 1));
        assert(bv >= av) by {
            if bv < av {
                assert(is_space(value[av]));
            }
        }
        assert forall|j: int| 0 <= j < av implies is_space(#[trigger] vp[j]) by {
            assert(vp[j] == value[j]);
        }
        assert(!is_space(vp[av]));
        lemma_first_non_space_unique(vp, av);
        assert(!is_space(vp[vp.len() - 1]));
        lemma_last_non_space_unique(vp, bv);
        lemma_trim_index_form(vp);
        assert(vp.subrange(av, bv + 1) =~= value.subrange(av, bv + 1));
        assert(trim(vp) == trim(value));
    } else {
        assert(vp =~= Seq::<char>::empty());
        lemma_first_non_space_unique(vp, 0);
        lemma_trim_index_form(vp);
        assert(trim(vp) == trim(value));
    }
    assert(parse_line(pre + kev + post) == Some((trim(key), trim(value))));
}

/// Law: a line that is empty, whitespace-only, comment-prefixed, or
/// lacking any `=` contributes nothing.
pub proof fn lemma_line_contributes_nothing(l: Seq<char>)
    requires
        l.len() == 0 || (forall|j: int| 0 <= j < l.len() ==> is_space(#[trigger] l[j])) || (trim(
            l,
        ).len() > 0 && trim(l)[0] == '#') || (forall|j: int|
            0 <= j < l.len() ==> (#[trigger] l[j]) != '='),
    ensures
        parse_line(l) is None,
{
    let t = trim(l);
    if l.len() == 0 || (forall|j: int| 0 <= j < l.len() ==> is_space(#[trigger] l[j])) {
        lemma_first_non_space_unique(l, l.len() as int);
        lemma_trim_index_form(l);
    } else if t.len() > 0 && t[0] == '#' {
    } else {
        // no `=` anywhere in the line, hence none in its trimmed form
        if t.len() > 0 {
            lemma_first_non_space_bounds(l);
            lemma_last_non_space_bounds(l);
            lemma_trim_index_form(l);
            assert forall|j: int| 0 <= j < t.len() implies t[j] != '=' by {
                assert(t[j] == l[first_non_space(l) + j]);
            }
            lemma_eq_pos_none(t);
        }
    }
}

/// Law: removing a line that contributes nothing leaves the mapping of a
/// payload's lines unchanged.
pub proof fn lemma_skipped_line_removed(ls: Seq<Seq<char>>, i: int)
    requires
        0 <= i < ls.len(),
        parse_line(ls[i]) is None,
    ensures
        map_of_lines(ls) == map_of_lines(ls.remove(i)),
    decreases ls.len(),
{
    if i == ls.len() - 1 {
        assert(ls.remove(i) =~= ls.drop_last());
    } else {
        lemma_skipped_line_removed(ls.drop_last(), i);
        assert(ls.remove(i).drop_last() =~= ls.drop_last().remove(i));
        assert(ls.remove(i).last() == ls.last());
    }
}

/// Law: on a duplicate key, the mapping holds the value of the last line
/// that contributes that key.
pub proof fn lemma_last_occurrence_wins(ls: Seq<Seq<char>>, i: int, k: Seq<char>, v: Seq<char>)
    requires
        0 <= i < ls.len(),
        parse_line(ls[i]) == Some((k, v)),
        forall|j: int| i < j < ls.len() ==> ((#[trigger] parse_line(ls[j])) matches Some(kv)
            ==> kv.0 != k),
    ensures
        map_of_lines(ls).contains_key(k),
        map_of_lines(ls)[k] == v,
    decreases ls.len(),
{
    if i < ls.len() - 1 {
        lemma_last_occurrence_wins(ls.drop_last(), i, k, v);
        assert(parse_line(ls.last()) matches Some(kv) ==> kv.0 != k);
    }
}

/// Law: the parsed mapping depends on the payload alone, so two runs on
/// the same (stable) credential-command output parse to the same
/// mapping.
pub proof fn lemma_parse_deterministic(s1: Seq<char>, s2: Seq<char>)
    requires
        s1 == s2,
    ensures
        payload_map(s1) == payload_map(s2),
{
}

/// Parse a payload into its environment-variable mapping. Lines that are
/// blank, comments, without `=`, or with an empty key contribute
/// nothing; on a duplicate key the last line wins. Keys are not held to
/// environment-variable naming rules: any non-empty trimmed text before
/// the first `=` is a key, passed through as-is.
pub fn parse_env_vars(content: &str) -> (r: EnvMap)
    ensures
        r@ == payload_map(content@),
{
    let lines = split_into_lines(content);
    let n = lines.len();
    let mut m = EnvMap::new();
    let mut i: usize = 0;
    while i < n
        invariant
            n == lines@.len(),
            i <= n,
            seq_views(lines@) == split_lines(content@),
            m@ == map_of_lines(seq_views(lines@).take(i as int)),
        decreases n - i,
    {
        let outcome = classify_line(lines[i]);
        proof {
            assert(seq_views(lines@).take(i as int + 1).drop_last() =~= seq_views(lines@).take(
                i as int,
            ));
            assert(seq_views(lines@).take(i as int + 1).last() == lines@[i as int]@);
        }
        match outcome {
            LineOutcome::Pair(k, v) => {
                m.insert(k, v);
            },
            _ => {},
        }
        i = i + 1;
    }
    proof {
        assert(seq_views(lines@).take(n as int) =~= seq_views(lines@));
    }
    m
}

} // verus!
