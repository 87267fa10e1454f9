//! Character classification and whitespace trimming over character
//! sequences, with executable counterparts proved against the
//! sequence-level specifications.

use vstd::prelude::*;
use vstd::string::StrSliceExecFns;

verus! {

/// A character counts as whitespace exactly when it has the Unicode
/// `White_Space` property, the set that surrounding-whitespace trimming
/// removes.
pub open spec fn is_space(c: char) -> bool {
    let u = c as u32;
    (0x09 <= u && u <= 0x0D) || u == 0x20 || u == 0x85 || u == 0xA0 || u == 0x1680
        || (0x2000 <= u && u <= 0x200A) || u == 0x2028 || u == 0x2029 || u == 0x202F
        || u == 0x205F || u == 0x3000
}

/// Executable whitespace test, equal to `is_space`.
pub fn is_space_char(c: char) -> (r: bool)
    ensures
        r == is_space(c),
{
    let u = c as u32;
    (0x09 <= u && u <= 0x0D) || u == 0x20 || u == 0x85 || u == 0xA0 || u == 0x1680
        || (0x2000 <= u && u <= 0x200A) || u == 0x2028 || u == 0x2029 || u == 0x202F
        || u == 0x205F || u == 0x3000
}

/// The sequence with its leading whitespace removed.
pub open spec fn trim_start(s: Seq<char>) -> Seq<char>
    decreases s.len(),
{
    if s.len() > 0 && is_space(s[0]) {
        trim_start(s.drop_first())
    } else {
        s
    }
}

/// The sequence with its trailing whitespace removed.
pub open spec fn trim_end(s: Seq<char>) -> Seq<char>
    decreases s.len(),
{
    if s.len() > 0 && is_space(s.last()) {
        trim_end(s.drop_last())
    } else {
        s
    }
}

/// The sequence with surrounding whitespace removed.
pub open spec fn trim(s: Seq<char>) -> Seq<char> {
    trim_end(trim_start(s))
}

/// If the first `i` characters are whitespace and character `i` (when it
/// exists) is not, trimming the front yields the suffix from `i` on.
pub proof fn lemma_trim_start_at(s: Seq<char>, i: int)
    requires
        0 <= i <= s.len(),
        forall|j: int| 0 <= j < i ==> is_space(#[trigger] s[j]),
        i < s.len() ==> !is_space(s[i]),
    ensures
        trim_start(s) == s.skip(i),
    decreases i,
{
    if i == 0 {
        assert(trim_start(s) == s.skip(0)) by {
            assert(s.skip(0) =~= s);
        }
    } else {
        assert(is_space(s[0]));
        lemma_trim_start_at(s.drop_first(), i - 1);
        assert(s.drop_first().skip(i - 1) =~= s.skip(i));
    }
}

/// If the characters after position `j` are whitespace and character `j`
/// (when `j >= 0`) is not, trimming the back yields the prefix through `j`.
pub proof fn lemma_trim_end_at(s: Seq<char>, j: int)
    requires
        -1 <= j < s.len(),
        forall|k: int| j < k < s.len() ==> is_space(#[trigger] s[k]),
        j >= 0 ==> !is_space(s[j]),
    ensures
        trim_end(s) == s.take(j + 1),
    decreases s.len() - j,
{
    if j == s.len() - 1 {
        assert(s.take(j + 1) =~= s);
    } else {
        assert(is_space(s.last()));
        lemma_trim_end_at(s.drop_last(), j);
        assert(s.drop_last().take(j + 1) =~= s.take(j + 1));
    }
}

/// The position of the first non-whitespace character of `s`, or
/// `s.len()` if every character is whitespace.
pub open spec fn first_non_space(s: Seq<char>) -> int
    decreases s.len(),
{
    if s.len() == 0 {
        0
    } else if is_space(s[0]) {
        1 + first_non_space(s.drop_first())
    } else {
        0
    }
}

/// The position of the last non-whitespace character of `s`, or `-1` if
/// every character is whitespace.
pub open spec fn last_non_space(s: Seq<char>) -> int
    decreases s.len(),
{
    if s.len() == 0 {
        -1
    } else if is_space(s.last()) {
        last_non_space(s.drop_last())
    } else {
        s.len() - 1
    }
}

/// `first_non_space` is the unique boundary between a whitespace prefix
/// and a non-whitespace character (or the end).
pub proof fn lemma_first_non_space_unique(s: Seq<char>, i: int)
    requires
        0 <= i <= s.len(),
        forall|j: int| 0 <= j < i ==> is_space(#[trigger] s[j]),
        i < s.len() ==> !is_space(s[i]),
    ensures
        first_non_space(s) == i,
    decreases i,
{
    if i > 0 {
        lemma_first_non_space_unique(s.drop_first(), i - 1);
    }
}

/// `last_non_space` is the unique boundary between a non-whitespace
/// character (or the start) and a whitespace tail.
pub proof fn lemma_last_non_space_unique(s: Seq<char>, i: int)
    requires
        -1 <= i < s.len(),
        forall|k: int| i < k < s.len() ==> is_space(#[trigger] s[k]),
        i >= 0 ==> !is_space(s[i]),
    ensures
        last_non_space(s) == i,
    decreases s.len() - i,
{
    if i < s.len() - 1 {
        lemma_last_non_space_unique(s.drop_last(), i);
    }
}

pub proof fn lemma_first_non_space_bounds(s: Seq<char>)
    ensures
        0 <= first_non_space(s) <= s.len(),
        forall|j: int| 0 <= j < first_non_space(s) ==> is_space(#[trigger] s[j]),
        first_non_space(s) < s.len() ==> !is_space(s[first_non_space(s)]),
    decreases s.len(),
{
    if s.len() > 0 && is_space(s[0]) {
        lemma_first_non_space_bounds(s.drop_first());
        assert forall|j: int| 0 <= j < first_non_space(s) implies is_space(#[trigger] s[j]) by {
            if j > 0 {
                assert(is_space(s.drop_first()[j - 1]));
            }
        }
    }
}

pub proof fn lemma_last_non_space_bounds(s: Seq<char>)
    ensures
        -1 <= last_non_space(s) < s.len(),
        forall|k: int| last_non_space(s) < k < s.len() ==> is_space(#[trigger] s[k]),
        last_non_space(s) >= 0 ==> !is_space(s[last_non_space(s)]),
    decreases s.len(),
{
    if s.len() > 0 && is_space(s.last()) {
        lemma_last_non_space_bounds(s.drop_last());
        assert forall|k: int| last_non_space(s) < k < s.len() implies is_space(
            #[trigger] s[k],
        ) by {
            if k < s.len() - 1 {
                assert(is_space(s.drop_last()[k]));
            }
        }
    }
}

/// Trimming in terms of positions: the subsequence from the first to the
/// last non-whitespace character, or empty when there is none.
pub proof fn lemma_trim_index_form(s: Seq<char>)
    ensures
        first_non_space(s) == s.len() ==> trim(s) == Seq::<char>::empty(),
        first_non_space(s) < s.len() ==> last_non_space(s) >= first_non_space(s) && trim(s)
            == s.subrange(first_non_space(s), last_non_space(s) + 1),
{
    lemma_first_non_space_bounds(s);
    lemma_last_non_space_bounds(s);
    let a = first_non_space(s);
    let b = last_non_space(s);
    if a == s.len() {
        lemma_trim_start_at(s, a);
        assert(s.skip(a) =~= Seq::<char>::empty());
    } else {
        assert(b >= a) by {
            if b < a {
                assert(is_space(s[a]));
            }
        }
        lemma_trim_start_at(s, a);
        lemma_trim_end_at(s.skip(a), b - a);
        assert(s.skip(a).take(b - a + 1) =~= s.subrange(a, b + 1));
    }
}

/// Surrounding whitespace does not matter to trimming: wrapping a
/// sequence in whitespace leaves its trimmed form unchanged.
pub proof fn lemma_trim_concat(pre: Seq<char>, l: Seq<char>, post: Seq<char>)
    requires
        forall|j: int| 0 <= j < pre.len() ==> is_space(#[trigger] pre[j]),
        forall|j: int| 0 <= j < post.len() ==> is_space(#[trigger] post[j]),
    ensures
        trim(pre + l + post) == trim(l),
{
    let t = pre + l + post;
    let p = pre.len() as int;
    lemma_first_non_space_bounds(l);
    lemma_last_non_space_bounds(l);
    lemma_trim_index_form(l);
    lemma_trim_index_form(t);
    let a = first_non_space(l);
    let b = last_non_space(l);
    if a == l.len() {
        // every character of l, hence of t, is whitespace
        assert forall|j: int| 0 <= j < t.len() implies is_space(#[trigger] t[j]) by {
            if j < p {
                assert(is_space(pre[j]));
            } else if j < p + l.len() {
                assert(is_space(l[j - p]));
            } else {
                assert(is_space(post[j - p - l.len()]));
            }
        }
        lemma_first_non_space_unique(t, t.len() as int);
    } else {
        assert forall|j: int| 0 <= j < p + a implies is_space(#[trigger] t[j]) by {
            if j < p {
                assert(is_space(pre[j]));
            } else {
                assert(is_space(l[j - p]));
            }
        }
        assert(t[p + a] == l[a]);
        lemma_first_non_space_unique(t, p + a);
        assert forall|k: int| p + b < k < t.len() implies is_space(#[trigger] t[k]) by {
            if k < p + l.len() {
                assert(is_space(l[k - p]));
            } else {
                assert(is_space(post[k - p - l.len()]));
            }
        }
        assert(t[p + b] == l[b]);
        lemma_last_non_space_unique(t, p + b);
        assert(t.subrange(p + a, p + b + 1) =~= l.subrange(a, b + 1));
    }
}

/// Remove the surrounding whitespace of `s`, as `trim` describes.
pub fn trim_str<'a>(s: &'a str) -> (r: &'a str)
    ensures
        r@ == trim(s@),
{
    let n = s.unicode_len();
    let mut a: usize = 0;
    while a < n && is_space_char(s.get_char(a))
        invariant
            n == s@.len(),
            a <= n,
            forall|j: int| 0 <= j < a ==> is_space(#[trigger] s@[j]),
        decreases n - a,
    {
        a = a + 1;
    }
    if a == n {
        proof {
            lemma_trim_start_at(s@, a as int);
            assert(trim_start(s@) =~= Seq::<char>::empty());
        }
        return s.substring_char(n, n);
    }
    let mut b: usize = n;
    while b > a + 1 && is_space_char(s.get_char(b - 1))
        invariant
            n == s@.len(),
            a < b <= n,
            a < n,
            !is_space(s@[a as int]),
            forall|k: int| b <= k < n ==> is_space(#[trigger] s@[k]),
        decreases b,
    {
        b = b - 1;
    }
    proof {
        lemma_trim_start_at(s@, a as int);
        let t = s@.skip(a as int);
        if is_space(s@[b - 1]) {
            // only possible when b == a + 1, and s@[a] is not whitespace
            assert(false);
        }
        lemma_trim_end_at(t, b - 1 - a);
        assert(t.take(b - a) =~= s@.subrange(a as int, b as int));
    }
    s.substring_char(a, b)
}

} // verus!
