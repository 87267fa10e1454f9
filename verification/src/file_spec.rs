//! Splitting a file-mode specification `NAME` or `NAME.EXT` into the
//! environment-variable name and the optional temporary-file suffix.
//!
//! The split is at the last `.`: when the part before it is non-empty it
//! is the name and the rest (dot included) is the suffix; otherwise —
//! no dot at all, or a dot first (as in `.env`) — the whole
//! specification is the name and no suffix is applied.

use vstd::prelude::*;
use vstd::string::StrSliceExecFns;
use crate::errors::WrapperError;

verus! {

/// The position of the last `.` in `s`, or `-1` if there is none.
pub open spec fn last_dot(s: Seq<char>) -> int
    decreases s.len(),
{
    if s.len() == 0 {
        -1
    } else if s.last() == '.' {
        s.len() - 1
    } else {
        last_dot(s.drop_last())
    }
}

/// The derived environment-variable name of a specification.
pub open spec fn spec_var_name(s: Seq<char>) -> Seq<char> {
    if last_dot(s) > 0 {
        s.take(last_dot(s))
    } else {
        s
    }
}

/// The derived filename suffix of a specification, dot included.
pub open spec fn spec_suffix(s: Seq<char>) -> Option<Seq<char>> {
    if last_dot(s) > 0 {
        Some(s.skip(last_dot(s)))
    } else {
        None
    }
}

pub proof fn lemma_last_dot_found(s: Seq<char>, i: int)
    requires
        0 <= i < s.len(),
        s[i] == '.',
        forall|k: int| i < k < s.len() ==> s[k] != '.',
    ensures
        last_dot(s) == i,
    decreases s.len(),
{
    if i < s.len() - 1 {
        lemma_last_dot_found(s.drop_last(), i);
    }
}

pub proof fn lemma_last_dot_none(s: Seq<char>)
    requires
        forall|k: int| 0 <= k < s.len() ==> s[k] != '.',
    ensures
        last_dot(s) == -1,
    decreases s.len(),
{
    if s.len() > 0 {
        lemma_last_dot_none(s.drop_last());
    }
}

/// Law: for a specification `NAME.EXT` with non-empty `NAME` (and no
/// further `.` in `EXT`), the derived variable name is exactly `NAME`
/// and the suffix is exactly `.EXT`.
pub proof fn lemma_split_with_extension(name: Seq<char>, ext: Seq<char>)
    requires
        name.len() > 0,
        forall|k: int| 0 <= k < ext.len() ==> (#[trigger] ext[k]) != '.',
    ensures
        spec_var_name(name + seq!['.'] + ext) == name,
        spec_suffix(name + seq!['.'] + ext) == Some(seq!['.'] + ext),
{
    let s = name + seq!['.'] + ext;
    let d = name.len() as int;
    assert(s[d] == '.');
    assert forall|k: int| d < k < s.len() implies s[k] != '.' by {
        assert(s[k] == ext[k - d - 1]);
    }
    lemma_last_dot_found(s, d);
    assert(s.take(d) =~= name);
    assert(s.skip(d) =~= seq!['.'] + ext);
}

/// Law: a specification without any `.` is kept whole as the variable
/// name, with no suffix.
pub proof fn lemma_split_no_dot(s: Seq<char>)
    requires
        forall|k: int| 0 <= k < s.len() ==> (#[trigger] s[k]) != '.',
    ensures
        spec_var_name(s) == s,
        spec_suffix(s) is None,
{
    lemma_last_dot_none(s);
}

/// Law: a specification whose only `.` leads (as in `.env`) has an empty
/// segment before its last dot, so the whole specification is the
/// variable name and no suffix is applied.
pub proof fn lemma_split_leading_dot(s: Seq<char>)
    requires
        s.len() > 0,
        s[0] == '.',
        forall|k: int| 1 <= k < s.len() ==> (#[trigger] s[k]) != '.',
    ensures
        spec_var_name(s) == s,
        spec_suffix(s) is None,
{
    lemma_last_dot_found(s, 0);
}

/// A file-mode specification, split: the environment-variable name that
/// will point the child at the staged file, and the optional suffix the
/// temporary file's name must carry.
pub struct FileSpec {
    pub name: String,
    pub suffix: Option<String>,
}

/// Split a file-mode specification. Fails with `ConfigError` exactly
/// when the derived name is empty, which happens only on an empty
/// specification: a leading-dot-only specification such as `.env` is
/// kept whole as the name.
pub fn split_file_spec(spec: &str) -> (r: Result<FileSpec, WrapperError>)
    ensures
        r is Err <==> spec@.len() == 0,
        r matches Err(e) ==> e matches WrapperError::ConfigError,
        r matches Ok(f) ==> f.name@ == spec_var_name(spec@) && f.name@.len() > 0,
        r matches Ok(f) ==> match f.suffix {
            Some(x) => spec_suffix(spec@) matches Some(y) && x@ == y,
            None => spec_suffix(spec@) is None,
        },
{
    let n = spec.unicode_len();
    if n == 0 {
        return Err(WrapperError::ConfigError);
    }
    let mut j: usize = n;
    while j > 0 && spec.get_char(j - 1) != '.'
        invariant
            n == spec@.len(),
            j <= n,
            forall|k: int| j <= k < n ==> spec@[k] != '.',
        decreases j,
    {
        j = j - 1;
    }
    if j <= 1 {
        // no dot at all, or only a leading dot: the whole specification
        // is the name
        proof {
            if j == 0 {
                lemma_last_dot_none(spec@);
            } else {
                lemma_last_dot_found(spec@, 0);
            }
        }
        Ok(FileSpec { name: spec.to_owned(), suffix: None })
    } else {
        proof {
            lemma_last_dot_found(spec@, j - 1);
            assert(spec@.take(j - 1) =~= spec@.subrange(0, j - 1));
            assert(spec@.skip(j - 1) =~= spec@.subrange(j - 1, n as int));
        }
        let name = s_sub(spec, 0, j - 1);
        let suffix = s_sub(spec, j - 1, n);
        Ok(FileSpec { name, suffix: Some(suffix) })
    }
}

/// The characters of `s` from `from` to `to`, as an owned string.
fn s_sub(s: &str, from: usize, to: usize) -> (r: String)
    requires
        from <= to <= s@.len(),
    ensures
        r@ == s@.subrange(from as int, to as int),
{
    s.substring_char(from, to).to_owned()
}

} // verus!
