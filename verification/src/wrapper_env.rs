//! Building the final environment handed to the child process: the
//! fixed wrapper-identity variables, overlaid with either the parsed
//! pairs (parsed mode) or the one file-path variable (file mode).

use vstd::prelude::*;
use vstd::string::StringExecFns;
use crate::env_map::EnvMap;

verus! {

/// The fixed wrapper-identity variables: the wrapper's version, the
/// secret identifier that was fetched, and — only with verbose
/// diagnostics on — a debug marker.
pub open spec fn base_env(version: Seq<char>, note: Seq<char>, debug: bool) -> Map<
    Seq<char>,
    Seq<char>,
> {
    let m = Map::<Seq<char>, Seq<char>>::empty().insert("RBWCHAIN_VERSION"@, version).insert(
        "RBWCHAIN_SECRET_NOTE"@,
        note,
    );
    if debug {
        m.insert("RBWCHAIN_DEBUG"@, "1"@)
    } else {
        m
    }
}

fn insert_base(m: &mut EnvMap, version: &str, secret_note: &str, debug_enabled: bool)
    ensures
        final(m)@ == old(m)@.union_prefer_right(
            base_env(version@, secret_note@, debug_enabled),
        ),
{
    m.insert(String::from_str("RBWCHAIN_VERSION"), String::from_str(version));
    m.insert(String::from_str("RBWCHAIN_SECRET_NOTE"), String::from_str(secret_note));
    if debug_enabled {
        m.insert(String::from_str("RBWCHAIN_DEBUG"), String::from_str("1"));
    }
    proof {
        assert(m@ =~= old(m)@.union_prefer_right(base_env(version@, secret_note@, debug_enabled)));
    }
}

/// The environment of parsed mode: the wrapper-identity variables,
/// overlaid with the parsed pairs — the parsed pairs win on a shared
/// name.
pub fn build_final_env(
    version: &str,
    secret_note: &str,
    debug_enabled: bool,
    parsed: &EnvMap,
) -> (r: EnvMap)
    ensures
        r@ == base_env(version@, secret_note@, debug_enabled).union_prefer_right(parsed@),
{
    let mut m = EnvMap::new();
    insert_base(&mut m, version, secret_note, debug_enabled);
    proof {
        assert(m@ =~= base_env(version@, secret_note@, debug_enabled));
    }
    m.extend(parsed);
    m
}

/// The environment of file mode: the wrapper-identity variables, plus
/// the derived variable name pointing at the staged file's path — the
/// file-path variable wins on a shared name.
pub fn build_file_env(
    version: &str,
    secret_note: &str,
    debug_enabled: bool,
    var_name: &str,
    path: &str,
) -> (r: EnvMap)
    ensures
        r@ == base_env(version@, secret_note@, debug_enabled).insert(var_name@, path@),
{
    let mut m = EnvMap::new();
    insert_base(&mut m, version, secret_note, debug_enabled);
    proof {
        assert(m@ =~= base_env(version@, secret_note@, debug_enabled));
    }
    m.insert(String::from_str(var_name), String::from_str(path));
    m
}

} // verus!
