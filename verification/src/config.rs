use vstd::prelude::*;

verus! {

/// The value of a build-time setting, or its default where the setting is absent.
pub fn default_env(v: Option<&'static str>, default: &'static str) -> (r: &'static str)
    ensures
        r == (match v {
            Some(s) => s,
            None => default,
        }),
{
    match v {
        Some(v) => v,
        None => default,
    }
}

} // verus!
