//! Which symbol of which library a probe is attached to.
use vstd::prelude::*;

verus! {

/// Whether `s` ends with `pat`.
pub open spec fn ends_with(s: Seq<char>, pat: Seq<char>) -> bool {
    s.len() >= pat.len() && s.subrange(s.len() - pat.len(), s.len() as int) == pat
}

/// `s` with `pat` taken off its end as often as it stands there.
pub open spec fn trimmed(s: Seq<char>, pat: Seq<char>) -> Seq<char>
    decreases s.len(),
{
    if pat.len() > 0 && ends_with(s, pat) {
        trimmed(s.subrange(0, s.len() - pat.len()), pat)
    } else {
        s
    }
}

/// The symbol that the probe named `probe` instruments: the name without
/// its entry marker, and then without its return marker.
pub open spec fn symbol_name(probe: Seq<char>) -> Seq<char> {
    trimmed(trimmed(probe, "_entry"@), "_ret"@)
}

/// Calls `str::trim_end_matches` with a string as the pattern, which
/// removes the pattern from the end of `s` repeatedly, until `s` no longer
/// ends with it. An empty pattern is left out.
#[verifier::external_body]
fn trim_end<'a>(s: &'a str, pat: &str) -> (r: &'a str)
    requires
        pat@.len() > 0,
    ensures
        r@ == trimmed(s@, pat@),
{
    s.trim_end_matches(pat)
}

/// The symbol that the probe named `probe` instruments.
pub fn symbol_of<'a>(probe: &'a str) -> (symbol: &'a str)
    ensures
        symbol@ == symbol_name(probe@),
{
    proof {
        reveal_strlit("_entry");
        reveal_strlit("_ret");
    }
    trim_end(trim_end(probe, "_entry"), "_ret")
}

/// The library that holds the allocation functions: the one chosen, or
/// the system's C library where none was.
pub fn target_library<'a>(chosen: Option<&'a str>) -> (path: &'a str)
    ensures
        path@ == match chosen {
            Some(p) => p@,
            None => "/usr/lib/libc.so.6"@,
        },
{
    match chosen {
        Some(p) => p,
        None => "/usr/lib/libc.so.6",
    }
}

/// A name that carries neither marker is its own symbol, and a symbol
/// carries no return marker.
pub proof fn lemma_symbol_of_plain(probe: Seq<char>)
    ensures
        !ends_with(probe, "_entry"@) && !ends_with(probe, "_ret"@) ==> symbol_name(probe) == probe,
        !ends_with(symbol_name(probe), "_ret"@),
{
    reveal_strlit("_ret");
    lemma_trimmed_has_no_suffix(trimmed(probe, "_entry"@), "_ret"@);
}

/// What is left after trimming no longer ends with the pattern.
pub proof fn lemma_trimmed_has_no_suffix(s: Seq<char>, pat: Seq<char>)
    requires
        pat.len() > 0,
    ensures
        !ends_with(trimmed(s, pat), pat),
    decreases s.len(),
{
    if ends_with(s, pat) {
        lemma_trimmed_has_no_suffix(s.subrange(0, s.len() - pat.len()), pat);
    }
}

} // verus!
