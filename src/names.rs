//! Name sanitization for generated module and repository names.
use vstd::prelude::*;
use crate::text::{chars_of, string_of};

verus! {

/// `s` with every `from` replaced by `to`.
pub open spec fn swap_char(s: Seq<char>, from: char, to: char) -> Seq<char> {
    s.map_values(|c: char| if c == from { to } else { c })
}

fn swap_chars(s: &str, from: char, to: char) -> (r: String)
    ensures
        r@ == swap_char(s@, from, to),
{
    let cs = chars_of(s);
    let mut out: Vec<char> = Vec::new();
    let mut i: usize = 0;
    while i < cs.len()
        invariant
            i <= cs@.len(),
            cs@ == s@,
            out@ == swap_char(s@.subrange(0, i as int), from, to),
        decreases cs@.len() - i,
    {
        if cs[i] == from {
            out.push(to);
        } else {
            out.push(cs[i]);
        }
        i = i + 1;
        assert(out@ =~= swap_char(s@.subrange(0, i as int), from, to));
    }
    assert(s@.subrange(0, i as int) =~= s@);
    string_of(&out)
}

/// A valid module name: every `-` becomes `_`.
pub fn sanitize_module_name(name: &str) -> (r: String)
    ensures
        r@ == swap_char(name@, '-', '_'),
{
    swap_chars(name, '-', '_')
}

/// A valid repository name: every `+` (as in version build metadata) becomes `-`.
pub fn sanitize_repository_name(name: &str) -> (r: String)
    ensures
        r@ == swap_char(name@, '+', '-'),
{
    swap_chars(name, '+', '-')
}

/// Replacing a character by a different one is idempotent, so both
/// sanitizers give the same result when applied twice as when applied once.
pub proof fn lemma_sanitize_idempotent(s: Seq<char>, from: char, to: char)
    requires
        from != to,
    ensures
        swap_char(swap_char(s, from, to), from, to) == swap_char(s, from, to),
{
    assert(swap_char(swap_char(s, from, to), from, to) =~= swap_char(s, from, to));
}

/// Sanitizing a module name twice gives the once-sanitized name.
pub proof fn lemma_module_name_idempotent(name: Seq<char>)
    ensures
        swap_char(swap_char(name, '-', '_'), '-', '_') == swap_char(name, '-', '_'),
{
    lemma_sanitize_idempotent(name, '-', '_');
}

/// Sanitizing a repository name twice gives the once-sanitized name.
pub proof fn lemma_repository_name_idempotent(name: Seq<char>)
    ensures
        swap_char(swap_char(name, '+', '-'), '+', '-') == swap_char(name, '+', '-'),
{
    lemma_sanitize_idempotent(name, '+', '-');
}

} // verus!
