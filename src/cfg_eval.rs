//! Cfg predicate strings (`cfg(all(unix, tokio_unstable))`), parsed and
//! evaluated by the `cfg-expr` crate against a set of requested flag names.
use vstd::prelude::*;
use crate::text::{chars_of, same_chars};

verus! {

/// `cfg_expr::Expression`, a parsed cfg expression, carried opaquely.
#[verifier::external_type_specification]
#[verifier::external_body]
pub struct ExExpression(cfg_expr::Expression);

/// `cfg_expr::ParseError`, the parser's error, carried opaquely.
#[verifier::external_type_specification]
#[verifier::external_body]
pub struct ExParseError(cfg_expr::ParseError);

/// Whether `cfg-expr` accepts `text` as a cfg expression.
pub uninterp spec fn cfg_parses(text: Seq<char>) -> bool;

/// The value of the cfg expression parsed from `text` when each bare flag
/// leaf is true exactly if its name is in `flags`, and every other leaf
/// (target, feature, key-value) is false.
pub uninterp spec fn cfg_holds(text: Seq<char>, flags: Set<Seq<char>>) -> bool;

/// The most `(` that one bracket group of a predicate may hold directly.
/// The parser counts the `all`, `any` and `not` calls placed directly inside
/// one call in a `u8`, bumped at each call's name before its `(` is read;
/// staying below 255 keeps that count from overflowing.
pub const MAX_SIBLING_CALLS: usize = 254;

/// One step of the bracket scan: the counts of `(` held directly by each
/// open group (innermost last) and whether a quoted value is open; `None`
/// once some group would exceed `MAX_SIBLING_CALLS`. Brackets inside quotes
/// do not count, as the parser reads a quoted value up to the next `"`.
pub open spec fn paren_step(st: Option<(Seq<int>, bool)>, c: char) -> Option<(Seq<int>, bool)> {
    match st {
        None => None,
        Some((stack, quoted)) => if quoted {
            Some((stack, c != '"'))
        } else if c == '"' {
            Some((stack, true))
        } else if c == '(' {
            if stack.len() > 0 && stack.last() >= MAX_SIBLING_CALLS {
                None
            } else if stack.len() > 0 {
                Some((stack.update(stack.len() - 1, stack.last() + 1).push(0), false))
            } else {
                Some((stack.push(0), false))
            }
        } else if c == ')' {
            Some((if stack.len() > 0 { stack.drop_last() } else { stack }, false))
        } else {
            Some((stack, false))
        },
    }
}

/// The bracket scan over all of `s`.
pub open spec fn paren_scan(s: Seq<char>) -> Option<(Seq<int>, bool)>
    decreases s.len(),
{
    if s.len() == 0 {
        Some((seq![], false))
    } else {
        paren_step(paren_scan(s.drop_last()), s.last())
    }
}

/// No bracket group of `s` holds more than `MAX_SIBLING_CALLS` `(` directly.
pub open spec fn nesting_fits(s: Seq<char>) -> bool {
    paren_scan(s) is Some
}

/// Whether `text` passes the bracket scan.
pub fn check_nesting(text: &str) -> (r: bool)
    ensures
        r == nesting_fits(text@),
{
    let cs = chars_of(text);
    let mut stack: Vec<usize> = Vec::new();
    let mut quoted = false;
    let mut i: usize = 0;
    assert(stack@.map_values(|x: usize| x as int) =~= Seq::<int>::empty());
    while i < cs.len()
        invariant
            i <= cs@.len(),
            cs@ == text@,
            paren_scan(text@.subrange(0, i as int)) == Some((stack@.map_values(|x: usize| x as int), quoted)),
            forall|j: int| 0 <= j < stack@.len() ==> stack@[j] <= MAX_SIBLING_CALLS,
            stack@.len() <= i,
        decreases cs@.len() - i,
    {
        let ghost sub = text@.subrange(0, i + 1);
        assert(sub.drop_last() =~= text@.subrange(0, i as int));
        assert(sub.last() == cs@[i as int]);
        let ghost before = stack@.map_values(|x: usize| x as int);
        let c = cs[i];
        if quoted {
            quoted = c != '"';
        } else if c == '"' {
            quoted = true;
        } else if c == '(' {
            let n = stack.len();
            if n > 0 {
                let top = stack[n - 1];
                if top >= MAX_SIBLING_CALLS {
                    let mut j: usize = i + 1;
                    while j < cs.len()
                        invariant
                            i < j <= cs@.len(),
                            cs@ == text@,
                            paren_scan(text@.subrange(0, j as int)) is None,
                        decreases cs@.len() - j,
                    {
                        assert(text@.subrange(0, j + 1).drop_last() =~= text@.subrange(0, j as int));
                        j = j + 1;
                    }
                    assert(text@.subrange(0, j as int) =~= text@);
                    return false;
                }
                stack.set(n - 1, top + 1);
            }
            stack.push(0);
            assert(stack@.map_values(|x: usize| x as int) =~= (if n > 0 {
                before.update(n - 1, before.last() + 1)
            } else {
                before
            }).push(0));
        } else if c == ')' {
            if stack.len() > 0 {
                stack.pop();
                assert(stack@.map_values(|x: usize| x as int) =~= before.drop_last());
            }
        }
        i = i + 1;
    }
    assert(text@.subrange(0, i as int) =~= text@);
    true
}

/// Whether a leaf is true: a bare flag (`Some(name)`) exactly when `flags`
/// holds its name; any other leaf (target, feature, key-value) never.
pub fn leaf_holds(flags: &Vec<String>, flag: Option<&str>) -> (r: bool)
    ensures
        r == match flag {
            Some(f) => flag_set(flags@).contains(f@),
            None => false,
        },
{
    match flag {
        Some(f) => contains_flag(flags, f),
        None => false,
    }
}

/// Relies on `cfg_expr::Expression::parse`: it succeeds exactly on the
/// strings that it accepts as cfg expressions.
pub assume_specification[ cfg_expr::Expression::parse ](original: &str) -> (r: Result<
    cfg_expr::Expression,
    cfg_expr::ParseError,
>)
    requires
        nesting_fits(original@),
    ensures
        r is Ok <==> cfg_parses(original@),
;

/// The names held in `flags`, as a set.
pub open spec fn flag_set(flags: Seq<String>) -> Set<Seq<char>> {
    flags.map_values(|s: String| s@).to_set()
}

/// A cfg expression together with the text it was parsed from.
pub struct CfgPredicate {
    expr: cfg_expr::Expression,
    text: Ghost<Seq<char>>,
}

impl CfgPredicate {
    /// The text this predicate was parsed from.
    pub closed spec fn source(&self) -> Seq<char> {
        self.text@
    }

    /// Parses `text`; `None` where `cfg-expr` rejects it (for example a bare
    /// target triple such as `x86_64-unknown-linux-gnu`) and where a bracket
    /// group holds more than `MAX_SIBLING_CALLS` calls directly.
    pub fn parse(text: &str) -> (r: Option<CfgPredicate>)
        ensures
            r is Some <==> nesting_fits(text@) && cfg_parses(text@),
            r matches Some(p) ==> p.source() == text@,
    {
        if !check_nesting(text) {
            return None;
        }
        match cfg_expr::Expression::parse(text) {
            Ok(expr) => Some(CfgPredicate { expr, text: Ghost(text@) }),
            Err(_) => None,
        }
    }

    /// Evaluates the predicate with each bare flag true exactly when `flags`
    /// holds its name.
    pub fn holds_for_flags(&self, flags: &Vec<String>) -> (r: bool)
        ensures
            r == cfg_holds(self.source(), flag_set(flags@)),
    {
        eval_with_flags(self, flags)
    }
}

/// Whether `flags` holds the name `f`.
pub fn contains_flag(flags: &Vec<String>, f: &str) -> (r: bool)
    ensures
        r == flag_set(flags@).contains(f@),
{
    let fc = chars_of(f);
    let mut i: usize = 0;
    while i < flags.len()
        invariant
            i <= flags@.len(),
            fc@ == f@,
            forall|j: int| 0 <= j < i ==> flags@[j]@ != f@,
        decreases flags@.len() - i,
    {
        let c = chars_of(flags[i].as_str());
        if same_chars(&c, &fc) {
            assert(flags@.map_values(|s: String| s@)[i as int] == f@);
            return true;
        }
        i = i + 1;
    }
    assert(!flags@.map_values(|s: String| s@).contains(f@));
    false
}

/// Relies on `cfg_expr::Expression::eval`: it combines the leaf values that
/// the closure gives through the expression's `all`, `any` and `not`. The
/// closure only tells a bare flag from other leaves and asks `leaf_holds`.
#[verifier::external_body]
fn eval_with_flags(p: &CfgPredicate, flags: &Vec<String>) -> (r: bool)
    ensures
        r == cfg_holds(p.source(), flag_set(flags@)),
{
    p.expr.eval(
        |pred|
            leaf_holds(
                flags,
                match pred {
                    cfg_expr::Predicate::Flag(f) => Some(*f),
                    _ => None,
                },
            ),
    )
}

} // verus!
