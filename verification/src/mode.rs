//! The two-way behaviour switch resolved once at startup: a reserved leading
//! argument (the batch token, matched without regard to ASCII letter case)
//! selects batch mode and is itself stripped from the passthrough arguments;
//! anything else leaves the invocation interactive.

use vstd::prelude::*;
use vstd::string::StrSliceExecFns;

verus! {

/// How one invocation behaves: prompt for one target, or run every target.
pub enum Mode {
    Interactive,
    Batch,
}

/// Two characters are equal up to ASCII letter case.
pub open spec fn char_eq_ci(a: char, b: char) -> bool {
    ||| a == b
    ||| (65 <= a as u32 <= 90 && a as u32 + 32 == b as u32)
    ||| (65 <= b as u32 <= 90 && b as u32 + 32 == a as u32)
}

/// Two strings are equal up to ASCII letter case.
pub open spec fn str_eq_ci(s: Seq<char>, t: Seq<char>) -> bool {
    s.len() == t.len() && (forall|i: int| 0 <= i < s.len() ==> char_eq_ci(#[trigger] s[i], t[i]))
}

/// The reserved token that switches an invocation to batch mode.
pub open spec fn is_batch_token(s: Seq<char>) -> bool {
    str_eq_ci(s, "all"@)
}

fn char_ci_eq(a: char, b: char) -> (r: bool)
    ensures
        r == char_eq_ci(a, b),
{
    let au = a as u32;
    let bu = b as u32;
    a == b || (65 <= au && au <= 90 && au + 32 == bu) || (65 <= bu && bu <= 90 && bu + 32 == au)
}

fn str_ci_eq(s: &str, t: &str) -> (r: bool)
    ensures
        r == str_eq_ci(s@, t@),
{
    let n = s.unicode_len();
    if n != t.unicode_len() {
        return false;
    }
    let mut i: usize = 0;
    while i < n
        invariant
            0 <= i <= n == s@.len() == t@.len(),
            forall|j: int| 0 <= j < i ==> char_eq_ci(#[trigger] s@[j], t@[j]),
        decreases n - i,
    {
        if !char_ci_eq(s.get_char(i), t.get_char(i)) {
            return false;
        }
        i = i + 1;
    }
    true
}

/// Splits the invocation's arguments into the resolved mode and the
/// passthrough arguments. A leading batch token, in any ASCII letter casing,
/// selects batch mode and is stripped; otherwise the invocation stays
/// interactive and every argument passes through.
pub fn parse_invocation(args: Vec<String>) -> (r: (Mode, Vec<String>))
    ensures
        ({
            if args@.len() > 0 && is_batch_token(args@[0]@) {
                &&& r.0 is Batch
                &&& r.1@ == args@.drop_first()
            } else {
                &&& r.0 is Interactive
                &&& r.1 == args
            }
        }),
{
    let ghost args0 = args@;
    if args.len() > 0 {
        if str_ci_eq(args[0].as_str(), "all") {
            let mut rest = args;
            rest.remove(0);
            proof {
                assert(rest@ =~= args0.drop_first());
            }
            return (Mode::Batch, rest);
        }
    }
    (Mode::Interactive, args)
}

} // verus!
