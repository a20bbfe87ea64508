//! Receiving-side file names.
//!
//! An incoming file is written under its announced base name. If that name
//! is already taken, the receiver retries with a numeric suffix inserted
//! before the extension — `name(1).ext`, `name(2).ext`, and so on — trying a
//! bounded number of alternatives before giving up. Distinct attempts always
//! yield distinct names, so two files sent under one base name end up as two
//! files on disk.

use vstd::arithmetic::div_mod::lemma_fundamental_div_mod;
use vstd::prelude::*;
use vstd::slice::{slice_subrange, slice_to_vec};

verus! {

/// How many alternative names are tried before the transfer is given up.
pub const MAX_NAME_ATTEMPTS: u64 = 99;

/// The decimal digits of `n`, as ASCII bytes, most significant first.
pub open spec fn spec_digits(n: u64) -> Seq<u8>
    decreases n,
{
    if n < 10 {
        seq![(48 + n) as u8]
    } else {
        spec_digits(n / 10).push((48 + n % 10) as u8)
    }
}

/// The index of the last dot in `s`, or `-1` when there is none: where the
/// extension begins.
pub open spec fn spec_last_dot(s: Seq<u8>) -> int
    decreases s.len(),
{
    if s.len() == 0 {
        -1
    } else if s.last() == 46 {
        s.len() - 1
    } else {
        spec_last_dot(s.drop_last())
    }
}

/// The file name tried on collision attempt `attempt`: the base name itself
/// for attempt zero, and otherwise the name with `(attempt)` inserted before
/// the extension (or appended, when there is no extension).
pub open spec fn spec_candidate(name: Seq<u8>, attempt: u64) -> Seq<u8> {
    if attempt == 0 {
        name
    } else {
        let d = spec_last_dot(name);
        let p = if d < 0 {
            name.len() as int
        } else {
            d
        };
        name.take(p) + seq![40u8] + spec_digits(attempt) + seq![41u8] + name.skip(p)
    }
}

proof fn lemma_last_dot_at(s: Seq<u8>, i: int)
    requires
        -1 <= i < s.len(),
        forall|k: int| i < k < s.len() ==> s[k] != 46,
        i == -1 || s[i] == 46,
    ensures
        spec_last_dot(s) == i,
    decreases s.len(),
{
    if s.len() == 0 {
    } else if i == s.len() - 1 {
    } else {
        assert(s.last() != 46);
        lemma_last_dot_at(s.drop_last(), i);
    }
}

proof fn lemma_digits_bounds(n: u64)
    ensures
        spec_digits(n).len() >= 1,
        forall|k: int| 0 <= k < spec_digits(n).len() ==> 48 <= #[trigger] spec_digits(n)[k] <= 57,
    decreases n,
{
    if n >= 10 {
        lemma_digits_bounds(n / 10);
    }
}

proof fn lemma_digits_injective(a: u64, b: u64)
    ensures
        spec_digits(a) == spec_digits(b) ==> a == b,
    decreases a,
{
    if spec_digits(a) == spec_digits(b) {
        lemma_digits_bounds(a / 10);
        lemma_digits_bounds(b / 10);
        if a < 10 && b < 10 {
            assert(spec_digits(a)[0] == spec_digits(b)[0]);
        } else if a < 10 {
            assert(spec_digits(b).len() >= 2);
        } else if b < 10 {
            assert(spec_digits(a).len() >= 2);
        } else {
            assert(spec_digits(a).drop_last() =~= spec_digits(a / 10));
            assert(spec_digits(b).drop_last() =~= spec_digits(b / 10));
            lemma_digits_injective(a / 10, b / 10);
            assert(spec_digits(a).last() == spec_digits(b).last());
            assert(a % 10 == b % 10);
            lemma_fundamental_div_mod(a as int, 10);
            lemma_fundamental_div_mod(b as int, 10);
        }
    }
}

/// Distinct collision-avoidance attempts on one base name yield distinct
/// file names, so retrying can never hand back a name it already produced.
pub proof fn lemma_candidate_names_distinct(name: Seq<u8>, a: u64, b: u64)
    requires
        a != b,
    ensures
        spec_candidate(name, a) != spec_candidate(name, b),
{
    let d = spec_last_dot(name);
    let p: int = if d < 0 {
        name.len() as int
    } else {
        d
    };
    if d >= 0 {
        lemma_last_dot_bounds(name);
    }
    lemma_digits_bounds(a);
    lemma_digits_bounds(b);
    if a == 0 || b == 0 {
        assert(spec_candidate(name, a).len() != spec_candidate(name, b).len());
    } else {
        let ca = spec_candidate(name, a);
        let cb = spec_candidate(name, b);
        if ca == cb {
            let la = spec_digits(a).len() as int;
            let lb = spec_digits(b).len() as int;
            assert(ca.len() == name.len() + 2 + la);
            assert(cb.len() == name.len() + 2 + lb);
            assert(la == lb);
            assert(ca.subrange(p + 1, p + 1 + la) =~= spec_digits(a));
            assert(cb.subrange(p + 1, p + 1 + lb) =~= spec_digits(b));
            lemma_digits_injective(a, b);
            assert(false);
        }
    }
}

proof fn lemma_last_dot_bounds(s: Seq<u8>)
    ensures
        -1 <= spec_last_dot(s) < s.len(),
    decreases s.len(),
{
    if s.len() > 0 && s.last() != 46 {
        lemma_last_dot_bounds(s.drop_last());
    }
}

fn find_last_dot(name: &[u8]) -> (r: Option<usize>)
    ensures
        match r {
            Some(i) => i == spec_last_dot(name@),
            None => spec_last_dot(name@) == -1,
        },
{
    let mut cut: usize = name.len();
    while cut > 0 && name[cut - 1] != 46
        invariant
            cut <= name@.len(),
            forall|k: int| cut <= k < name@.len() ==> name@[k] != 46,
        decreases cut,
    {
        cut = cut - 1;
    }
    if cut == 0 {
        proof {
            lemma_last_dot_at(name@, -1);
        }
        None
    } else {
        proof {
            lemma_last_dot_at(name@, cut - 1);
        }
        Some(cut - 1)
    }
}

fn push_digits(n: u64, out: &mut Vec<u8>)
    ensures
        final (out)@ == old(out)@ + spec_digits(n),
    decreases n,
{
    if n < 10 {
        out.push(48 + (n as u8));
        proof {
            assert(out@ =~= old(out)@ + spec_digits(n));
        }
    } else {
        push_digits(n / 10, out);
        out.push(48 + ((n % 10) as u8));
        proof {
            assert(out@ =~= old(out)@ + spec_digits(n));
        }
    }
}

/// The file name to try on collision attempt `attempt`: the base name
/// unchanged for attempt zero, and otherwise the attempt number in
/// parentheses inserted before the extension.
pub fn candidate_name(name: &[u8], attempt: u64) -> (r: Vec<u8>)
    ensures
        r@ == spec_candidate(name@, attempt),
{
    if attempt == 0 {
        return slice_to_vec(name);
    }
    let p = match find_last_dot(name) {
        Some(i) => i,
        None => name.len(),
    };
    proof {
        lemma_last_dot_bounds(name@);
    }
    let mut r: Vec<u8> = Vec::new();
    r.extend_from_slice(slice_subrange(name, 0, p));
    r.push(40);
    push_digits(attempt, &mut r);
    r.push(41);
    r.extend_from_slice(slice_subrange(name, p, name.len()));
    proof {
        assert(name@.subrange(0, p as int) =~= name@.take(p as int));
        assert(name@.subrange(p as int, name@.len() as int) =~= name@.skip(p as int));
        assert(r@ =~= spec_candidate(name@, attempt));
    }
    r
}

} // verus!
