//! Choosing the two symbols of a conversion query.
//!
//! The command line hands over up to four positional words.  When the first
//! word is an amount, the query's source is the second word and its target
//! comes from the third and fourth; otherwise the source is the first word
//! and the target comes from the second and third.  A literal `to` between
//! source and target is skipped, the target defaults to `EUR`, and both
//! symbols are uppercased before any lookup.

use vstd::prelude::*;
use vstd::string::*;

verus! {

/// What the uppercasing of a string returns, as a function of its
/// characters alone.
pub uninterp spec fn upper_of(s: Seq<char>) -> Seq<char>;

/// Relies on str::to_uppercase: the result depends on the characters alone.
#[verifier::external_body]
fn to_upper(s: &str) -> (r: String)
    ensures
        r@ == upper_of(s@),
{
    s.to_uppercase()
}

/// Why a query could not be put together.
#[derive(Clone, Copy, Debug, PartialEq, Eq, Structural)]
pub enum QueryError {
    /// No word names the currency to convert from.
    MissingSource,
}

/// The raw target symbol chosen from the two words after the source: a
/// literal `to` is skipped in favour of the word after it, and a missing
/// word means the default target `EUR`.
pub open spec fn chosen_target(next: Option<Seq<char>>, after: Option<Seq<char>>) -> Seq<char> {
    match next {
        None => "EUR"@,
        Some(w) => {
            if w == "to"@ {
                match after {
                    Some(v) => v,
                    None => "EUR"@,
                }
            } else {
                w
            }
        },
    }
}

/// What [`select_symbols`] returns for every argument list: the uppercased
/// source and target, or the missing-source failure.
pub open spec fn select_post(
    arg1: Option<Seq<char>>,
    arg2: Option<Seq<char>>,
    arg3: Option<Seq<char>>,
    arg4: Option<Seq<char>>,
    amount_given: bool,
    r: Result<(String, String), QueryError>,
) -> bool {
    let source = if amount_given {
        arg2
    } else {
        arg1
    };
    let next = if amount_given {
        arg3
    } else {
        arg2
    };
    let after = if amount_given {
        arg4
    } else {
        arg3
    };
    match source {
        None => r == Err::<(String, String), QueryError>(QueryError::MissingSource),
        Some(f) => r matches Ok(p) && p.0@ == upper_of(f) && p.1@ == upper_of(
            chosen_target(next, after),
        ),
    }
}

/// Picks the source and target symbols out of the positional words, given
/// whether the first word was already consumed as an amount.
pub fn select_symbols(
    arg1: Option<&String>,
    arg2: Option<&String>,
    arg3: Option<&String>,
    arg4: Option<&String>,
    amount_given: bool,
) -> (r: Result<(String, String), QueryError>)
    ensures
        select_post(
            match arg1 {
                Some(s) => Some(s@),
                None => None,
            },
            match arg2 {
                Some(s) => Some(s@),
                None => None,
            },
            match arg3 {
                Some(s) => Some(s@),
                None => None,
            },
            match arg4 {
                Some(s) => Some(s@),
                None => None,
            },
            amount_given,
            r,
        ),
{
    let (source, next, after) = if amount_given {
        (arg2, arg3, arg4)
    } else {
        (arg1, arg2, arg3)
    };
    let f = match source {
        Some(s) => s,
        None => {
            return Err(QueryError::MissingSource);
        },
    };
    let to_word = String::from_str("to");
    let eur = String::from_str("EUR");
    let target: &String = match next {
        None => &eur,
        Some(w) => {
            if *w == to_word {
                match after {
                    Some(v) => v,
                    None => &eur,
                }
            } else {
                w
            }
        },
    };
    Ok((to_upper(f.as_str()), to_upper(target.as_str())))
}

} // verus!
