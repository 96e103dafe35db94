use vstd::prelude::*;
use crate::errors::AnalysisError;

verus! {

/// The UTC-midnight epoch second that a `YYYY-MM-DD` string denotes, or
/// `None` where the string is not a valid calendar date in that format.
/// Named, not spelled out: calendar arithmetic is delegated to chrono, and
/// the result depends on the string alone.
pub uninterp spec fn ymd_epoch(s: Seq<char>) -> Option<i64>;

/// Relies on chrono's `NaiveDate::parse_from_str` with the `%Y-%m-%d` format
/// for date validation, and on `NaiveDateTime::timestamp` (through a UTC
/// `DateTime`) for the midnight epoch second.  Both are deterministic
/// functions of the string alone.
#[verifier::external_body]
fn parse_ymd_epoch(s: &str) -> (r: Option<i64>)
    ensures
        r == ymd_epoch(s@),
{
    match chrono::NaiveDate::parse_from_str(s, "%Y-%m-%d") {
        Ok(date) => match date.and_hms_opt(0, 0, 0) {
            Some(midnight) => Some(
                chrono::DateTime::<chrono::Utc>::from_naive_utc_and_offset(
                    midnight,
                    chrono::Utc,
                ).timestamp(),
            ),
            None => None,
        },
        Err(_) => None,
    }
}

/// Turn an optional `YYYY-MM-DD` bound into an epoch second.  No bound is
/// not an error; a malformed bound is.
pub fn parse_date(date_str: Option<&str>) -> (r: Result<Option<i64>, AnalysisError>)
    ensures
        r == (match date_str {
            None => Ok::<Option<i64>, AnalysisError>(None),
            Some(s) => match ymd_epoch(s@) {
                Some(t) => Ok(Some(t)),
                None => Err(AnalysisError::InvalidDate),
            },
        }),
{
    match date_str {
        None => Ok(None),
        Some(s) => match parse_ymd_epoch(s) {
            Some(t) => Ok(Some(t)),
            None => Err(AnalysisError::InvalidDate),
        },
    }
}

/// Parse both window bounds before any history walk begins, so that a
/// malformed date aborts the whole run up front.
pub fn parse_window(since: Option<&str>, until: Option<&str>) -> (r: Result<
    (Option<i64>, Option<i64>),
    AnalysisError,
>)
    ensures
        (match (since, until) {
            (Some(s), _) if ymd_epoch(s@) is None => r == Err::<
                (Option<i64>, Option<i64>),
                AnalysisError,
            >(AnalysisError::InvalidDate),
            (_, Some(u)) if ymd_epoch(u@) is None => r == Err::<
                (Option<i64>, Option<i64>),
                AnalysisError,
            >(AnalysisError::InvalidDate),
            _ => {
                let s_bound = (match since {
                    None => None,
                    Some(s) => ymd_epoch(s@),
                });
                let u_bound = (match until {
                    None => None,
                    Some(u) => ymd_epoch(u@),
                });
                r == Ok::<(Option<i64>, Option<i64>), AnalysisError>((s_bound, u_bound))
            },
        }),
{
    let s = parse_date(since)?;
    let u = parse_date(until)?;
    Ok((s, u))
}

/// A commit time lies inside the inclusive window: not strictly before
/// `since` and not strictly after `until`; a missing bound excludes nothing.
pub open spec fn spec_in_window(t: i64, since: Option<i64>, until: Option<i64>) -> bool {
    &&& (match since {
        Some(s) => t >= s,
        None => true,
    })
    &&& (match until {
        Some(u) => t <= u,
        None => true,
    })
}

/// A walked commit qualifies for diffing: it has at least one parent (root
/// commits are never compared against anything) and its authored time lies
/// inside the window.
pub open spec fn spec_commit_qualifies(
    parent_count: usize,
    t: i64,
    since: Option<i64>,
    until: Option<i64>,
) -> bool {
    parent_count >= 1 && spec_in_window(t, since, until)
}

/// Decide whether a walked commit is diffed against its parents.
pub fn commit_qualifies(parent_count: usize, t: i64, since: Option<i64>, until: Option<i64>) -> (r:
    bool)
    ensures
        r == spec_commit_qualifies(parent_count, t, since, until),
{
    if parent_count == 0 {
        return false;
    }
    if let Some(s) = since {
        if t < s {
            return false;
        }
    }
    if let Some(u) = until {
        if t > u {
            return false;
        }
    }
    true
}

/// Law: a root commit never qualifies, whatever its time and whatever the
/// window, so it can never contribute a change record.
pub proof fn lemma_root_commit_never_qualifies(t: i64, since: Option<i64>, until: Option<i64>)
    ensures
        !spec_commit_qualifies(0, t, since, until),
{
}

} // verus!
