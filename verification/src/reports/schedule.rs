//! The schedules of reports.

use crate::error::{AtomicCoreError, ErrorView};
use crate::text::glue;
use std::str::FromStr;
use vstd::prelude::*;

verus! {

/// What is said of a text that is no cron expression; nothing if it is one.
pub uninterp spec fn cron_rejection(expression: Seq<char>) -> Option<Seq<char>>;

/// Whether a text names a time zone.
pub uninterp spec fn is_timezone(name: Seq<char>) -> bool;

/// Why the text is no cron expression, if it is none: the error of `cron::Schedule::from_str` as
/// text, which is a function of the expression.
#[verifier::external_body]
fn reject_cron(expression: &str) -> (r: Option<String>)
    ensures
        (match r {
            Some(e) => Some(e@),
            None => None,
        }) == cron_rejection(expression@),
{
    match cron::Schedule::from_str(expression) {
        Ok(_) => None,
        Err(e) => Some(e.to_string()),
    }
}

/// Why the text names no time zone, if it names none: the error of `chrono_tz::Tz::from_str` as
/// text, which is always the same. Which texts are names is a function of the text.
#[verifier::external_body]
fn reject_timezone(name: &str) -> (r: Option<String>)
    ensures
        r is None <==> is_timezone(name@),
        r matches Some(e) ==> e@ == "failed to parse timezone"@,
{
    match chrono_tz::Tz::from_str(name) {
        Ok(_) => None,
        Err(e) => Some(e.to_string()),
    }
}

/// The verdict on a schedule and its time zone, given what was said of either.
pub open spec fn schedule_verdict(
    cron: Option<Seq<char>>,
    timezone: Option<(Seq<char>, Seq<char>)>,
) -> Option<ErrorView> {
    match cron {
        Some(e) => Some(ErrorView::Validation("invalid cron expression: "@ + e)),
        None => match timezone {
            Some((name, e)) => Some(
                ErrorView::Validation("invalid timezone '"@ + name + "': "@ + e),
            ),
            None => None,
        },
    }
}

/// The verdict on a schedule and its time zone: `cron` is what was said of the schedule, and
/// `timezone` the name of the zone with what was said of it, where anything was.
pub fn judge_schedule(cron: Option<String>, timezone: Option<(String, String)>) -> (r: Result<
    (),
    AtomicCoreError,
>)
    ensures
        (match r {
            Ok(_) => None,
            Err(e) => Some(e@),
        }) == schedule_verdict(
            match cron {
                Some(e) => Some(e@),
                None => None,
            },
            match timezone {
                Some((n, e)) => Some((n@, e@)),
                None => None,
            },
        ),
{
    match cron {
        Some(e) => {
            return Err(
                AtomicCoreError::Validation(glue("invalid cron expression: ", e.as_str())),
            );
        },
        None => {},
    }
    match timezone {
        Some((name, e)) => {
            let head = glue("invalid timezone '", name.as_str());
            let middle = glue(head.as_str(), "': ");
            Err(AtomicCoreError::Validation(glue(middle.as_str(), e.as_str())))
        },
        None => Ok(()),
    }
}

/// Whether a schedule and a time zone are acceptable, as far as they are given.
pub open spec fn schedule_checked(schedule: Option<Seq<char>>, timezone: Option<Seq<char>>) -> Option<
    ErrorView,
> {
    schedule_verdict(
        match schedule {
            Some(s) => cron_rejection(s),
            None => None,
        },
        match timezone {
            Some(tz) => if is_timezone(tz) {
                None
            } else {
                Some((tz, "failed to parse timezone"@))
            },
            None => None,
        },
    )
}

/// Whether a schedule and a time zone are acceptable, as far as they are given.
pub fn validate_schedule(schedule: Option<&str>, timezone: Option<&str>) -> (r: Result<
    (),
    AtomicCoreError,
>)
    ensures
        (match r {
            Ok(_) => None,
            Err(e) => Some(e@),
        }) == schedule_checked(
            match schedule {
                Some(s) => Some(s@),
                None => None,
            },
            match timezone {
                Some(tz) => Some(tz@),
                None => None,
            },
        ),
{
    let cron = match schedule {
        Some(s) => reject_cron(s),
        None => None,
    };
    if cron.is_some() {
        return judge_schedule(cron, None);
    }
    let zone = match timezone {
        Some(tz) => match reject_timezone(tz) {
            Some(e) => Some((tz.to_owned(), e)),
            None => None,
        },
        None => None,
    };
    judge_schedule(None, zone)
}

/// The schedule of a report that is to be made.
#[derive(Debug, Clone)]
pub struct ReportSchedule {
    pub schedule: String,
    pub schedule_tz: Option<String>,
}

/// The change of a report's schedule: what is not given stays; a time zone can be given or taken
/// away.
#[derive(Debug, Clone)]
pub struct ReportScheduleChange {
    pub schedule: Option<String>,
    pub schedule_tz: Option<Option<String>>,
}

/// Whether a report may be made with the schedule.
pub fn check_create_report(request: &ReportSchedule) -> (r: Result<(), AtomicCoreError>)
    ensures
        (match r {
            Ok(_) => None,
            Err(e) => Some(e@),
        }) == schedule_checked(
            Some(request.schedule@),
            crate::text::opt_view(request.schedule_tz),
        ),
{
    let tz = match &request.schedule_tz {
        Some(tz) => Some(tz.as_str()),
        None => None,
    };
    validate_schedule(Some(request.schedule.as_str()), tz)
}

/// Whether a report's schedule may be changed.
pub fn check_update_report(request: &ReportScheduleChange) -> (r: Result<(), AtomicCoreError>)
    ensures
        (match r {
            Ok(_) => None,
            Err(e) => Some(e@),
        }) == schedule_checked(
            crate::text::opt_view(request.schedule),
            match request.schedule_tz {
                Some(Some(tz)) => Some(tz@),
                _ => None,
            },
        ),
{
    let schedule = match &request.schedule {
        Some(s) => Some(s.as_str()),
        None => None,
    };
    let tz = match &request.schedule_tz {
        Some(Some(tz)) => Some(tz.as_str()),
        _ => None,
    };
    validate_schedule(schedule, tz)
}

/// What is answered when a report that does not exist is to be run.
pub fn report_missing(report_id: &str) -> (e: AtomicCoreError)
    ensures
        e@ == ErrorView::DatabaseOperation("report "@ + report_id@ + " not found"@),
{
    let head = glue("report ", report_id);
    AtomicCoreError::DatabaseOperation(glue(head.as_str(), " not found"))
}

/// A schedule is accepted if and only if it is a cron expression, and its time zone, if it has one,
/// is one.
pub proof fn law_sound_schedules_are_accepted(
    request: &ReportSchedule,
    r: Result<(), AtomicCoreError>,
)
    requires
        call_ensures(check_create_report, (request,), r),
    ensures
        r is Ok <==> cron_rejection(request.schedule@) is None && (request.schedule_tz is None
            || is_timezone(request.schedule_tz->0@)),
{
}

/// A change of a schedule is judged by what it gives alone: a schedule that stays and a time zone
/// that stays or is taken away are not.
pub proof fn law_changes_are_judged_by_what_they_give(
    request: &ReportScheduleChange,
    r: Result<(), AtomicCoreError>,
)
    requires
        call_ensures(check_update_report, (request,), r),
    ensures
        r is Ok <==> (request.schedule is None || cron_rejection(request.schedule->0@) is None) && (
        request.schedule_tz is None || request.schedule_tz->0 is None || is_timezone(
            request.schedule_tz->0->0@,
        )),
{
}

/// What is wrong with the expression is told before what is wrong with the time zone, and each in
/// its own words.
pub proof fn law_expressions_are_judged_first(
    cron: String,
    name: String,
    e: String,
    both: Result<(), AtomicCoreError>,
    zone: Result<(), AtomicCoreError>,
    none: Result<(), AtomicCoreError>,
)
    requires
        call_ensures(judge_schedule, (Some(cron), Some((name, e))), both),
        call_ensures(judge_schedule, (None, Some((name, e))), zone),
        call_ensures(judge_schedule, (None, None), none),
    ensures
        both matches Err(b) && b@ == ErrorView::Validation("invalid cron expression: "@ + cron@),
        zone matches Err(z) && z@ == ErrorView::Validation(
            "invalid timezone '"@ + name@ + "': "@ + e@,
        ),
        none is Ok,
{
}

/// What is not given is not judged.
pub proof fn law_missing_schedules_are_accepted(
    schedule: &str,
    timezone: &str,
    neither: Result<(), AtomicCoreError>,
    cron: Result<(), AtomicCoreError>,
    zone: Result<(), AtomicCoreError>,
)
    requires
        call_ensures(validate_schedule, (None, None), neither),
        call_ensures(validate_schedule, (Some(schedule), None), cron),
        call_ensures(validate_schedule, (None, Some(timezone)), zone),
    ensures
        neither is Ok,
        cron is Ok <==> cron_rejection(schedule@) is None,
        zone is Ok <==> is_timezone(timezone@),
{
}

} // verus!
