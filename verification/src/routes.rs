//! What the server's routes answer and tell its clients.

use crate::atoms::AtomWithTags;
use crate::error::AtomicCoreError;
use crate::events::ServerEvent;
use crate::tags::copy_opt;
use crate::text::{glue, opt_view, text_eq};
use vstd::prelude::*;

verus! {

/// The featured report; without an id there is none.
#[derive(Debug)]
pub struct FeaturedReportResponse {
    pub report_id: Option<String>,
}

/// A request to feature a report; without an id, to feature none.
#[derive(Debug)]
pub struct SetFeaturedReportRequest {
    pub report_id: Option<String>,
}

/// A request to turn a report on or off.
#[derive(Debug)]
pub struct SetEnabledBody {
    pub enabled: bool,
}

/// A request for findings.
#[derive(Debug)]
pub struct ListFindingsQuery {
    /// Max findings to return (default 50, max 200).
    pub limit: Option<i32>,
}

/// The answer to a request to run a report.
#[derive(Debug)]
pub struct RunNowResponse {
    pub report_id: String,
    pub status: &'static str,
    pub findings_url: String,
}

/// An answer of a route.
#[derive(Debug)]
pub enum Reply<T> {
    Body(T),
    NoContent,
    Accepted(T),
    NotFound(String),
    Failed(AtomicCoreError),
}

/// How many findings are listed: fifty unless a number is asked for, at least one and at most two
/// hundred.
pub fn findings_limit(query: &ListFindingsQuery) -> (r: i32)
    ensures
        r == match query.limit {
            Some(n) => if n < 1 {
                1
            } else if n > 200 {
                200
            } else {
                n as int
            },
            None => 50,
        },
{
    match query.limit {
        Some(n) => if n < 1 {
            1
        } else if n > 200 {
            200
        } else {
            n
        },
        None => 50,
    }
}

/// The answer to a request for one report.
pub fn report_reply<T>(found: Result<Option<T>, AtomicCoreError>) -> (r: Reply<T>)
    ensures
        match found {
            Ok(Some(report)) => r == Reply::Body(report),
            Ok(None) => r matches Reply::NotFound(m) && m@ == "not found"@,
            Err(e) => r == Reply::<T>::Failed(e),
        },
{
    match found {
        Ok(Some(report)) => Reply::Body(report),
        Ok(None) => Reply::NotFound("not found".to_owned()),
        Err(e) => Reply::Failed(e),
    }
}

/// The answer to a request that gives nothing back.
pub fn done_reply(done: Result<(), AtomicCoreError>) -> (r: Reply<()>)
    ensures
        match done {
            Ok(_) => r == Reply::<()>::NoContent,
            Err(e) => r == Reply::<()>::Failed(e),
        },
{
    match done {
        Ok(_) => Reply::NoContent,
        Err(e) => Reply::Failed(e),
    }
}

/// Whether the report that is to be deleted is the featured one. Where that cannot be told, it is
/// taken not to be.
pub fn was_featured(featured: &Result<Option<String>, AtomicCoreError>, report_id: &str) -> (r:
    bool)
    ensures
        r == (*featured matches Ok(Some(id)) && id@ == report_id@),
{
    match featured {
        Ok(Some(id)) => text_eq(id.as_str(), report_id),
        _ => false,
    }
}

/// The answer to a request to delete a report, and what the clients are told: that no report is
/// featured, if the one that is gone was.
pub fn delete_reply(deleted: Result<(), AtomicCoreError>, featured: bool) -> (r: (
    Reply<()>,
    Option<ServerEvent>,
))
    ensures
        match deleted {
            Ok(_) => r.0 == Reply::<()>::NoContent,
            Err(e) => r.0 == Reply::<()>::Failed(e),
        },
        match r.1 {
            Some(event) => deleted is Ok && featured && event
                == (ServerEvent::DashboardFeaturedChanged { report_id: None }),
            None => deleted is Err || !featured,
        },
{
    match deleted {
        Ok(_) => {
            if featured {
                (
                    Reply::NoContent,
                    Some(ServerEvent::DashboardFeaturedChanged { report_id: None }),
                )
            } else {
                (Reply::NoContent, None)
            }
        },
        Err(e) => (Reply::Failed(e), None),
    }
}

/// The answer to a request for the featured report.
pub fn featured_reply(found: Result<Option<String>, AtomicCoreError>) -> (r: Reply<
    FeaturedReportResponse,
>)
    ensures
        match found {
            Ok(id) => r == Reply::Body((FeaturedReportResponse { report_id: id })),
            Err(e) => r == Reply::<FeaturedReportResponse>::Failed(e),
        },
{
    match found {
        Ok(report_id) => Reply::Body(FeaturedReportResponse { report_id }),
        Err(e) => Reply::Failed(e),
    }
}

/// The answer to a request to feature a report, and what the clients are told: both name what was
/// asked for.
pub fn set_featured_reply(
    set: Result<(), AtomicCoreError>,
    body: &SetFeaturedReportRequest,
) -> (r: (Reply<FeaturedReportResponse>, Option<ServerEvent>))
    ensures
        match set {
            Ok(_) => {
                &&& r.0 matches Reply::Body(response) && response.report_id == body.report_id
                &&& r.1 matches Some(event) && event == (ServerEvent::DashboardFeaturedChanged {
                    report_id: body.report_id,
                })
            },
            Err(e) => r.0 == Reply::<FeaturedReportResponse>::Failed(e) && r.1 is None,
        },
{
    match set {
        Ok(_) => (
            Reply::Body(FeaturedReportResponse { report_id: copy_opt(&body.report_id) }),
            Some(ServerEvent::DashboardFeaturedChanged { report_id: copy_opt(&body.report_id) }),
        ),
        Err(e) => (Reply::Failed(e), None),
    }
}

/// Where the findings of a report are found.
pub open spec fn findings_path(report_id: Seq<char>) -> Seq<char> {
    "/api/reports/"@ + report_id + "/findings"@
}

/// The answer to a request to run a report, given what was found when it was looked up. The run
/// itself is only dispatched if the answer is that it was accepted.
pub fn run_now_reply<T>(found: Result<Option<T>, AtomicCoreError>, report_id: &str) -> (r: Reply<
    RunNowResponse,
>)
    ensures
        match found {
            Ok(Some(_)) => r matches Reply::Accepted(response) && response.report_id@ == report_id@
                && response.status@ == "dispatched"@ && response.findings_url@ == findings_path(
                report_id@,
            ),
            Ok(None) => r matches Reply::NotFound(m) && m@ == "report not found"@,
            Err(e) => r == Reply::<RunNowResponse>::Failed(e),
        },
{
    match found {
        Ok(Some(_)) => {
            let head = glue("/api/reports/", report_id);
            Reply::Accepted(
                RunNowResponse {
                    report_id: report_id.to_owned(),
                    status: "dispatched",
                    findings_url: glue(head.as_str(), "/findings"),
                },
            )
        },
        Ok(None) => Reply::NotFound("report not found".to_owned()),
        Err(e) => Reply::Failed(e),
    }
}

/// What a run of a report came to.
#[derive(Debug)]
pub enum RunOutcome {
    Skipped,
    EmptyScope,
    Succeeded { finding_atom_id: String },
}

/// The atom that is looked up to tell the clients of it, once a run has made one.
pub fn finding_to_announce(outcome: &RunOutcome) -> (r: Option<String>)
    ensures
        opt_view(r) == match outcome {
            RunOutcome::Succeeded { finding_atom_id } => Some(finding_atom_id@),
            _ => None,
        },
{
    match outcome {
        RunOutcome::Succeeded { finding_atom_id } => Some(finding_atom_id.clone()),
        _ => None,
    }
}

/// What the clients are told of the atom that was looked up, if it was found.
pub fn announce_finding(found: Result<Option<AtomWithTags>, AtomicCoreError>) -> (r: Option<
    ServerEvent,
>)
    ensures
        match found {
            Ok(Some(atom)) => r == Some((ServerEvent::AtomCreated { atom })),
            _ => r is None,
        },
{
    match found {
        Ok(Some(atom)) => Some(ServerEvent::AtomCreated { atom }),
        _ => None,
    }
}

/// As many findings are listed as are asked for, within one and two hundred; fifty if no number is
/// given.
pub proof fn law_findings_are_limited(query: &ListFindingsQuery, r: i32)
    requires
        call_ensures(findings_limit, (query,), r),
    ensures
        1 <= r <= 200,
        query.limit is None ==> r == 50,
        query.limit matches Some(n) ==> (1 <= n <= 200 ==> r == n) && (n < 1 ==> r == 1) && (n > 200
            ==> r == 200),
{
}

/// A request for a report is answered with the report that was found, or with why there is none.
pub proof fn law_reports_are_answered<T>(
    report: T,
    e: AtomicCoreError,
    found: Reply<T>,
    missing: Reply<T>,
    failed: Reply<T>,
)
    requires
        call_ensures(report_reply::<T>, (Ok(Some(report)),), found),
        call_ensures(report_reply::<T>, (Ok(None),), missing),
        call_ensures(report_reply::<T>, (Err(e),), failed),
    ensures
        found == Reply::Body(report),
        missing is NotFound,
        failed == Reply::<T>::Failed(e),
{
}

/// The clients are told that no report is featured if and only if the featured one is gone; a
/// deletion that fails tells them nothing and is answered with its error.
pub proof fn law_deleting_the_featured_report_is_told(
    featured: &Result<Option<String>, AtomicCoreError>,
    report_id: &str,
    deleted: Result<(), AtomicCoreError>,
    was: bool,
    r: (Reply<()>, Option<ServerEvent>),
    plain: Reply<()>,
)
    requires
        call_ensures(was_featured, (featured, report_id), was),
        call_ensures(delete_reply, (deleted, was), r),
        call_ensures(done_reply, (deleted,), plain),
    ensures
        was <==> (*featured matches Ok(Some(id)) && id@ == report_id@),
        r.1 is Some <==> deleted is Ok && was,
        r.1 matches Some(event) ==> event == (ServerEvent::DashboardFeaturedChanged {
            report_id: None,
        }),
        r.0 == plain,
        plain is NoContent <==> deleted is Ok,
        deleted matches Err(e) ==> plain == Reply::<()>::Failed(e),
{
}

/// What is set as featured is what is answered and what the clients are told; what is read is what
/// was found.
pub proof fn law_featured_reports_are_answered(
    set: Result<(), AtomicCoreError>,
    body: &SetFeaturedReportRequest,
    r: (Reply<FeaturedReportResponse>, Option<ServerEvent>),
    found: Result<Option<String>, AtomicCoreError>,
    read: Reply<FeaturedReportResponse>,
)
    requires
        call_ensures(set_featured_reply, (set, body), r),
        call_ensures(featured_reply, (found,), read),
    ensures
        r.1 is Some <==> set is Ok,
        r.1 matches Some(event) ==> event == (ServerEvent::DashboardFeaturedChanged {
            report_id: body.report_id,
        }),
        r.0 matches Reply::Body(response) ==> set is Ok && response.report_id == body.report_id,
        set is Ok ==> r.0 is Body,
        set matches Err(e) ==> r.0 == Reply::<FeaturedReportResponse>::Failed(e),
        found matches Ok(id) ==> (read matches Reply::Body(response) && response.report_id == id),
        found matches Err(e) ==> read == Reply::<FeaturedReportResponse>::Failed(e),
{
}

/// A run is accepted if and only if its report was found, and its findings are then found under
/// that report.
pub proof fn law_found_reports_are_run<T>(
    found: Result<Option<T>, AtomicCoreError>,
    report_id: &str,
    r: Reply<RunNowResponse>,
)
    requires
        call_ensures(run_now_reply::<T>, (found, report_id), r),
    ensures
        r is Accepted <==> found is Ok && found->Ok_0 is Some,
        r matches Reply::Accepted(a) ==> a.report_id@ == report_id@ && a.status@ == "dispatched"@
            && a.findings_url@ == "/api/reports/"@ + report_id@ + "/findings"@,
        r is NotFound <==> found is Ok && found->Ok_0 is None,
        found matches Err(e) ==> r == Reply::<RunNowResponse>::Failed(e),
{
}

/// The clients are told of the atom that a run made, if it made one and that was found.
pub proof fn law_made_findings_are_told(
    outcome: &RunOutcome,
    found: Result<Option<AtomWithTags>, AtomicCoreError>,
    id: Option<String>,
    r: Option<ServerEvent>,
)
    requires
        call_ensures(finding_to_announce, (outcome,), id),
        call_ensures(announce_finding, (found,), r),
    ensures
        id is Some <==> outcome is Succeeded,
        id matches Some(i) ==> i@ == outcome->finding_atom_id@,
        r is Some <==> found is Ok && found->Ok_0 is Some,
        r matches Some(event) ==> event == (ServerEvent::AtomCreated { atom: found->Ok_0->0 }),
{
}

} // verus!
