//! The report that the dashboard features. Each database has its own.

use crate::error::{AtomicCoreError, ErrorView};
use crate::text::{glue, opt_view, text_eq};
use vstd::prelude::*;

verus! {

/// The setting of a database that holds the id of its featured report.
pub const FEATURED_REPORT_SETTING: &'static str = "dashboard.featured_report_id";

/// The report whose existence decides whether one is featured: what the setting names, if that
/// is anything.
pub open spec fn named_report(setting: Option<Seq<char>>) -> Option<Seq<char>> {
    match setting {
        Some(id) => if id.len() > 0 {
            Some(id)
        } else {
            None
        },
        None => None,
    }
}

/// The report that is featured: the one that the setting names, if it exists.
pub open spec fn featured(setting: Option<Seq<char>>, reports: Set<Seq<char>>) -> Option<
    Seq<char>,
> {
    match named_report(setting) {
        Some(id) => if reports.contains(id) {
            Some(id)
        } else {
            None
        },
        None => None,
    }
}

/// The report that must be looked up to tell which one is featured, if any.
pub fn report_to_look_up(setting: Option<String>) -> (r: Option<String>)
    ensures
        opt_view(r) == named_report(opt_view(setting)),
{
    match setting {
        Some(id) => if id.as_str().is_empty() {
            None
        } else {
            Some(id)
        },
        None => None,
    }
}

/// The report that is featured, given whether the one that was looked up exists.
pub fn get_featured_report_id(setting: Option<String>, found: bool) -> (r: Option<String>)
    ensures
        opt_view(r) == if found {
            named_report(opt_view(setting))
        } else {
            None
        },
        forall|reports: Set<Seq<char>>|
            (named_report(opt_view(setting)) matches Some(id) ==> found == reports.contains(id))
                ==> opt_view(r) == #[trigger] featured(opt_view(setting), reports),
{
    if found {
        report_to_look_up(setting)
    } else {
        None
    }
}

/// What becomes of the setting.
#[derive(Debug)]
pub enum FeaturedChange {
    Point(String),
    Clear,
}

/// What a change of the featured report leads to: no id clears the setting; an id is set if its
/// report exists, and refused if it does not.
pub open spec fn featured_change(report_id: Option<Seq<char>>, found: bool) -> Result<
    Option<Seq<char>>,
    ErrorView,
> {
    match report_id {
        Some(id) => if found {
            Ok(Some(id))
        } else {
            Err(ErrorView::Validation("report not found: "@ + id))
        },
        None => Ok(None),
    }
}

/// What a change of the featured report leads to, given whether the report exists.
pub fn set_featured_report_id(report_id: Option<String>, found: bool) -> (r: Result<
    FeaturedChange,
    AtomicCoreError,
>)
    ensures
        (match r {
            Ok(FeaturedChange::Point(id)) => Ok(Some(id@)),
            Ok(FeaturedChange::Clear) => Ok(None),
            Err(e) => Err(e@),
        }) == featured_change(opt_view(report_id), found),
{
    match report_id {
        Some(id) => if found {
            Ok(FeaturedChange::Point(id))
        } else {
            Err(AtomicCoreError::Validation(glue("report not found: ", id.as_str())))
        },
        None => Ok(FeaturedChange::Clear),
    }
}

/// Whether deleting a report takes the setting with it.
pub fn delete_clears_featured(setting: Option<&str>, report_id: &str) -> (r: bool)
    ensures
        r == (setting is Some && setting->0@ == report_id@),
{
    match setting {
        Some(id) => text_eq(id, report_id),
        None => false,
    }
}

/// The setting after a report is deleted.
pub open spec fn setting_after_delete(setting: Option<Seq<char>>, report_id: Seq<char>) -> Option<
    Seq<char>,
> {
    if setting == Some(report_id) {
        None
    } else {
        setting
    }
}

/// What was asked for is featured, and a report for as long as it exists: a change is carried out
/// if it names no report or one that exists, and refused otherwise. No report has an empty id.
pub proof fn law_set_report_is_featured(
    report_id: Option<Seq<char>>,
    reports: Set<Seq<char>>,
    later: Set<Seq<char>>,
)
    requires
        !reports.contains(Seq::empty()),
    ensures
        match featured_change(
            report_id,
            report_id is Some && reports.contains(report_id->0),
        ) {
            Ok(setting) => {
                &&& report_id is Some ==> reports.contains(report_id->0)
                &&& featured(setting, reports) == report_id
                &&& featured(setting, later) == match report_id {
                    Some(id) => if later.contains(id) {
                        Some(id)
                    } else {
                        None
                    },
                    None => None,
                }
            },
            Err(e) => {
                &&& report_id matches Some(id)
                &&& !reports.contains(id)
                &&& e == ErrorView::Validation("report not found: "@ + id)
            },
        },
{
    if report_id is Some && report_id->0.len() == 0 {
        assert(report_id->0 =~= Seq::empty());
    }
}

/// Once a report is deleted it is not featured, and no other report is featured in its stead;
/// the deletion of any other report changes nothing.
pub proof fn law_deleted_report_is_not_featured(
    setting: Option<Seq<char>>,
    reports: Set<Seq<char>>,
    deleted: Seq<char>,
)
    ensures
        featured(setting_after_delete(setting, deleted), reports.remove(deleted)) == if featured(
            setting,
            reports,
        ) == Some(deleted) {
            None
        } else {
            featured(setting, reports)
        },
{
}

/// The featured report is the one that the setting names, if it names one and that was found; only
/// a setting that names one has anything looked up.
pub proof fn law_named_reports_are_featured(
    setting: Option<String>,
    found: bool,
    asked: Option<String>,
    r: Option<String>,
)
    requires
        call_ensures(report_to_look_up, (setting,), asked),
        call_ensures(get_featured_report_id, (setting, found), r),
    ensures
        asked is Some <==> setting is Some && setting->0@.len() > 0,
        asked matches Some(id) ==> id@ == setting->0@,
        r is Some <==> found && setting is Some && setting->0@.len() > 0,
        r matches Some(id) ==> id@ == setting->0@,
{
}

/// A report that was found is pointed to, one that was not is refused, and no report clears the
/// setting; the setting goes with its report and with no other.
pub proof fn law_settings_point_to_found_reports(
    report_id: Option<String>,
    found: bool,
    r: Result<FeaturedChange, AtomicCoreError>,
    setting: Option<&str>,
    deleted: &str,
    cleared: bool,
)
    requires
        call_ensures(set_featured_report_id, (report_id, found), r),
        call_ensures(delete_clears_featured, (setting, deleted), cleared),
    ensures
        report_id is None ==> r == Ok::<FeaturedChange, AtomicCoreError>(FeaturedChange::Clear),
        report_id is Some ==> (r is Ok <==> found),
        report_id is Some && found ==> (r->Ok_0 matches FeaturedChange::Point(id) && id@
            == report_id->0@),
        cleared <==> setting is Some && setting->0@ == deleted@,
{
}

} // verus!
