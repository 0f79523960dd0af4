//! Putting atoms through the pipeline that embeds and tags them.

use crate::atoms::{
    job_for, job_views, jobs_for, pipeline_job, pipeline_jobs, AtomPipelineJobRequest,
};
use crate::error::{AtomicCoreError, ErrorView};
use crate::events::EmbeddingEvent;
use crate::settings::{changed_settings, row};
use crate::strmap::StrMap;
use crate::text::{glue, is_blank, text_eq, trimmed, views};
use vstd::prelude::*;

verus! {

/// The job that follows a change of an atom.
pub fn update_atom_job(atom_id: &str) -> (r: AtomPipelineJobRequest)
    ensures
        r@ == job_for(atom_id@, true, true, "update_atom"@, false),
{
    pipeline_job(atom_id, true, true, "update_atom", false)
}

/// The job that follows a change of an atom that no one else had changed.
pub fn update_atom_if_unchanged_job(atom_id: &str) -> (r: AtomPipelineJobRequest)
    ensures
        r@ == job_for(atom_id@, true, true, "update_atom_if_unchanged"@, false),
{
    pipeline_job(atom_id, true, true, "update_atom_if_unchanged", false)
}

/// How many links an editor is offered: as many as it asks for, within bounds.
pub fn suggestion_limit(limit: i32) -> (r: i32)
    ensures
        r == if limit < 1 {
            1
        } else if limit > 50 {
            50
        } else {
            limit as int
        },
{
    if limit < 1 {
        1
    } else if limit > 50 {
        50
    } else {
        limit
    }
}

/// An atom that is being embedded is not embedded again.
pub fn check_not_embedding(atom_id: &str, status: &str) -> (r: Result<(), AtomicCoreError>)
    ensures
        match r {
            Ok(_) => status@ != "processing"@,
            Err(e) => status@ == "processing"@ && e@ == ErrorView::Validation(
                "Atom "@ + atom_id@ + " is already being embedded"@,
            ),
        },
{
    if text_eq(status, "processing") {
        let head = glue("Atom ", atom_id);
        return Err(
            AtomicCoreError::Validation(glue(head.as_str(), " is already being embedded")),
        );
    }
    Ok(())
}

/// An atom that is being tagged is not tagged again.
pub fn check_not_tagging(atom_id: &str, status: &str) -> (r: Result<(), AtomicCoreError>)
    ensures
        match r {
            Ok(_) => status@ != "processing"@,
            Err(e) => status@ == "processing"@ && e@ == ErrorView::Validation(
                "Atom "@ + atom_id@ + " is already being tagged"@,
            ),
        },
{
    if text_eq(status, "processing") {
        let head = glue("Atom ", atom_id);
        return Err(AtomicCoreError::Validation(glue(head.as_str(), " is already being tagged")));
    }
    Ok(())
}

/// An atom that is to be tried again must exist.
pub fn check_found(atom_id: &str, found: bool) -> (r: Result<(), AtomicCoreError>)
    ensures
        match r {
            Ok(_) => found,
            Err(e) => !found && e@ == ErrorView::NotFound("Atom "@ + atom_id@ + " not found"@),
        },
{
    if !found {
        let head = glue("Atom ", atom_id);
        return Err(AtomicCoreError::NotFound(glue(head.as_str(), " not found")));
    }
    Ok(())
}

/// The job that embeds an atom again; it is tagged too if that is still to come.
pub fn retry_embedding_job(atom_id: &str, tagging_status: &str) -> (r: AtomPipelineJobRequest)
    ensures
        r@ == job_for(
            atom_id@,
            true,
            tagging_status@ == "pending"@,
            "retry_embedding"@,
            false,
        ),
{
    pipeline_job(atom_id, true, text_eq(tagging_status, "pending"), "retry_embedding", false)
}

/// The job that tags an atom again.
pub fn retry_tagging_job(atom_id: &str) -> (r: AtomPipelineJobRequest)
    ensures
        r@ == job_for(atom_id@, false, true, "retry_tagging"@, false),
{
    pipeline_job(atom_id, false, true, "retry_tagging", false)
}

/// The settings under which an atom is tagged again: tagging is on, whatever they say.
pub fn retry_tagging_settings(settings: &StrMap<String>) -> (r: StrMap<String>)
    ensures
        row(r@, "auto_tagging_enabled"@) == Some("true"@),
        forall|k: Seq<char>|
            k != "auto_tagging_enabled"@ ==> #[trigger] row(r@, k) == row(settings@, k),
{
    changed_settings(settings, "auto_tagging_enabled", "true")
}

/// The atoms that are embedded again where they were pending: how many, and their jobs.
pub fn reembed_pending_jobs(ids: &Vec<String>) -> (r: (i32, Vec<AtomPipelineJobRequest>))
    requires
        ids@.len() <= i32::MAX,
    ensures
        r.0 == ids@.len(),
        job_views(r.1@) == jobs_for(views(ids@), true, false, "spawn_reembed_pending"@, true),
{
    (ids.len() as i32, pipeline_jobs(ids, true, false, "spawn_reembed_pending", true))
}

/// The atoms that are all embedded again: how many, and their jobs.
pub fn reembed_all_jobs(ids: &Vec<String>) -> (r: (i32, Vec<AtomPipelineJobRequest>))
    requires
        ids@.len() <= i32::MAX,
    ensures
        r.0 == ids@.len(),
        job_views(r.1@) == jobs_for(views(ids@), true, false, "reembed_all_atoms"@, true),
{
    (ids.len() as i32, pipeline_jobs(ids, true, false, "reembed_all_atoms", true))
}

/// The atoms that are all tagged again: how many, and their jobs.
pub fn retag_all_jobs(ids: &Vec<String>) -> (r: (i32, Vec<AtomPipelineJobRequest>))
    requires
        ids@.len() <= i32::MAX,
    ensures
        r.0 == ids@.len(),
        job_views(r.1@) == jobs_for(views(ids@), false, true, "retag_all_atoms"@, false),
{
    (ids.len() as i32, pipeline_jobs(ids, false, true, "retag_all_atoms", false))
}

/// What an explicit request to put an atom through the pipeline leads to, given its text: an
/// atom that is not there is an error, and one without text is left at that.
pub fn process_atom_pipeline(atom_id: &str, content: Option<&str>) -> (r: Result<
    Option<AtomPipelineJobRequest>,
    AtomicCoreError,
>)
    ensures
        match r {
            Ok(None) => content is Some && trimmed(content->0@).len() == 0,
            Ok(Some(j)) => content is Some && trimmed(content->0@).len() > 0 && j@ == job_for(
                atom_id@,
                true,
                true,
                "process_atom_pipeline"@,
                false,
            ),
            Err(e) => content is None && e@ == ErrorView::NotFound(
                "Atom not found: "@ + atom_id@,
            ),
        },
{
    match content {
        Some(text) => {
            if is_blank(text) {
                Ok(None)
            } else {
                Ok(Some(pipeline_job(atom_id, true, true, "process_atom_pipeline", false)))
            }
        },
        None => Err(AtomicCoreError::NotFound(glue("Atom not found: ", atom_id))),
    }
}

/// Whether work is to be started for what was counted.
pub fn has_work(count: i32) -> (r: bool)
    ensures
        r == (count > 0),
{
    count > 0
}

/// Whether an event changes what the canvas shows: only when an atom has got its embedding or its
/// tags.
pub fn changes_canvas(event: &EmbeddingEvent) -> (r: bool)
    ensures
        r == (event is EmbeddingComplete || event is TaggingComplete),
{
    match event {
        EmbeddingEvent::EmbeddingComplete { .. } => true,
        EmbeddingEvent::TaggingComplete { .. } => true,
        _ => false,
    }
}

/// A change of an atom is followed by its embedding and its tagging.
pub proof fn law_changed_atoms_are_embedded_and_tagged(
    atom_id: &str,
    a: AtomPipelineJobRequest,
    b: AtomPipelineJobRequest,
)
    requires
        call_ensures(update_atom_job, (atom_id,), a),
        call_ensures(update_atom_if_unchanged_job, (atom_id,), b),
    ensures
        a.atom_id@ == atom_id@ && a.embed_requested && a.tag_requested && !a.replace_existing
            && a.not_before is None,
        b.atom_id@ == atom_id@ && b.embed_requested && b.tag_requested && !b.replace_existing
            && b.not_before is None,
{
    assert(a@.atom_id == atom_id@ && b@.atom_id == atom_id@);
}

/// An atom that is embedded again is tagged if and only if its tagging is pending; one that is
/// tagged again is not embedded.
pub proof fn law_retries_do_what_is_left(
    atom_id: &str,
    tagging_status: &str,
    e: AtomPipelineJobRequest,
    t: AtomPipelineJobRequest,
)
    requires
        call_ensures(retry_embedding_job, (atom_id, tagging_status), e),
        call_ensures(retry_tagging_job, (atom_id,), t),
    ensures
        e.atom_id@ == atom_id@ && e.embed_requested && !e.replace_existing,
        e.tag_requested <==> tagging_status@ == "pending"@,
        t.atom_id@ == atom_id@ && !t.embed_requested && t.tag_requested && !t.replace_existing,
{
    assert(e@.atom_id == atom_id@ && t@.atom_id == atom_id@);
}

/// Embedding all atoms again leaves their tags alone and takes the place of what is queued; tagging
/// them again leaves their embeddings alone. Every atom is queued once, in order, and counted.
pub proof fn law_all_atoms_are_queued(
    ids: &Vec<String>,
    pending: (i32, Vec<AtomPipelineJobRequest>),
    embed: (i32, Vec<AtomPipelineJobRequest>),
    tag: (i32, Vec<AtomPipelineJobRequest>),
)
    requires
        call_ensures(reembed_pending_jobs, (ids,), pending),
        call_ensures(reembed_all_jobs, (ids,), embed),
        call_ensures(retag_all_jobs, (ids,), tag),
    ensures
        pending.0 == ids@.len() && embed.0 == ids@.len() && tag.0 == ids@.len(),
        pending.1@.len() == ids@.len() && embed.1@.len() == ids@.len() && tag.1@.len()
            == ids@.len(),
        forall|i: int|
            #![trigger pending.1@[i]]
            0 <= i < ids@.len() ==> pending.1@[i].atom_id@ == ids@[i]@
                && pending.1@[i].embed_requested && !pending.1@[i].tag_requested
                && pending.1@[i].replace_existing,
        forall|i: int|
            #![trigger embed.1@[i]]
            0 <= i < ids@.len() ==> embed.1@[i].atom_id@ == ids@[i]@ && embed.1@[i].embed_requested
                && !embed.1@[i].tag_requested && embed.1@[i].replace_existing,
        forall|i: int|
            #![trigger tag.1@[i]]
            0 <= i < ids@.len() ==> tag.1@[i].atom_id@ == ids@[i]@ && !tag.1@[i].embed_requested
                && tag.1@[i].tag_requested && !tag.1@[i].replace_existing,
{
    lemma_queued(ids@, true, false, "spawn_reembed_pending"@, true, pending.1@);
    lemma_queued(ids@, true, false, "reembed_all_atoms"@, true, embed.1@);
    lemma_queued(ids@, false, true, "retag_all_atoms"@, false, tag.1@);
}

proof fn lemma_queued(
    ids: Seq<String>,
    embed: bool,
    tag: bool,
    reason: Seq<char>,
    replace: bool,
    jobs: Seq<AtomPipelineJobRequest>,
)
    requires
        job_views(jobs) == jobs_for(views(ids), embed, tag, reason, replace),
    ensures
        jobs.len() == ids.len(),
        forall|i: int|
            #![trigger jobs[i]]
            0 <= i < ids.len() ==> jobs[i].atom_id@ == ids[i]@ && jobs[i].embed_requested == embed
                && jobs[i].tag_requested == tag && jobs[i].replace_existing == replace,
{
    let wanted = jobs_for(views(ids), embed, tag, reason, replace);
    assert(views(ids).len() == ids.len());
    assert(job_views(jobs).len() == jobs.len());
    assert forall|i: int| #![trigger jobs[i]] 0 <= i < ids.len() implies jobs[i].atom_id@ == ids[i]@
        && jobs[i].embed_requested == embed && jobs[i].tag_requested == tag
        && jobs[i].replace_existing == replace by {
        assert(job_views(jobs)[i] == wanted[i]);
        assert(jobs[i]@ == wanted[i]);
    }
}

/// An atom is put through the pipeline if it exists and holds anything but white space; one
/// without text is left at that, and one that does not exist is an error.
pub proof fn law_atoms_with_text_are_processed(
    atom_id: &str,
    content: Option<&str>,
    r: Result<Option<AtomPipelineJobRequest>, AtomicCoreError>,
)
    requires
        call_ensures(process_atom_pipeline, (atom_id, content), r),
    ensures
        r is Err <==> content is None,
        r matches Ok(j) ==> (j is Some <==> trimmed(content->0@).len() > 0),
        r matches Ok(Some(j)) ==> j.atom_id@ == atom_id@ && j.embed_requested && j.tag_requested,
{
    if r is Ok && r->Ok_0 is Some {
        assert(r->Ok_0->0@.atom_id == atom_id@);
    }
}

/// An atom that is being worked on, or is not there, is not tried again; any other is.
pub proof fn law_atoms_at_work_are_not_retried(
    atom_id: &str,
    status: &str,
    found: bool,
    embedding: Result<(), AtomicCoreError>,
    tagging: Result<(), AtomicCoreError>,
    there: Result<(), AtomicCoreError>,
)
    requires
        call_ensures(check_not_embedding, (atom_id, status), embedding),
        call_ensures(check_not_tagging, (atom_id, status), tagging),
        call_ensures(check_found, (atom_id, found), there),
    ensures
        embedding is Err <==> status@ == "processing"@,
        tagging is Err <==> status@ == "processing"@,
        there is Err <==> !found,
{
}

/// An editor is offered as many links as it asks for, but at least one and at most fifty.
pub proof fn law_suggestions_are_within_bounds(limit: i32, r: i32)
    requires
        call_ensures(suggestion_limit, (limit,), r),
    ensures
        1 <= r <= 50,
        1 <= limit <= 50 ==> r == limit,
        limit < 1 ==> r == 1,
        limit > 50 ==> r == 50,
{
}

/// Only an atom that has got its embedding or its tags changes the canvas.
pub proof fn law_finished_atoms_change_the_canvas(event: &EmbeddingEvent, r: bool)
    requires
        call_ensures(changes_canvas, (event,), r),
    ensures
        r <==> event is EmbeddingComplete || event is TaggingComplete,
{
}

/// Work is started if and only if there is any.
pub proof fn law_work_is_started_for_something(count: i32, r: bool)
    requires
        call_ensures(has_work, (count,), r),
    ensures
        count >= 1 ==> r,
        count <= 0 ==> !r,
{
}

} // verus!
