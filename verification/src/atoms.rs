//! Making and changing atoms, and the pipeline jobs that follow.

use crate::error::{AtomicCoreError, ErrorView};
use crate::ids::{is_id, new_id, now_rfc3339};
use crate::tags::Tag;
use crate::text::{is_blank, opt_view, text_in, trimmed, views};
use vstd::prelude::*;

verus! {

/// Where an atom comes from.
#[derive(Debug, Clone, Copy, PartialEq, Eq, Structural)]
pub enum AtomKind {
    Captured,
    Report,
}

/// A note of the knowledge base.
#[derive(Debug, Clone)]
pub struct Atom {
    pub id: String,
    pub content: String,
    pub title: String,
    pub snippet: String,
    pub source_url: Option<String>,
    pub source: Option<String>,
    pub published_at: Option<String>,
    pub created_at: String,
    pub updated_at: String,
    pub embedding_status: String,
    pub tagging_status: String,
    pub embedding_error: Option<String>,
    pub tagging_error: Option<String>,
    pub kind: AtomKind,
}

/// An atom with its tags.
#[derive(Debug, Clone)]
pub struct AtomWithTags {
    pub atom: Atom,
    pub tags: Vec<Tag>,
}

/// Request to create a new atom.
#[derive(Debug, Clone)]
pub struct CreateAtomRequest {
    pub content: String,
    pub source_url: Option<String>,
    pub published_at: Option<String>,
    pub tag_ids: Vec<String>,
    /// Whether to make no atom when one with the same source exists.
    pub skip_if_source_exists: bool,
}

impl Default for CreateAtomRequest {
    fn default() -> (r: Self)
        ensures
            r.content@ == Seq::<char>::empty(),
            r.source_url is None,
            r.published_at is None,
            r.tag_ids@ == Seq::<String>::empty(),
            !r.skip_if_source_exists,
    {
        CreateAtomRequest {
            content: String::new(),
            source_url: None,
            published_at: None,
            tag_ids: Vec::new(),
            skip_if_source_exists: false,
        }
    }
}

/// Request to update an existing atom.
#[derive(Debug, Clone)]
pub struct UpdateAtomRequest {
    pub content: String,
    pub source_url: Option<String>,
    pub published_at: Option<String>,
    pub tag_ids: Option<Vec<String>>,
}

/// A request to the pipeline that embeds and tags atoms.
#[derive(Debug, Clone)]
pub struct AtomPipelineJobRequest {
    pub atom_id: String,
    pub embed_requested: bool,
    pub tag_requested: bool,
    pub not_before: Option<String>,
    pub reason: String,
    pub replace_existing: bool,
}

/// What a pipeline request holds.
pub struct JobView {
    pub atom_id: Seq<char>,
    pub embed_requested: bool,
    pub tag_requested: bool,
    pub not_before: Option<Seq<char>>,
    pub reason: Seq<char>,
    pub replace_existing: bool,
}

impl View for AtomPipelineJobRequest {
    type V = JobView;

    open spec fn view(&self) -> JobView {
        JobView {
            atom_id: self.atom_id@,
            embed_requested: self.embed_requested,
            tag_requested: self.tag_requested,
            not_before: opt_view(self.not_before),
            reason: self.reason@,
            replace_existing: self.replace_existing,
        }
    }
}

/// The job for an atom, to be run at once; beside what is queued for it already, or in its place.
pub open spec fn job_for(
    atom_id: Seq<char>,
    embed_requested: bool,
    tag_requested: bool,
    reason: Seq<char>,
    replace_existing: bool,
) -> JobView {
    JobView { atom_id, embed_requested, tag_requested, not_before: None, reason, replace_existing }
}

/// What a list of jobs holds.
pub open spec fn job_views(jobs: Seq<AtomPipelineJobRequest>) -> Seq<JobView> {
    jobs.map_values(|j: AtomPipelineJobRequest| j@)
}

/// The jobs for a list of atoms, in its order.
pub open spec fn jobs_for(
    ids: Seq<Seq<char>>,
    embed_requested: bool,
    tag_requested: bool,
    reason: Seq<char>,
    replace_existing: bool,
) -> Seq<JobView> {
    ids.map_values(
        |id: Seq<char>| job_for(id, embed_requested, tag_requested, reason, replace_existing),
    )
}

/// The job for an atom.
pub fn pipeline_job(
    atom_id: &str,
    embed_requested: bool,
    tag_requested: bool,
    reason: &str,
    replace_existing: bool,
) -> (r: AtomPipelineJobRequest)
    ensures
        r@ == job_for(atom_id@, embed_requested, tag_requested, reason@, replace_existing),
{
    AtomPipelineJobRequest {
        atom_id: atom_id.to_owned(),
        embed_requested,
        tag_requested,
        not_before: None,
        reason: reason.to_owned(),
        replace_existing,
    }
}

/// The jobs for a list of atoms, in its order.
pub fn pipeline_jobs(
    ids: &Vec<String>,
    embed_requested: bool,
    tag_requested: bool,
    reason: &str,
    replace_existing: bool,
) -> (r: Vec<AtomPipelineJobRequest>)
    ensures
        job_views(r@) == jobs_for(
            views(ids@),
            embed_requested,
            tag_requested,
            reason@,
            replace_existing,
        ),
{
    let mut r: Vec<AtomPipelineJobRequest> = Vec::new();
    let mut i: usize = 0;
    while i < ids.len()
        invariant
            i <= ids@.len(),
            r@.len() == i,
            forall|j: int|
                0 <= j < i ==> (#[trigger] r@[j])@ == job_for(
                    ids@[j]@,
                    embed_requested,
                    tag_requested,
                    reason@,
                    replace_existing,
                ),
        decreases ids@.len() - i,
    {
        r.push(
            pipeline_job(
                ids[i].as_str(),
                embed_requested,
                tag_requested,
                reason,
                replace_existing,
            ),
        );
        i = i + 1;
    }
    assert(job_views(r@) =~= jobs_for(
        views(ids@),
        embed_requested,
        tag_requested,
        reason@,
        replace_existing,
    ));
    r
}

/// The source that must be looked up before an atom is made, if any.
pub open spec fn source_in_question(r: CreateAtomRequest) -> Option<Seq<char>> {
    if r.skip_if_source_exists {
        opt_view(r.source_url)
    } else {
        None
    }
}

/// The source that must be looked up before the atom is made, if any.
pub fn source_to_check(request: &CreateAtomRequest) -> (r: Option<String>)
    ensures
        opt_view(r) == source_in_question(*request),
{
    if request.skip_if_source_exists {
        match &request.source_url {
            Some(u) => Some(u.clone()),
            None => None,
        }
    } else {
        None
    }
}

/// What is to be done to make an atom.
#[derive(Debug, Clone)]
pub struct NewAtom {
    pub id: String,
    pub created_at: String,
    pub job: Option<AtomPipelineJobRequest>,
}

/// What a plan to make an atom says.
pub open spec fn new_atom_plan(
    request: CreateAtomRequest,
    source_exists: bool,
    id: Seq<char>,
    now: Seq<char>,
) -> Option<(Seq<char>, Seq<char>, Option<JobView>)> {
    if source_in_question(request) is Some && source_exists {
        None
    } else if trimmed(request.content@).len() == 0 {
        Some((id, now, None))
    } else {
        Some((id, now, Some(job_for(id, true, true, "create_atom"@, false))))
    }
}

/// What a plan to make an atom holds.
pub open spec fn new_atom_view(plan: Option<NewAtom>) -> Option<
    (Seq<char>, Seq<char>, Option<JobView>),
> {
    match plan {
        Some(p) => Some(
            (
                p.id@,
                p.created_at@,
                match p.job {
                    Some(j) => Some(j@),
                    None => None,
                },
            ),
        ),
        None => None,
    }
}

/// How an atom with the given id is made: not at all if its source is in question and exists;
/// else inserted, and queued for embedding and tagging if it has text.
pub fn plan_create_atom_as(
    request: &CreateAtomRequest,
    source_exists: bool,
    id: String,
    now: String,
) -> (r: Option<NewAtom>)
    ensures
        new_atom_view(r) == new_atom_plan(*request, source_exists, id@, now@),
{
    if request.skip_if_source_exists && request.source_url.is_some() && source_exists {
        return None;
    }
    let job = if is_blank(request.content.as_str()) {
        None
    } else {
        Some(pipeline_job(id.as_str(), true, true, "create_atom", false))
    };
    Some(NewAtom { id, created_at: now, job })
}

/// How an atom is made, under a fresh id and at the present time.
pub fn plan_create_atom(request: &CreateAtomRequest, source_exists: bool) -> (r: Option<NewAtom>)
    ensures
        exists|id: Seq<char>, now: Seq<char>|
            is_id(id) && new_atom_view(r) == #[trigger] new_atom_plan(
                *request,
                source_exists,
                id,
                now,
            ),
{
    let id = new_id();
    let now = now_rfc3339();
    plan_create_atom_as(request, source_exists, id, now)
}

/// The most atoms that one call may make.
pub const MAX_BULK_ATOMS: usize = 1000;

/// Whether a bulk request has an acceptable size.
pub fn check_bulk_size(count: usize) -> (r: Result<(), AtomicCoreError>)
    ensures
        match r {
            Ok(_) => 1 <= count <= 1000,
            Err(e) => if count == 0 {
                e@ == ErrorView::Validation("At least one atom is required"@)
            } else {
                count > 1000 && e@ == ErrorView::Validation("Maximum 1000 atoms per bulk create"@)
            },
        },
{
    if count == 0 {
        return Err(AtomicCoreError::Validation("At least one atom is required".to_owned()));
    }
    if count > MAX_BULK_ATOMS {
        return Err(AtomicCoreError::Validation("Maximum 1000 atoms per bulk create".to_owned()));
    }
    Ok(())
}

/// The sources that the requests put in question, in their order.
pub open spec fn sources_in_question(requests: Seq<CreateAtomRequest>) -> Seq<Seq<char>>
    decreases requests.len(),
{
    if requests.len() == 0 {
        Seq::empty()
    } else {
        let before = sources_in_question(requests.drop_last());
        match source_in_question(requests.last()) {
            Some(u) => before.push(u),
            None => before,
        }
    }
}

/// Whether any request asks for duplicates to be skipped.
pub open spec fn any_skips(requests: Seq<CreateAtomRequest>) -> bool {
    exists|i: int| 0 <= i < requests.len() && (#[trigger] requests[i]).skip_if_source_exists
}

/// The sources to look up before the atoms are made; nothing is to be looked up when no request
/// asks for duplicates to be skipped.
pub fn sources_to_check(requests: &Vec<CreateAtomRequest>) -> (r: Option<Vec<String>>)
    ensures
        match r {
            Some(v) => any_skips(requests@) && views(v@) == sources_in_question(requests@),
            None => !any_skips(requests@),
        },
{
    let mut any: bool = false;
    let mut urls: Vec<String> = Vec::new();
    let mut i: usize = 0;
    assert(views(urls@) =~= Seq::<Seq<char>>::empty());
    while i < requests.len()
        invariant
            i <= requests@.len(),
            any == any_skips(requests@.take(i as int)),
            views(urls@) == sources_in_question(requests@.take(i as int)),
        decreases requests@.len() - i,
    {
        let ghost now = requests@.take(i + 1);
        let ghost was = requests@.take(i as int);
        assert(now.drop_last() =~= was);
        proof {
            if any {
                let k = choose|k: int|
                    0 <= k < was.len() && (#[trigger] was[k]).skip_if_source_exists;
                assert(now[k].skip_if_source_exists);
            }
            assert forall|k: int|
                0 <= k < now.len() && (#[trigger] now[k]).skip_if_source_exists
                    && k < i implies any by {
                assert(was[k].skip_if_source_exists);
            }
        }
        if requests[i].skip_if_source_exists {
            any = true;
            assert(now[i as int].skip_if_source_exists);
        }
        match source_to_check(&requests[i]) {
            Some(u) => {
                let ghost before = views(urls@);
                let ghost uv = u@;
                urls.push(u);
                assert(views(urls@) =~= before.push(uv));
            },
            None => {},
        }
        i = i + 1;
    }
    assert(requests@.take(i as int) =~= requests@);
    if any {
        Some(urls)
    } else {
        None
    }
}

/// Whether a request is to be carried out, given the sources that exist.
pub open spec fn is_new(r: CreateAtomRequest, existing: Seq<Seq<char>>) -> bool {
    match source_in_question(r) {
        Some(u) => !existing.contains(u),
        None => true,
    }
}

/// The requests to carry out, in their order, and how many are skipped.
pub fn select_new(requests: Vec<CreateAtomRequest>, existing: &Vec<String>) -> (r: (
    Vec<CreateAtomRequest>,
    usize,
))
    ensures
        r.0@ == requests@.filter(|q: CreateAtomRequest| is_new(q, views(existing@))),
        r.0@.len() + r.1 == requests@.len(),
{
    let ghost all = requests@;
    let ghost p = |q: CreateAtomRequest| is_new(q, views(existing@));
    let mut kept: Vec<CreateAtomRequest> = Vec::new();
    let mut skipped: usize = 0;
    let n: usize = requests.len();
    proof {
        reveal(Seq::filter);
        assert(all.take(0).filter(p) =~= Seq::<CreateAtomRequest>::empty());
    }
    for q in it: requests.into_iter()
        invariant
            it.seq() == all,
            all.len() == n,
            p == |q: CreateAtomRequest| is_new(q, views(existing@)),
            kept@ == all.take(it.index() as int).filter(p),
            kept@.len() + skipped == it.index(),
    {
        proof {
            let i = it.index() as int;
            assert(all.take(i + 1).drop_last() =~= all.take(i));
            reveal(Seq::filter);
        }
        let is_known = match source_to_check(&q) {
            Some(u) => text_in(existing, u.as_str()),
            None => false,
        };
        if is_known {
            skipped = skipped + 1;
        } else {
            kept.push(q);
        }
    }
    assert(all.take(n as int) =~= all);
    (kept, skipped)
}

/// The atoms that a bulk request inserts: id, request and time of each.
#[derive(Debug, Clone)]
pub struct BulkPlan {
    pub atoms: Vec<(String, CreateAtomRequest, String)>,
    pub skipped: usize,
}

/// Whether a plan inserts every new request, in order, each under its own one of the ids, all of
/// them at one time, and counts what it skips.
pub open spec fn is_bulk_plan(
    plan: BulkPlan,
    requests: Seq<CreateAtomRequest>,
    existing: Seq<Seq<char>>,
    ids: Seq<Seq<char>>,
    now: Seq<char>,
) -> bool {
    &&& plan.atoms@.map_values(|a: (String, CreateAtomRequest, String)| a.1) == requests.filter(
        |q: CreateAtomRequest| is_new(q, existing),
    )
    &&& plan.atoms@.len() + plan.skipped == requests.len()
    &&& forall|i: int|
        #![trigger plan.atoms@[i]]
        0 <= i < plan.atoms@.len() ==> plan.atoms@[i].0@ == ids[i] && plan.atoms@[i].2@ == now
}

/// The bulk plan: every new request, in order, the first under the first id and so on, at the
/// given time.
pub fn plan_create_atoms_bulk_as(
    requests: Vec<CreateAtomRequest>,
    existing: &Vec<String>,
    ids: Vec<String>,
    now: String,
) -> (r: BulkPlan)
    requires
        ids@.len() >= requests@.len(),
    ensures
        is_bulk_plan(r, requests@, views(existing@), views(ids@), now@),
{
    let ghost drawn = views(ids@);
    let (kept, skipped) = select_new(requests, existing);
    let ghost all = kept@;
    let mut atoms: Vec<(String, CreateAtomRequest, String)> = Vec::new();
    for q in it: kept.into_iter()
        invariant
            it.seq() == all,
            all.len() <= ids@.len(),
            drawn == views(ids@),
            atoms@.len() == it.index(),
            forall|i: int|
                #![trigger atoms@[i]]
                0 <= i < atoms@.len() ==> atoms@[i].0@ == drawn[i] && atoms@[i].1 == all[i]
                    && atoms@[i].2@ == now@,
    {
        let i: usize = atoms.len();
        assert(drawn[i as int] == ids@[i as int]@);
        atoms.push((ids[i].clone(), q, now.clone()));
    }
    assert(atoms@.map_values(|a: (String, CreateAtomRequest, String)| a.1) =~= all);
    BulkPlan { atoms, skipped }
}

/// The bulk plan: every new request, in order, each under a fresh id, all of them at the present
/// time.
pub fn plan_create_atoms_bulk(requests: Vec<CreateAtomRequest>, existing: &Vec<String>) -> (r:
    BulkPlan)
    ensures
        exists|ids: Seq<Seq<char>>, now: Seq<char>|
            {
                &&& #[trigger] is_bulk_plan(r, requests@, views(existing@), ids, now)
                &&& ids.len() == requests@.len()
                &&& forall|i: int| 0 <= i < ids.len() ==> is_id(#[trigger] ids[i])
            },
{
    let now = now_rfc3339();
    let mut ids: Vec<String> = Vec::new();
    while ids.len() < requests.len()
        invariant
            ids@.len() <= requests@.len(),
            forall|i: int| 0 <= i < ids@.len() ==> is_id((#[trigger] ids@[i])@),
        decreases requests@.len() - ids@.len(),
    {
        ids.push(new_id());
    }
    let ghost drawn = views(ids@);
    let ghost time = now@;
    let r = plan_create_atoms_bulk_as(requests, existing, ids, now);
    assert(is_bulk_plan(r, requests@, views(existing@), drawn, time));
    r
}

/// Atoms that are inserted at once have ids of their own if the ids that were drawn differ.
pub proof fn law_bulk_atoms_have_ids_of_their_own(
    plan: BulkPlan,
    requests: Seq<CreateAtomRequest>,
    existing: Seq<Seq<char>>,
    ids: Seq<Seq<char>>,
    now: Seq<char>,
)
    requires
        is_bulk_plan(plan, requests, existing, ids, now),
        ids.len() >= requests.len(),
        ids.no_duplicates(),
    ensures
        forall|i: int, j: int|
            #![trigger plan.atoms@[i], plan.atoms@[j]]
            0 <= i < j < plan.atoms@.len() ==> plan.atoms@[i].0@ != plan.atoms@[j].0@,
{
}

/// What a bulk request made.
#[derive(Debug, Clone)]
pub struct BulkCreateResult {
    pub atoms: Vec<AtomWithTags>,
    pub count: usize,
    pub skipped: usize,
}

/// The ids of a list of atoms.
pub open spec fn atom_ids(atoms: Seq<AtomWithTags>) -> Seq<Seq<char>> {
    atoms.map_values(|a: AtomWithTags| a.atom.id@)
}

/// What follows a bulk insertion: the jobs for what was inserted, and the answer.
pub fn finish_create_atoms_bulk(inserted: Vec<AtomWithTags>, skipped: usize) -> (r: (
    Vec<AtomPipelineJobRequest>,
    BulkCreateResult,
))
    ensures
        job_views(r.0@) == jobs_for(atom_ids(inserted@), true, true, "create_atoms_bulk"@, false),
        r.1.atoms@ == inserted@,
        r.1.count == inserted@.len(),
        r.1.skipped == skipped,
{
    let mut ids: Vec<String> = Vec::new();
    let mut i: usize = 0;
    while i < inserted.len()
        invariant
            i <= inserted@.len(),
            ids@.len() == i,
            forall|j: int| 0 <= j < i ==> (#[trigger] ids@[j])@ == inserted@[j].atom.id@,
        decreases inserted@.len() - i,
    {
        ids.push(inserted[i].atom.id.clone());
        i = i + 1;
    }
    assert(views(ids@) =~= atom_ids(inserted@));
    let jobs = pipeline_jobs(&ids, true, true, "create_atoms_bulk", false);
    let count: usize = inserted.len();
    (jobs, BulkCreateResult { atoms: inserted, count, skipped })
}

/// A bulk request is accepted if and only if it has at least one atom and at most a thousand.
pub proof fn law_bulk_has_one_to_a_thousand_atoms(count: usize, r: Result<(), AtomicCoreError>)
    requires
        call_ensures(check_bulk_size, (count,), r),
    ensures
        r is Ok <==> 1 <= count <= 1000,
{
}

/// A job asks for what it was made for, for its own atom, at once.
pub proof fn law_jobs_ask_for_what_they_are_made_for(
    ids: &Vec<String>,
    embed: bool,
    tag: bool,
    reason: &str,
    replace: bool,
    r: Vec<AtomPipelineJobRequest>,
)
    requires
        call_ensures(pipeline_jobs, (ids, embed, tag, reason, replace), r),
    ensures
        r@.len() == ids@.len(),
        forall|i: int|
            #![trigger r@[i]]
            0 <= i < r@.len() ==> {
                &&& r@[i].atom_id@ == ids@[i]@
                &&& r@[i].embed_requested == embed
                &&& r@[i].tag_requested == tag
                &&& r@[i].not_before is None
                &&& r@[i].reason@ == reason@
                &&& r@[i].replace_existing == replace
            },
{
    let wanted = jobs_for(views(ids@), embed, tag, reason@, replace);
    assert(views(ids@).len() == ids@.len());
    assert(job_views(r@).len() == r@.len());
    assert forall|i: int| #![trigger r@[i]] 0 <= i < r@.len() implies {
        &&& r@[i].atom_id@ == ids@[i]@
        &&& r@[i].embed_requested == embed
        &&& r@[i].tag_requested == tag
        &&& r@[i].not_before is None
        &&& r@[i].reason@ == reason@
        &&& r@[i].replace_existing == replace
    } by {
        assert(job_views(r@)[i] == wanted[i]);
        assert(r@[i]@ == wanted[i]);
    }
}

/// An atom is not made if and only if its request asks for duplicates to be skipped, names a
/// source, and that source exists. An atom that is made has the id and the time that were given,
/// and is queued for embedding and tagging if and only if it holds anything but white space.
pub proof fn law_atoms_are_made_unless_their_source_exists(
    request: &CreateAtomRequest,
    source_exists: bool,
    id: String,
    now: String,
    r: Option<NewAtom>,
)
    requires
        call_ensures(plan_create_atom_as, (request, source_exists, id, now), r),
    ensures
        r is None <==> request.skip_if_source_exists && request.source_url is Some && source_exists,
        r matches Some(p) ==> {
            &&& p.id@ == id@
            &&& p.created_at@ == now@
            &&& p.job is Some <==> trimmed(request.content@).len() > 0
            &&& p.job matches Some(j) ==> j.atom_id@ == id@ && j.embed_requested && j.tag_requested
                && j.not_before is None && j.reason@ == "create_atom"@ && !j.replace_existing
        },
{
    if r is Some && r->0.job is Some {
        assert(r->0.job->0@ == job_for(id@, true, true, "create_atom"@, false));
    }
}

/// Whether a request is passed over: it asks for duplicates to be skipped, and names a source that
/// exists.
pub open spec fn is_duplicate(q: CreateAtomRequest, existing: Seq<String>) -> bool {
    q.skip_if_source_exists && q.source_url is Some && exists|i: int|
        0 <= i < existing.len() && (#[trigger] existing[i])@ == q.source_url->0@
}

proof fn lemma_duplicates(q: CreateAtomRequest, existing: Seq<String>)
    ensures
        is_new(q, views(existing)) <==> !is_duplicate(q, existing),
{
    let all = views(existing);
    if q.source_url is Some {
        let u = q.source_url->0@;
        if all.contains(u) {
            let i = choose|i: int| 0 <= i < all.len() && all[i] == u;
            assert(existing[i]@ == u);
        }
        if exists|i: int| 0 <= i < existing.len() && (#[trigger] existing[i])@ == u {
            let i = choose|i: int| 0 <= i < existing.len() && (#[trigger] existing[i])@ == u;
            assert(all[i] == u);
        }
    }
}

/// A bulk request makes every atom that is no duplicate, in order, each under the next of the ids
/// and all at one time, and counts the others.
pub proof fn law_bulk_makes_all_but_duplicates(
    requests: Vec<CreateAtomRequest>,
    existing: &Vec<String>,
    ids: Vec<String>,
    now: String,
    r: BulkPlan,
)
    requires
        ids@.len() >= requests@.len(),
        call_ensures(plan_create_atoms_bulk_as, (requests, existing, ids, now), r),
    ensures
        r.atoms@.map_values(|a: (String, CreateAtomRequest, String)| a.1) == requests@.filter(
            |q: CreateAtomRequest| !is_duplicate(q, existing@),
        ),
        r.skipped == requests@.len() - r.atoms@.len(),
        forall|i: int|
            #![trigger r.atoms@[i]]
            0 <= i < r.atoms@.len() ==> r.atoms@[i].0@ == ids@[i]@ && r.atoms@[i].2@ == now@,
{
    let p = |q: CreateAtomRequest| is_new(q, views(existing@));
    let d = |q: CreateAtomRequest| !is_duplicate(q, existing@);
    assert forall|q: CreateAtomRequest| #[trigger] p(q) == d(q) by {
        lemma_duplicates(q, existing@);
    }
    assert(p =~= d);
    assert forall|i: int| #![trigger r.atoms@[i]] 0 <= i < r.atoms@.len() implies r.atoms@[i].0@
        == ids@[i]@ && r.atoms@[i].2@ == now@ by {
        assert(views(ids@)[i] == ids@[i]@);
    }
}

/// Sources are looked up if and only if some request asks for duplicates to be skipped; those that
/// are looked up are the sources of these requests, all of them in order.
pub proof fn law_flagged_sources_are_looked_up(
    requests: &Vec<CreateAtomRequest>,
    r: Option<Vec<String>>,
)
    requires
        call_ensures(sources_to_check, (requests,), r),
    ensures
        r is Some <==> exists|i: int|
            0 <= i < requests@.len() && (#[trigger] requests@[i]).skip_if_source_exists,
        r matches Some(v) ==> views(v@) == requests@.filter(
            |q: CreateAtomRequest| q.skip_if_source_exists && q.source_url is Some,
        ).map_values(|q: CreateAtomRequest| q.source_url->0@),
{
    lemma_sources(requests@);
}

proof fn lemma_sources(requests: Seq<CreateAtomRequest>)
    ensures
        sources_in_question(requests) == requests.filter(
            |q: CreateAtomRequest| q.skip_if_source_exists && q.source_url is Some,
        ).map_values(|q: CreateAtomRequest| q.source_url->0@),
    decreases requests.len(),
{
    reveal(Seq::filter);
    let p = |q: CreateAtomRequest| q.skip_if_source_exists && q.source_url is Some;
    let url = |q: CreateAtomRequest| q.source_url->0@;
    if requests.len() > 0 {
        let d = requests.drop_last();
        lemma_sources(d);
        if p(requests.last()) {
            assert(requests.filter(p).map_values(url) =~= d.filter(p).map_values(url).push(
                url(requests.last()),
            ));
        }
    } else {
        assert(requests.filter(p).map_values(url) =~= Seq::empty());
    }
}

/// What a bulk request inserted is answered whole, with its number, and every atom of it is queued
/// for embedding and tagging.
pub proof fn law_inserted_atoms_are_queued(
    inserted: Vec<AtomWithTags>,
    skipped: usize,
    r: (Vec<AtomPipelineJobRequest>, BulkCreateResult),
)
    requires
        call_ensures(finish_create_atoms_bulk, (inserted, skipped), r),
    ensures
        r.1.atoms@ == inserted@,
        r.1.count == inserted@.len(),
        r.1.skipped == skipped,
        r.0@.len() == inserted@.len(),
        forall|i: int|
            #![trigger r.0@[i]]
            0 <= i < r.0@.len() ==> r.0@[i].atom_id@ == inserted@[i].atom.id@
                && r.0@[i].embed_requested && r.0@[i].tag_requested && !r.0@[i].replace_existing,
{
    let wanted = jobs_for(atom_ids(inserted@), true, true, "create_atoms_bulk"@, false);
    assert(atom_ids(inserted@).len() == inserted@.len());
    assert(job_views(r.0@).len() == r.0@.len());
    assert forall|i: int| #![trigger r.0@[i]] 0 <= i < r.0@.len() implies r.0@[i].atom_id@
        == inserted@[i].atom.id@ && r.0@[i].embed_requested && r.0@[i].tag_requested
        && !r.0@[i].replace_existing by {
        assert(job_views(r.0@)[i] == wanted[i]);
        assert(r.0@[i]@ == wanted[i]);
    }
}

} // verus!
