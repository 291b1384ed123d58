//! Classification of catalogued records against their re-derived state, and
//! the resumable progress of a reconciliation batch.
use vstd::prelude::*;
use crate::catalog::{Author, License, Plugin, Version};
use crate::text::same_text;

verus! {

pub open spec fn same_license(a: License, b: License) -> bool {
    a.id@ == b.id@ && a.name@ == b.name@ && a.url@ == b.url@
}

pub open spec fn same_author(a: Author, b: Author) -> bool {
    a.name@ == b.name@ && a.url@ == b.url@ && a.avatar_url@ == b.avatar_url@
}

pub open spec fn same_authors(a: Seq<Author>, b: Seq<Author>) -> bool {
    a.len() == b.len() && forall|i: int| 0 <= i < a.len() ==> same_author(#[trigger] a[i], b[i])
}

pub open spec fn version_differs(a: Version, b: Version) -> bool {
    a.version@ != b.version@ || a.downloads != b.downloads
}

/// Two version lists differ in length, or in some position's version string
/// or download count.
pub open spec fn versions_differ(old: Seq<Version>, new: Seq<Version>) -> bool {
    old.len() != new.len() || exists|i: int| 0 <= i < old.len() && #[trigger] version_differs(old[i], new[i])
}

/// A re-derived record differs from the stored one in a field that the
/// catalog tracks.
pub open spec fn plugin_differs(old: Plugin, new: Plugin) -> bool {
    ||| old.name@ != new.name@
    ||| old.summary@ != new.summary@
    ||| old.stars != new.stars
    ||| old.downloads != new.downloads
    ||| !same_license(old.license, new.license)
    ||| !same_authors(old.authors@, new.authors@)
    ||| versions_differ(old.versions@, new.versions@)
}

pub fn versions_changed(old: &[Version], new: &[Version]) -> (r: bool)
    ensures
        r == versions_differ(old@, new@),
{
    if old.len() != new.len() {
        return true;
    }
    let mut i: usize = 0;
    while i < old.len()
        invariant
            i <= old@.len(),
            old@.len() == new@.len(),
            forall|j: int| 0 <= j < i ==> !#[trigger] version_differs(old@[j], new@[j]),
        decreases old@.len() - i,
    {
        if !same_text(old[i].version.as_str(), new[i].version.as_str()) || old[i].downloads != new[i].downloads {
            assert(version_differs(old@[i as int], new@[i as int]));
            return true;
        }
        i = i + 1;
    }
    false
}

fn license_eq(a: &License, b: &License) -> (r: bool)
    ensures
        r == same_license(*a, *b),
{
    same_text(a.id.as_str(), b.id.as_str()) && same_text(a.name.as_str(), b.name.as_str()) && same_text(
        a.url.as_str(),
        b.url.as_str(),
    )
}

fn authors_eq(a: &[Author], b: &[Author]) -> (r: bool)
    ensures
        r == same_authors(a@, b@),
{
    if a.len() != b.len() {
        return false;
    }
    let mut i: usize = 0;
    while i < a.len()
        invariant
            i <= a@.len(),
            a@.len() == b@.len(),
            forall|j: int| 0 <= j < i ==> same_author(#[trigger] a@[j], b@[j]),
        decreases a@.len() - i,
    {
        let x = &a[i];
        let y = &b[i];
        if !(same_text(x.name.as_str(), y.name.as_str()) && same_text(x.url.as_str(), y.url.as_str())
            && same_text(x.avatar_url.as_str(), y.avatar_url.as_str())) {
            return false;
        }
        i = i + 1;
    }
    true
}

pub fn plugin_changed(old: &Plugin, new: &Plugin) -> (r: bool)
    ensures
        r == plugin_differs(*old, *new),
{
    !same_text(old.name.as_str(), new.name.as_str()) || !same_text(old.summary.as_str(), new.summary.as_str())
        || old.stars != new.stars || old.downloads != new.downloads || !license_eq(
        &old.license,
        &new.license,
    ) || !authors_eq(old.authors.as_slice(), new.authors.as_slice()) || versions_changed(
        old.versions.as_slice(),
        new.versions.as_slice(),
    )
}

/// A record compared with itself shows no change: a second reconciliation
/// pass over an unchanged upstream classifies every record as unchanged.
pub proof fn reconciliation_is_idempotent(p: Plugin)
    ensures
        !plugin_differs(p, p),
{
}

/// What fetching a record's source repository again gave.
#[derive(Debug, Clone)]
pub enum RepoOutcome {
    /// The stored source address names no repository.
    Unparsable,
    /// The repository is gone.
    NotFound,
    /// The fetch failed otherwise.
    Failed(String),
    /// The repository is archived.
    Archived,
    /// The repository is there and active.
    Found,
}

#[derive(Debug, Clone)]
pub enum UpdateStatus {
    Updated(Plugin),
    Unchanged,
    Deleted,
}

/// The classification of one stored record, given the repository outcome
/// and the re-derived record with the same id, its preserved fields merged
/// in (`None` when the repository no longer yields one).
pub fn classify_update(old: &Plugin, outcome: RepoOutcome, rebuilt: Option<Plugin>) -> (r: Result<UpdateStatus, String>)
    ensures
        match outcome {
            RepoOutcome::Unparsable => r matches Ok(UpdateStatus::Unchanged),
            RepoOutcome::NotFound => r matches Ok(UpdateStatus::Deleted),
            RepoOutcome::Failed(e) => r matches Err(f) && f@ == e@,
            RepoOutcome::Archived => r matches Ok(UpdateStatus::Deleted),
            RepoOutcome::Found => match rebuilt {
                None => r matches Ok(UpdateStatus::Deleted),
                Some(p) => if plugin_differs(*old, p) {
                    r matches Ok(UpdateStatus::Updated(q)) && q == p
                } else {
                    r matches Ok(UpdateStatus::Unchanged)
                },
            },
        },
{
    match outcome {
        RepoOutcome::Unparsable => Ok(UpdateStatus::Unchanged),
        RepoOutcome::NotFound => Ok(UpdateStatus::Deleted),
        RepoOutcome::Failed(e) => Err(e),
        RepoOutcome::Archived => Ok(UpdateStatus::Deleted),
        RepoOutcome::Found => match rebuilt {
            None => Ok(UpdateStatus::Deleted),
            Some(p) => {
                if plugin_changed(old, &p) {
                    Ok(UpdateStatus::Updated(p))
                } else {
                    Ok(UpdateStatus::Unchanged)
                }
            },
        },
    }
}

/// The ids of a batch still to process: all of them when forced, else those
/// not attempted by an earlier interrupted run.
pub open spec fn pending(all: Seq<Seq<char>>, processed: Seq<Seq<char>>, force: bool) -> Seq<Seq<char>>
    decreases all.len(),
{
    if force || all.len() == 0 {
        all
    } else {
        pending(all.drop_last(), processed, force) + if processed.contains(all.last()) {
            Seq::<Seq<char>>::empty()
        } else {
            seq![all.last()]
        }
    }
}

fn contains_id(ids: &[String], id: &str) -> (r: bool)
    ensures
        r == ids.deep_view().contains(id@),
{
    let mut i: usize = 0;
    while i < ids.len()
        invariant
            i <= ids@.len(),
            forall|j: int| 0 <= j < i ==> ids@[j]@ != id@,
        decreases ids@.len() - i,
    {
        if same_text(ids[i].as_str(), id) {
            assert(ids.deep_view()[i as int] == id@);
            return true;
        }
        i = i + 1;
    }
    assert(!ids.deep_view().contains(id@)) by {
        if ids.deep_view().contains(id@) {
            let j = choose|j: int| 0 <= j < ids.deep_view().len() && ids.deep_view()[j] == id@;
            assert(ids@[j]@ == id@);
        }
    }
    false
}

pub fn pending_ids(all: &[String], processed: &[String], force: bool) -> (r: Vec<String>)
    ensures
        r.deep_view() == pending(all.deep_view(), processed.deep_view(), force),
{
    let mut r: Vec<String> = Vec::new();
    let mut i: usize = 0;
    while i < all.len()
        invariant
            i <= all@.len(),
            r.deep_view() == pending(all.deep_view().subrange(0, i as int), processed.deep_view(), force),
        decreases all@.len() - i,
    {
        let ghost pre = all.deep_view().subrange(0, i + 1);
        assert(pre.drop_last() =~= all.deep_view().subrange(0, i as int));
        assert(pre.last() == all@[i as int]@);
        if force || !contains_id(processed, all[i].as_str()) {
            r.push(all[i].clone());
        }
        assert(force ==> pending(pre, processed.deep_view(), force) == pre);
        assert(r.deep_view() =~= pending(pre, processed.deep_view(), force));
        i = i + 1;
    }
    assert(all.deep_view().subrange(0, all@.len() as int) =~= all.deep_view());
    r
}

pub open spec fn distinct(s: Seq<Seq<char>>) -> bool {
    forall|i: int, j: int| 0 <= i < j < s.len() ==> s[i] != s[j]
}

/// A batch of distinct ids interrupted after its first `k` ids, run again
/// without force, processes exactly the remaining ones, in order.
pub proof fn resume_processes_the_rest(all: Seq<Seq<char>>, k: int)
    requires
        0 <= k <= all.len(),
        distinct(all),
    ensures
        pending(all, all.subrange(0, k), false) == all.subrange(k, all.len() as int),
    decreases all.len(),
{
    if all.len() == 0 {
        assert(all.subrange(k, 0) =~= all);
    } else if k == all.len() {
        lemma_pending_none(all, all);
        assert(all.subrange(k, all.len() as int) =~= Seq::<Seq<char>>::empty());
        assert(all.subrange(0, k) =~= all);
    } else {
        let front = all.drop_last();
        assert(distinct(front));
        assert(all.subrange(0, k) =~= front.subrange(0, k));
        resume_processes_the_rest(front, k);
        assert(!all.subrange(0, k).contains(all.last())) by {
            if all.subrange(0, k).contains(all.last()) {
                let j = choose|j: int| 0 <= j < k && all.subrange(0, k)[j] == all.last();
                assert(all[j] == all[all.len() - 1]);
            }
        }
        assert(front.subrange(k, front.len() as int).push(all.last()) =~= all.subrange(k, all.len() as int));
    }
}

/// Ids all already processed leave nothing pending.
proof fn lemma_pending_none(all: Seq<Seq<char>>, processed: Seq<Seq<char>>)
    requires
        forall|i: int| 0 <= i < all.len() ==> processed.contains(#[trigger] all[i]),
    ensures
        pending(all, processed, false) == Seq::<Seq<char>>::empty(),
    decreases all.len(),
{
    if all.len() > 0 {
        let front = all.drop_last();
        assert forall|i: int| 0 <= i < front.len() implies processed.contains(#[trigger] front[i]) by {
            assert(front[i] == all[i]);
        }
        lemma_pending_none(front, processed);
        assert(processed.contains(all[all.len() - 1]));
        assert(Seq::<Seq<char>>::empty() + Seq::<Seq<char>>::empty() =~= Seq::<Seq<char>>::empty());
    }
}

/// The progress to persist after a run: the earlier attempted ids plus this
/// run's when quota exhaustion cut it short; nothing (the marker cleared)
/// after a complete pass.
pub fn progress_after_run(earlier: &[String], attempted: &[String], stopped: bool) -> (r: Option<Vec<String>>)
    ensures
        stopped ==> (r matches Some(v) && v.deep_view() == earlier.deep_view() + attempted.deep_view()),
        !stopped ==> r is None,
{
    if !stopped {
        return None;
    }
    let mut v: Vec<String> = Vec::new();
    let mut i: usize = 0;
    while i < earlier.len()
        invariant
            i <= earlier@.len(),
            v.deep_view() == earlier.deep_view().subrange(0, i as int),
        decreases earlier@.len() - i,
    {
        let ghost before = v.deep_view();
        let x = earlier[i].clone();
        assert(x@ == earlier.deep_view()[i as int]);
        v.push(x);
        assert(v.deep_view() =~= before.push(x@));
        assert(v.deep_view() =~= earlier.deep_view().subrange(0, i + 1));
        i = i + 1;
    }
    let mut j: usize = 0;
    while j < attempted.len()
        invariant
            j <= attempted@.len(),
            v.deep_view() == earlier.deep_view() + attempted.deep_view().subrange(0, j as int),
        decreases attempted@.len() - j,
    {
        let ghost before = v.deep_view();
        let x = attempted[j].clone();
        assert(x@ == attempted.deep_view()[j as int]);
        v.push(x);
        assert(v.deep_view() =~= before.push(x@));
        assert(v.deep_view() =~= earlier.deep_view() + attempted.deep_view().subrange(0, j + 1));
        j = j + 1;
    }
    assert(attempted.deep_view().subrange(0, attempted@.len() as int) =~= attempted.deep_view());
    assert(earlier.deep_view().subrange(0, earlier@.len() as int) =~= earlier.deep_view());
    Some(v)
}

/// What one reconciliation batch produced.
#[derive(Debug)]
pub struct UpdateResult {
    pub updated: Vec<Plugin>,
    pub unchanged: Vec<String>,
    pub deleted: Vec<String>,
    pub errors: Vec<(String, String)>,
    pub processed_ids: Vec<String>,
    pub stopped_by_rate_limit: bool,
}

/// The kind of an outcome: 0 updated, 1 unchanged, 2 deleted, 3 failed.
pub open spec fn outcome_kind(r: Result<UpdateStatus, String>) -> int {
    match r {
        Ok(UpdateStatus::Updated(_)) => 0,
        Ok(UpdateStatus::Unchanged) => 1,
        Ok(UpdateStatus::Deleted) => 2,
        Err(_) => 3,
    }
}

/// The ids, in batch order, whose outcome is of kind `kind`.
pub open spec fn ids_of_kind(results: Seq<(String, Result<UpdateStatus, String>)>, kind: int) -> Seq<Seq<char>>
    decreases results.len(),
{
    if results.len() == 0 {
        Seq::empty()
    } else {
        ids_of_kind(results.drop_last(), kind) + if outcome_kind(results.last().1) == kind {
            seq![results.last().0@]
        } else {
            Seq::empty()
        }
    }
}

/// The re-derived records of the updated outcomes, in batch order, with
/// the ids they were reported under.
pub open spec fn updated_of(results: Seq<(String, Result<UpdateStatus, String>)>) -> Seq<Plugin>
    decreases results.len(),
{
    if results.len() == 0 {
        Seq::empty()
    } else {
        updated_of(results.drop_last()) + match results.last().1 {
            Ok(UpdateStatus::Updated(p)) => seq![p],
            _ => Seq::empty(),
        }
    }
}

pub open spec fn ids_view(results: Seq<(String, Result<UpdateStatus, String>)>) -> Seq<Seq<char>> {
    results.map_values(|r: (String, Result<UpdateStatus, String>)| r.0@)
}

pub open spec fn error_ids(errors: Seq<(String, String)>) -> Seq<Seq<char>> {
    errors.map_values(|e: (String, String)| e.0@)
}

/// Sorts a batch's outcomes by kind, keeping batch order in each, and lists
/// every attempted id.
pub fn collect_update_results(results: Vec<(String, Result<UpdateStatus, String>)>, stopped: bool) -> (r: UpdateResult)
    ensures
        r.processed_ids.deep_view() == ids_view(results@),
        r.updated@ == updated_of(results@),
        r.updated@.len() == ids_of_kind(results@, 0).len(),
        r.unchanged.deep_view() == ids_of_kind(results@, 1),
        r.deleted.deep_view() == ids_of_kind(results@, 2),
        error_ids(r.errors@) == ids_of_kind(results@, 3),
        r.stopped_by_rate_limit == stopped,
{
    let ghost all = results@;
    let total = results.len();
    let mut rest = results;
    let mut out = UpdateResult {
        updated: Vec::new(),
        unchanged: Vec::new(),
        deleted: Vec::new(),
        errors: Vec::new(),
        processed_ids: Vec::new(),
        stopped_by_rate_limit: stopped,
    };
    assert(rest@ =~= all.subrange(0, total as int));
    assert(all.subrange(0, 0) =~= Seq::<(String, Result<UpdateStatus, String>)>::empty());
    assert(out.processed_ids.deep_view() =~= Seq::<Seq<char>>::empty());
    assert(out.unchanged.deep_view() =~= Seq::<Seq<char>>::empty());
    assert(out.deleted.deep_view() =~= Seq::<Seq<char>>::empty());
    assert(error_ids(out.errors@) =~= Seq::<Seq<char>>::empty());
    while rest.len() > 0
        invariant
            total == all.len(),
            rest@.len() <= total,
            rest@ == all.subrange(total - rest@.len(), total as int),
            out.stopped_by_rate_limit == stopped,
            out.processed_ids.deep_view() == ids_view(all.subrange(0, total - rest@.len())),
            out.updated@ == updated_of(all.subrange(0, total - rest@.len())),
            out.updated@.len() == ids_of_kind(all.subrange(0, total - rest@.len()), 0).len(),
            out.unchanged.deep_view() == ids_of_kind(all.subrange(0, total - rest@.len()), 1),
            out.deleted.deep_view() == ids_of_kind(all.subrange(0, total - rest@.len()), 2),
            error_ids(out.errors@) == ids_of_kind(all.subrange(0, total - rest@.len()), 3),
        decreases rest@.len(),
    {
        let ghost k = (total - rest@.len()) as int;
        let ghost pre = all.subrange(0, k + 1);
        assert(pre.drop_last() =~= all.subrange(0, k));
        let (id, status) = rest.remove(0);
        assert(rest@ =~= all.subrange(total - rest@.len(), total as int));
        assert(pre.last() == (id, status));
        let ghost p0 = out.processed_ids.deep_view();
        let ghost u0 = out.unchanged.deep_view();
        let ghost d0 = out.deleted.deep_view();
        let ghost e0 = error_ids(out.errors@);
        out.processed_ids.push(id.clone());
        assert(out.processed_ids.deep_view() =~= p0.push(id@));
        assert(ids_view(pre) =~= ids_view(all.subrange(0, k)).push(id@));
        match status {
            Ok(UpdateStatus::Updated(p)) => {
                let ghost u = out.updated@;
                out.updated.push(p);
                assert(out.updated@ =~= u.push(p));
            },
            Ok(UpdateStatus::Unchanged) => {
                out.unchanged.push(id);
                assert(out.unchanged.deep_view() =~= u0.push(pre.last().0@));
            },
            Ok(UpdateStatus::Deleted) => {
                out.deleted.push(id);
                assert(out.deleted.deep_view() =~= d0.push(pre.last().0@));
            },
            Err(e) => {
                out.errors.push((id, e));
                assert(error_ids(out.errors@) =~= e0.push(pre.last().0@));
            },
        }
        assert(ids_of_kind(pre, 1) =~= ids_of_kind(all.subrange(0, k), 1) + if outcome_kind(pre.last().1) == 1 {
            seq![pre.last().0@]
        } else {
            Seq::<Seq<char>>::empty()
        });
    }
    assert(all.subrange(0, total as int) =~= all);
    out
}

/// Each outcome of a batch lands in exactly one of the four lists: their
/// lengths add up to the number of outcomes.
pub proof fn outcomes_partition(results: Seq<(String, Result<UpdateStatus, String>)>)
    ensures
        ids_of_kind(results, 0).len() + ids_of_kind(results, 1).len() + ids_of_kind(results, 2).len()
            + ids_of_kind(results, 3).len() == results.len(),
    decreases results.len(),
{
    if results.len() > 0 {
        outcomes_partition(results.drop_last());
    }
}

} // verus!
