//! The record of completed jobs, keyed by job id.
use vstd::prelude::*;
use vstd::string::*;
use crate::errors::AppError;
use crate::hls::count_segments;
use crate::models::{JobListResponse, JobResult, JobStatus, JobSummary};
use crate::text::{chars_of, concat_str, count_prefixed_lines, file_extension, file_stem, split_file_name};

verus! {

/// Completed jobs, at most one per job id, in the order they were first recorded.
/// They are kept in a vector whose ids are kept unique: vstd gives std's `HashMap` its
/// contracts only for key types known to obey its key model (integers, `bool` and boxes
/// of them), which `String` ids are not.
pub struct JobStore {
    jobs: Vec<JobResult>,
}

/// No two jobs share an id.
pub open spec fn ids_unique(s: Seq<JobResult>) -> bool {
    forall|i: int, j: int|
        0 <= i < s.len() && 0 <= j < s.len() && i != j ==> s[i].job_id@ != s[j].job_id@
}

/// Some job of `s` has the id `k`.
pub open spec fn has_id(s: Seq<JobResult>, k: Seq<char>) -> bool {
    exists|i: int| 0 <= i < s.len() && s[i].job_id@ == k
}

/// The ids of the jobs of `s`.
pub open spec fn ids_of(s: Seq<JobResult>) -> Set<Seq<char>> {
    Set::new(|k: Seq<char>| has_id(s, k))
}

/// Without repeated ids there are as many ids as jobs.
proof fn lemma_ids_count(s: Seq<JobResult>)
    requires
        ids_unique(s),
    ensures
        ids_of(s).finite(),
        ids_of(s).len() == s.len(),
    decreases s.len(),
{
    if s.len() == 0 {
        assert(ids_of(s) =~= Set::<Seq<char>>::empty());
    } else {
        let t = s.drop_last();
        let n = s.len() - 1;
        assert(ids_unique(t)) by {
            assert forall|a: int, b: int|
                0 <= a < t.len() && 0 <= b < t.len() && a != b implies t[a].job_id@ != t[b].job_id@ by {
                assert(t[a] == s[a] && t[b] == s[b]);
            }
        }
        lemma_ids_count(t);
        let k = s[n].job_id@;
        assert(!ids_of(t).contains(k)) by {
            if has_id(t, k) {
                let c = choose|c: int| 0 <= c < t.len() && t[c].job_id@ == k;
                assert(s[c].job_id@ == k);
            }
        }
        assert(ids_of(s) =~= ids_of(t).insert(k)) by {
            assert forall|key: Seq<char>| has_id(s, key) == (has_id(t, key) || key == k) by {
                if has_id(s, key) {
                    let c = choose|c: int| 0 <= c < s.len() && s[c].job_id@ == key;
                    if c < n {
                        assert(t[c].job_id@ == key);
                    }
                }
                if has_id(t, key) {
                    let c = choose|c: int| 0 <= c < t.len() && t[c].job_id@ == key;
                    assert(s[c].job_id@ == key);
                }
                assert(s[n].job_id@ == k);
            }
        }
    }
}

/// The position of the job with id `k` in `s` (meaningful when there is one).
pub open spec fn index_of_id(s: Seq<JobResult>, k: Seq<char>) -> int {
    choose|i: int| 0 <= i < s.len() && s[i].job_id@ == k
}

/// The jobs of `s` by id.
pub open spec fn job_map(s: Seq<JobResult>) -> Map<Seq<char>, JobResult> {
    Map::new(
        |k: Seq<char>| has_id(s, k),
        |k: Seq<char>| s[choose|i: int| 0 <= i < s.len() && s[i].job_id@ == k],
    )
}

/// In a sequence without repeated ids, the job found under an id is the one at
/// the position holding it.
proof fn lemma_lookup(s: Seq<JobResult>, i: int)
    requires
        ids_unique(s),
        0 <= i < s.len(),
    ensures
        job_map(s).contains_key(s[i].job_id@),
        job_map(s)[s[i].job_id@] == s[i],
{
    let k = s[i].job_id@;
    assert(has_id(s, k));
    let c = choose|c: int| 0 <= c < s.len() && s[c].job_id@ == k;
    assert(c == i);
}

/// The summary of a job for listing.
pub open spec fn summary_of(j: JobResult, s: JobSummary) -> bool {
    &&& s.job_id == j.job_id
    &&& s.status == j.status
    &&& s.segments_count == j.segments_count
    &&& s.segments_uploaded == j.segments_uploaded
}

impl View for JobStore {
    type V = Map<Seq<char>, JobResult>;

    open spec fn view(&self) -> Map<Seq<char>, JobResult> {
        job_map(self.entries())
    }
}

impl JobStore {
    /// The jobs in the order they were first recorded.
    pub closed spec fn entries(&self) -> Seq<JobResult> {
        self.jobs@
    }

    /// Every id occurs once.
    pub open spec fn wf(&self) -> bool {
        ids_unique(self.entries())
    }

    /// An empty store.
    pub fn new() -> (s: Self)
        ensures
            s.wf(),
            s.entries().len() == 0,
            s@ == Map::<Seq<char>, JobResult>::empty(),
    {
        let s = JobStore { jobs: Vec::new() };
        assert(s@ =~= Map::<Seq<char>, JobResult>::empty());
        s
    }

    /// The number of jobs.
    pub fn len(&self) -> (n: usize)
        ensures
            n == self.entries().len(),
    {
        self.jobs.len()
    }

    fn position(&self, job_id: &str) -> (r: Option<usize>)
        requires
            self.wf(),
        ensures
            r matches Some(i) ==> i < self.entries().len() && self.entries()[i as int].job_id@
                == job_id@,
            r is None ==> !has_id(self.entries(), job_id@),
    {
        let key = String::from_str(job_id);
        let n = self.jobs.len();
        let mut i: usize = 0;
        while i < n
            invariant
                n == self.jobs@.len(),
                key@ == job_id@,
                i <= n,
                forall|j: int| 0 <= j < i ==> self.jobs@[j].job_id@ != key@,
            decreases n - i,
        {
            if self.jobs[i].job_id == key {
                return Some(i);
            }
            i = i + 1;
        }
        None
    }

    /// Record a job, replacing the one with the same id if there is one.
    pub fn insert(&mut self, job: JobResult)
        requires
            old(self).wf(),
        ensures
            final(self).wf(),
            final(self)@ == old(self)@.insert(job.job_id@, job),
            has_id(old(self).entries(), job.job_id@) ==> final(self).entries() == old(self).entries().update(index_of_id(old(self).entries(), job.job_id@), job),
            !has_id(old(self).entries(), job.job_id@) ==> final(self).entries() == old(self).entries().push(job),
    {
        let ghost old_s = self.jobs@;
        let ghost k = job.job_id@;
        match self.position(job.job_id.as_str()) {
            Some(i) => {
                self.jobs.set(i, job);
                let ghost s = self.jobs@;
                assert(has_id(old_s, k));
                assert(index_of_id(old_s, k) == i as int) by {
                    let c = index_of_id(old_s, k);
                    assert(old_s[c].job_id@ == k);
                }
                assert(s == old_s.update(i as int, job));
                assert(ids_unique(s)) by {
                    assert forall|a: int, b: int|
                        0 <= a < s.len() && 0 <= b < s.len() && a != b implies s[a].job_id@
                        != s[b].job_id@ by {
                        if a != i && b != i {
                            assert(s[a] == old_s[a] && s[b] == old_s[b]);
                        } else if a == i {
                            assert(s[b] == old_s[b]);
                        } else {
                            assert(s[a] == old_s[a]);
                        }
                    }
                }
                assert forall|key: Seq<char>| has_id(s, key) == has_id(old_s, key) by {
                    if has_id(s, key) {
                        let c = choose|c: int| 0 <= c < s.len() && s[c].job_id@ == key;
                        assert(old_s[c].job_id@ == key);
                    }
                    if has_id(old_s, key) {
                        let c = choose|c: int| 0 <= c < old_s.len() && old_s[c].job_id@ == key;
                        assert(s[c].job_id@ == key);
                    }
                }
                assert(job_map(s) =~= job_map(old_s).insert(k, job)) by {
                    assert forall|key: Seq<char>| #[trigger] job_map(s).contains_key(key) implies
                        job_map(s)[key] == job_map(old_s).insert(k, job)[key] by {
                        let c = choose|c: int| 0 <= c < s.len() && s[c].job_id@ == key;
                        lemma_lookup(s, c);
                        if c != i {
                            assert(old_s[c] == s[c]);
                            lemma_lookup(old_s, c);
                        }
                    }
                    lemma_lookup(s, i as int);
                }
            },
            None => {
                self.jobs.push(job);
                let ghost s = self.jobs@;
                assert(s == old_s.push(job));
                assert(ids_unique(s)) by {
                    assert forall|a: int, b: int|
                        0 <= a < s.len() && 0 <= b < s.len() && a != b implies s[a].job_id@
                        != s[b].job_id@ by {
                        if a < old_s.len() && b < old_s.len() {
                            assert(s[a] == old_s[a] && s[b] == old_s[b]);
                        } else if a < old_s.len() {
                            assert(s[a] == old_s[a]);
                        } else {
                            assert(s[b] == old_s[b]);
                        }
                    }
                }
                assert(job_map(s) =~= job_map(old_s).insert(k, job)) by {
                    assert forall|key: Seq<char>| has_id(s, key) == (has_id(old_s, key) || key == k) by {
                        if has_id(s, key) {
                            let c = choose|c: int| 0 <= c < s.len() && s[c].job_id@ == key;
                            if c < old_s.len() {
                                assert(old_s[c].job_id@ == key);
                            }
                        }
                        if has_id(old_s, key) {
                            let c = choose|c: int| 0 <= c < old_s.len() && old_s[c].job_id@ == key;
                            assert(s[c].job_id@ == key);
                        }
                        assert(s[old_s.len() as int].job_id@ == k);
                    }
                    assert forall|key: Seq<char>| #[trigger] job_map(s).contains_key(key) implies
                        job_map(s)[key] == job_map(old_s).insert(k, job)[key] by {
                        let c = choose|c: int| 0 <= c < s.len() && s[c].job_id@ == key;
                        lemma_lookup(s, c);
                        if c < old_s.len() {
                            assert(old_s[c] == s[c]);
                            lemma_lookup(old_s, c);
                        }
                    }
                }
            },
        }
    }

    /// The job recorded under `job_id`, if any.
    pub fn get(&self, job_id: &str) -> (r: Option<&JobResult>)
        requires
            self.wf(),
        ensures
            r is Some <==> self@.contains_key(job_id@),
            r matches Some(j) ==> *j == self@[job_id@],
    {
        match self.position(job_id) {
            Some(i) => {
                proof {
                    lemma_lookup(self.entries(), i as int);
                }
                Some(&self.jobs[i])
            },
            None => None,
        }
    }

    /// Forget the job recorded under `job_id`; says whether there was one.
    pub fn remove(&mut self, job_id: &str) -> (found: bool)
        requires
            old(self).wf(),
        ensures
            final(self).wf(),
            found == old(self)@.contains_key(job_id@),
            final(self)@ == old(self)@.remove(job_id@),
            has_id(old(self).entries(), job_id@) ==> final(self).entries() == old(self).entries().remove(index_of_id(old(self).entries(), job_id@)),
            !has_id(old(self).entries(), job_id@) ==> final(self).entries() == old(self).entries(),
    {
        let ghost old_s = self.jobs@;
        let ghost k = job_id@;
        match self.position(job_id) {
            Some(i) => {
                self.jobs.remove(i);
                let ghost s = self.jobs@;
                assert(has_id(old_s, k));
                assert(index_of_id(old_s, k) == i as int) by {
                    let c = index_of_id(old_s, k);
                    assert(old_s[c].job_id@ == k);
                }
                assert(s == old_s.remove(i as int));
                assert(ids_unique(s)) by {
                    assert forall|a: int, b: int|
                        0 <= a < s.len() && 0 <= b < s.len() && a != b implies s[a].job_id@
                        != s[b].job_id@ by {
                        let oa = if a < i { a } else { a + 1 };
                        let ob = if b < i { b } else { b + 1 };
                        assert(s[a] == old_s[oa] && s[b] == old_s[ob]);
                    }
                }
                assert(job_map(s) =~= job_map(old_s).remove(k)) by {
                    assert forall|key: Seq<char>| has_id(s, key) == (has_id(old_s, key) && key != k) by {
                        if has_id(s, key) {
                            let c = choose|c: int| 0 <= c < s.len() && s[c].job_id@ == key;
                            let oc = if c < i { c } else { c + 1 };
                            assert(old_s[oc] == s[c]);
                            assert(old_s[oc].job_id@ == key);
                            assert(oc != i);
                        }
                        if has_id(old_s, key) && key != k {
                            let c = choose|c: int| 0 <= c < old_s.len() && old_s[c].job_id@ == key;
                            assert(c != i);
                            let sc = if c < i { c } else { c - 1 };
                            assert(s[sc] == old_s[c]);
                        }
                    }
                    assert forall|key: Seq<char>| #[trigger] job_map(s).contains_key(key) implies
                        job_map(s)[key] == job_map(old_s)[key] by {
                        let c = choose|c: int| 0 <= c < s.len() && s[c].job_id@ == key;
                        lemma_lookup(s, c);
                        let oc = if c < i { c } else { c + 1 };
                        assert(old_s[oc] == s[c]);
                        lemma_lookup(old_s, oc);
                    }
                }
                proof {
                    lemma_lookup(old_s, i as int);
                }
                true
            },
            None => {
                assert(job_map(old_s).remove(k) =~= job_map(old_s));
                false
            },
        }
    }

    /// The playlist of the job recorded under `job_id`, or `NotFound`
    /// (`Job <job_id> not found`).
    pub fn get_playlist(&self, job_id: &str) -> (r: Result<String, AppError>)
        requires
            self.wf(),
        ensures
            self@.contains_key(job_id@) ==> (r matches Ok(p) && p == self@[job_id@].playlist),
            !self@.contains_key(job_id@) ==> (r matches Err(AppError::NotFound(m)) && m@ == "Job "@
                + job_id@ + " not found"@),
    {
        match self.get(job_id) {
            Some(j) => Ok(j.playlist.clone()),
            None => {
                let mut m = concat_str("Job ", job_id);
                m.append(" not found");
                Err(AppError::NotFound(m))
            },
        }
    }

    /// Delete the job recorded under `job_id`, or `NotFound` (`Job <job_id> not found`)
    /// when there is none.
    pub fn delete_job(&mut self, job_id: &str) -> (r: Result<(), AppError>)
        requires
            old(self).wf(),
        ensures
            final(self).wf(),
            final(self)@ == old(self)@.remove(job_id@),
            old(self)@.contains_key(job_id@) ==> r is Ok,
            !old(self)@.contains_key(job_id@) ==> (r matches Err(AppError::NotFound(m)) && m@
                == "Job "@ + job_id@ + " not found"@),
    {
        if self.remove(job_id) {
            Ok(())
        } else {
            let mut m = concat_str("Job ", job_id);
            m.append(" not found");
            Err(AppError::NotFound(m))
        }
    }

    /// A summary of every job, in the store's order, and their number.
    pub fn list_jobs(&self) -> (r: JobListResponse)
        requires
            self.wf(),
        ensures
            r.total == r.jobs@.len(),
            r.jobs@.len() == self.entries().len(),
            r.total == self@.dom().len(),
            forall|i: int| 0 <= i < r.jobs@.len() ==> summary_of(self.entries()[i], #[trigger] r.jobs@[i]),
    {
        let n = self.jobs.len();
        let mut jobs: Vec<JobSummary> = Vec::new();
        let mut i: usize = 0;
        while i < n
            invariant
                n == self.jobs@.len(),
                i <= n,
                jobs@.len() == i,
                forall|k: int| 0 <= k < i ==> summary_of(self.jobs@[k], #[trigger] jobs@[k]),
            decreases n - i,
        {
            let j = &self.jobs[i];
            jobs.push(JobSummary {
                job_id: j.job_id.clone(),
                status: j.status,
                segments_count: j.segments_count,
                segments_uploaded: j.segments_uploaded,
            });
            i = i + 1;
        }
        let total = jobs.len();
        proof {
            self.law_job_count();
        }
        JobListResponse { jobs, total }
    }

    /// The store holds as many jobs (ids) as it has entries.
    pub proof fn law_job_count(&self)
        requires
            self.wf(),
        ensures
            self@.dom().finite(),
            self@.dom().len() == self.entries().len(),
    {
        assert(self@.dom() =~= ids_of(self.entries()));
        lemma_ids_count(self.entries());
    }

    /// The store's jobs are exactly its entries: each entry is found under its id, and
    /// every id found is some entry's.
    pub proof fn law_entries_are_the_jobs(&self)
        requires
            self.wf(),
        ensures
            forall|i: int| 0 <= i < self.entries().len() ==> {
                &&& self@.contains_key(#[trigger] self.entries()[i].job_id@)
                &&& self@[self.entries()[i].job_id@] == self.entries()[i]
            },
            forall|k: Seq<char>| #[trigger] self@.contains_key(k) ==> has_id(self.entries(), k),
    {
        assert forall|i: int| 0 <= i < self.entries().len() implies {
            &&& self@.contains_key(#[trigger] self.entries()[i].job_id@)
            &&& self@[self.entries()[i].job_id@] == self.entries()[i]
        } by {
            lemma_lookup(self.entries(), i);
        }
    }
}


/// Recording a job makes it the one found under its id and leaves every other id as
/// it was.
pub proof fn law_insert_then_get(jobs: Map<Seq<char>, JobResult>, job: JobResult, other: Seq<char>)
    ensures
        jobs.insert(job.job_id@, job).contains_key(job.job_id@),
        jobs.insert(job.job_id@, job)[job.job_id@] == job,
        other != job.job_id@ ==> jobs.insert(job.job_id@, job).contains_key(other)
            == jobs.contains_key(other),
        other != job.job_id@ && jobs.contains_key(other) ==> jobs.insert(job.job_id@, job)[other]
            == jobs[other],
{
}

/// Deleting a job leaves nothing under its id and every other id as it was.
pub proof fn law_delete_then_get(jobs: Map<Seq<char>, JobResult>, id: Seq<char>, other: Seq<char>)
    ensures
        !jobs.remove(id).contains_key(id),
        other != id ==> jobs.remove(id).contains_key(other) == jobs.contains_key(other),
        other != id && jobs.contains_key(other) ==> jobs.remove(id)[other] == jobs[other],
{
}

/// The job id a saved playlist file stands for: the stem of a file whose extension is
/// `m3u8`; other files stand for none.
pub fn playlist_job_id(file_name: &str) -> (r: Option<String>)
    ensures
        r is Some <==> file_extension(file_name@) == Some("m3u8"@),
        r matches Some(id) ==> id@ == file_stem(file_name@),
{
    let (stem, ext) = split_file_name(file_name);
    match ext {
        Some(e) => {
            let cs = chars_of(e.as_str());
            let yes = cs.len() == 4 && cs[0] == 'm' && cs[1] == '3' && cs[2] == 'u' && cs[3] == '8';
            proof {
                reveal_strlit("m3u8");
                if yes {
                    assert(e@ =~= "m3u8"@);
                }
                if e@ == "m3u8"@ {
                    assert(cs@[0] == 'm' && cs@[1] == '3' && cs@[2] == 'u' && cs@[3] == '8');
                }
            }
            if yes {
                Some(stem)
            } else {
                None
            }
        },
        None => None,
    }
}

/// The job that a playlist saved on disk stands for: completed, with as many segments,
/// all uploaded, as the playlist has `#EXTINF:` lines.
pub fn restored_job(job_id: String, playlist: String, playlist_file: String) -> (j: JobResult)
    ensures
        j.job_id == job_id,
        j.status == JobStatus::Completed,
        j.playlist == playlist,
        j.playlist_file == playlist_file,
        j.segments_count == count_prefixed_lines(playlist@, "#EXTINF:"@),
        j.segments_uploaded == j.segments_count,
{
    let n = count_segments(playlist.as_str());
    JobResult {
        job_id,
        status: JobStatus::Completed,
        playlist,
        playlist_file,
        segments_count: n,
        segments_uploaded: n,
    }
}

} // verus!
