//! Bookkeeping for deduplicated work: at most one running job per key,
//! joined by every caller that asks for the key while it runs, and removed
//! only by the caller that created it.

use vstd::prelude::*;

verus! {

/// The running jobs, each under its key with the ticket of the caller that
/// created it.
pub struct JobTable<T> {
    jobs: Vec<(String, u64, T)>,
    issued: u64,
}

pub open spec fn job_keys_distinct<T>(s: Seq<(String, u64, T)>) -> bool {
    forall|i: int, j: int| 0 <= i < j < s.len() ==> s[i].0@ != s[j].0@
}

pub open spec fn has_job<T>(s: Seq<(String, u64, T)>, k: Seq<char>) -> bool {
    exists|i: int| 0 <= i < s.len() && s[i].0@ == k
}

/// The jobs as a map from key to the creator's ticket and the job.
pub open spec fn jobs_map<T>(s: Seq<(String, u64, T)>) -> Map<Seq<char>, (u64, T)> {
    Map::new(
        |k: Seq<char>| has_job(s, k),
        |k: Seq<char>|
            {
                let i = choose|i: int| 0 <= i < s.len() && s[i].0@ == k;
                (s[i].1, s[i].2)
            },
    )
}

proof fn lemma_jobs_map_at<T>(s: Seq<(String, u64, T)>, i: int)
    requires
        job_keys_distinct(s),
        0 <= i < s.len(),
    ensures
        jobs_map(s).dom().contains(s[i].0@),
        jobs_map(s)[s[i].0@] == (s[i].1, s[i].2),
{
    let k = s[i].0@;
    assert(has_job(s, k));
    let c = choose|c: int| 0 <= c < s.len() && s[c].0@ == k;
    if c != i {
        if c < i {
            assert(s[c].0@ != s[i].0@);
        } else {
            assert(s[i].0@ != s[c].0@);
        }
    }
}

impl<T> JobTable<T> {
    /// The running jobs, by key.
    pub closed spec fn view(&self) -> Map<Seq<char>, (u64, T)> {
        jobs_map(self.jobs@)
    }

    /// The next ticket to be handed out; every ticket handed out so far is
    /// smaller.
    pub closed spec fn next_ticket(&self) -> u64 {
        self.issued
    }

    /// Keys are distinct and every ticket in the table was handed out
    /// before the next one.
    #[verifier::type_invariant]
    pub closed spec fn wf(&self) -> bool {
        &&& job_keys_distinct(self.jobs@)
        &&& forall|i: int| 0 <= i < self.jobs@.len() ==> #[trigger] self.jobs@[i].1 < self.issued
    }

    /// Every ticket of a running job was handed out before the next one.
    pub proof fn lemma_tickets_before_next(&self, k: Seq<char>)
        requires
            self.wf(),
            self.view().dom().contains(k),
        ensures
            self.view()[k].0 < self.next_ticket(),
    {
        let i = choose|i: int| 0 <= i < self.jobs@.len() && self.jobs@[i].0@ == k;
        lemma_jobs_map_at(self.jobs@, i);
    }

    /// An empty table.
    pub fn new() -> (t: Self)
        ensures
            t.view() == Map::<Seq<char>, (u64, T)>::empty(),
            t.next_ticket() == 0,
    {
        let t = JobTable { jobs: Vec::new(), issued: 0 };
        assert(t.view() =~= Map::<Seq<char>, (u64, T)>::empty());
        t
    }

    fn position(&self, key: &str) -> (r: Option<usize>)
        ensures
            match r {
                Some(i) => i < self.jobs@.len() && self.jobs@[i as int].0@ == key@,
                None => !has_job(self.jobs@, key@),
            },
    {
        let mut i: usize = 0;
        while i < self.jobs.len()
            invariant
                i <= self.jobs@.len(),
                forall|j: int| 0 <= j < i ==> self.jobs@[j].0@ != key@,
            decreases self.jobs.len() - i,
        {
            if crate::text::str_eq(self.jobs[i].0.as_str(), key) {
                return Some(i);
            }
            i = i + 1;
        }
        None
    }

    /// The job running under `key`, if any.
    pub fn find(&self, key: &str) -> (r: Option<&T>)
        ensures
            match r {
                Some(job) => self.view().dom().contains(key@) && *job == self.view()[key@].1,
                None => !self.view().dom().contains(key@),
            },
    {
        proof {
            use_type_invariant(self);
        }
        match self.position(key) {
            Some(i) => {
                proof {
                    lemma_jobs_map_at(self.jobs@, i as int);
                }
                Some(&self.jobs[i].2)
            },
            None => None,
        }
    }

    /// Registers a new job under a key that has none, and hands its creator
    /// a fresh ticket; when every ticket has been handed out, the job is not
    /// registered and `None` comes back.
    pub fn start(&mut self, key: String, job: T) -> (r: Option<u64>)
        requires
            !old(self).view().dom().contains(key@),
        ensures
            match r {
                Some(ticket) => {
                    &&& ticket == old(self).next_ticket()
                    &&& final(self).next_ticket() == ticket + 1
                    &&& final(self).view() == old(self).view().insert(key@, (ticket, job))
                },
                None => *final(self) == *old(self) && old(self).next_ticket() == u64::MAX,
            },
    {
        proof {
            use_type_invariant(&*self);
        }
        if self.issued == u64::MAX {
            return None;
        }
        let ticket = self.issued;
        let ghost old_s = self.jobs@;
        let ghost k = key@;
        let mut jobs: Vec<(String, u64, T)> = Vec::new();
        std::mem::swap(&mut jobs, &mut self.jobs);
        jobs.push((key, ticket, job));
        proof {
            let s = jobs@;
            assert forall|a: int, b: int| 0 <= a < b < s.len() implies s[a].0@ != s[b].0@ by {
                if b == old_s.len() {
                    assert(s[a] == old_s[a]);
                    assert(has_job(old_s, s[a].0@) ==> jobs_map(old_s).dom().contains(s[a].0@));
                } else {
                    assert(s[a] == old_s[a] && s[b] == old_s[b]);
                }
            }
            assert forall|i: int| 0 <= i < s.len() implies #[trigger] s[i].1 < ticket + 1 by {
                if i < old_s.len() {
                    assert(s[i] == old_s[i]);
                }
            }
            assert forall|q: Seq<char>| #[trigger] has_job(s, q) == (has_job(old_s, q) || q == k) by {
                if has_job(s, q) {
                    let c = choose|c: int| 0 <= c < s.len() && s[c].0@ == q;
                    if c < old_s.len() {
                        assert(old_s[c].0@ == q);
                    }
                }
                if has_job(old_s, q) {
                    let c = choose|c: int| 0 <= c < old_s.len() && old_s[c].0@ == q;
                    assert(s[c].0@ == q);
                }
                if q == k {
                    assert(s[old_s.len() as int].0@ == q);
                }
            }
            assert forall|q: Seq<char>| has_job(s, q) implies #[trigger] jobs_map(s)[q] == jobs_map(
                old_s,
            ).insert(k, (ticket, job))[q] by {
                let c = choose|c: int| 0 <= c < s.len() && s[c].0@ == q;
                lemma_jobs_map_at(s, c);
                if c < old_s.len() {
                    assert(s[c] == old_s[c]);
                    lemma_jobs_map_at(old_s, c);
                }
            }
            assert(jobs_map(s) =~= jobs_map(old_s).insert(k, (ticket, job)));
        }
        self.issued = ticket + 1;
        self.jobs = jobs;
        Some(ticket)
    }

    /// Removes the job under `key` when it was created with `ticket`; a
    /// holder of any other ticket leaves the table as it is.
    pub fn finish(&mut self, key: &str, ticket: u64)
        ensures
            final(self).next_ticket() == old(self).next_ticket(),
            if old(self).view().dom().contains(key@) && old(self).view()[key@].0 == ticket {
                final(self).view() == old(self).view().remove(key@)
            } else {
                final(self).view() == old(self).view()
            },
    {
        proof {
            use_type_invariant(&*self);
        }
        match self.position(key) {
            None => {},
            Some(i) => {
                proof {
                    lemma_jobs_map_at(self.jobs@, i as int);
                }
                if self.jobs[i].1 == ticket {
                    let ghost old_s = self.jobs@;
                    let ghost k = key@;
                    let mut jobs: Vec<(String, u64, T)> = Vec::new();
                    std::mem::swap(&mut jobs, &mut self.jobs);
                    let _removed = jobs.remove(i);
                    proof {
                        let s = jobs@;
                        assert(s =~= old_s.remove(i as int));
                        assert forall|a: int, b: int| 0 <= a < b < s.len() implies s[a].0@ != s[b].0@ by {
                            let a2 = if a < i { a } else { a + 1 };
                            let b2 = if b < i { b } else { b + 1 };
                            assert(s[a] == old_s[a2] && s[b] == old_s[b2]);
                        }
                        assert forall|x: int| 0 <= x < s.len() implies #[trigger] s[x].1 < self.issued by {
                            let x2 = if x < i { x } else { x + 1 };
                            assert(s[x] == old_s[x2]);
                        }
                        assert forall|q: Seq<char>| #[trigger] has_job(s, q) == (has_job(old_s, q) && q != k) by {
                            if has_job(s, q) {
                                let c = choose|c: int| 0 <= c < s.len() && s[c].0@ == q;
                                let c2 = if c < i { c } else { c + 1 };
                                assert(old_s[c2].0@ == q);
                                assert(c2 != i);
                            }
                            if has_job(old_s, q) && q != k {
                                let c = choose|c: int| 0 <= c < old_s.len() && old_s[c].0@ == q;
                                assert(c != i);
                                let c2 = if c < i { c } else { c - 1 };
                                assert(s[c2].0@ == q);
                            }
                        }
                        assert forall|q: Seq<char>| has_job(s, q) implies #[trigger] jobs_map(s)[q]
                            == jobs_map(old_s).remove(k)[q] by {
                            let c = choose|c: int| 0 <= c < s.len() && s[c].0@ == q;
                            let c2 = if c < i { c } else { c + 1 };
                            lemma_jobs_map_at(s, c);
                            lemma_jobs_map_at(old_s, c2);
                        }
                        assert(jobs_map(s) =~= jobs_map(old_s).remove(k));
                    }
                    self.jobs = jobs;
                }
            },
        }
    }
}

/// What a caller asking for a key gets: a copy of the job already running
/// under it, or a copy of the job it made and registered with its ticket, or,
/// once every ticket has been handed out, the job it made, unregistered.
pub enum Joined<T> {
    Existing(T),
    Started(T, u64),
    Unregistered(T),
}

impl<T: Clone> JobTable<T> {
    /// Joins the job running under `key`, or makes one with `make` and
    /// registers it: a running job is never made twice.
    pub fn join_or_start<F: FnOnce() -> T>(&mut self, key: String, make: F) -> (r: Joined<T>)
        requires
            !old(self).view().dom().contains(key@) ==> make.requires(()),
        ensures
            match r {
                Joined::Existing(job) => {
                    &&& old(self).view().dom().contains(key@)
                    &&& cloned(old(self).view()[key@].1, job)
                    &&& *final(self) == *old(self)
                },
                Joined::Started(job, ticket) => {
                    &&& !old(self).view().dom().contains(key@)
                    &&& ticket == old(self).next_ticket()
                    &&& final(self).next_ticket() == ticket + 1
                    &&& exists|made: T|
                        #[trigger] make.ensures((), made) && cloned(made, job) && final(self).view()
                            == old(self).view().insert(key@, (ticket, made))
                },
                Joined::Unregistered(job) => {
                    &&& !old(self).view().dom().contains(key@)
                    &&& old(self).next_ticket() == u64::MAX
                    &&& *final(self) == *old(self)
                    &&& make.ensures((), job)
                },
            },
    {
        proof {
            use_type_invariant(&*self);
        }
        if let Some(existing) = self.find(key.as_str()) {
            return Joined::Existing(existing.clone());
        }
        if self.issued == u64::MAX {
            return Joined::Unregistered(make());
        }
        let made = make();
        let copy = made.clone();
        let ghost kept = made;
        match self.start(key, made) {
            Some(ticket) => {
                assert(make.ensures((), kept) && cloned(kept, copy));
                Joined::Started(copy, ticket)
            },
            None => Joined::Unregistered(copy),
        }
    }
}

} // verus!
