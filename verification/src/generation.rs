//! The recipe generation queue: which sections to send to the model, and
//! what to make of what comes back. The application runs the model on a
//! worker thread and carries jobs and outcomes across channels; the
//! decisions are here.
//!
//! Failures are sticky for the run: a section whose generation failed is
//! not retried until the application restarts. Editing the section changes
//! its hash, which does retry it.

use vstd::prelude::*;

use crate::doc::{genre_of, Doc, DocView};
use crate::hash::SectionHash;
use crate::llm::{prompt_excerpt, prompt_excerpt_of};
use crate::recipe::{clamped_recipe, RegionRecipe};
use crate::sidecar::{hex_of, key, RecipeStore};
use crate::text::str_eq;

verus! {

/// A set of cache keys.
#[derive(Debug)]
pub struct KeySet {
    keys: Vec<String>,
}

/// The keys a list holds.
pub open spec fn keys_set(s: Seq<String>) -> Set<Seq<char>> {
    Set::new(|k: Seq<char>| exists|i: int| 0 <= i < s.len() && s[i]@ == k)
}

impl View for KeySet {
    type V = Set<Seq<char>>;

    closed spec fn view(&self) -> Set<Seq<char>> {
        keys_set(self.keys@)
    }
}

impl KeySet {
    /// No keys.
    pub fn new() -> (s: KeySet)
        ensures
            s@ == Set::<Seq<char>>::empty(),
    {
        let s = KeySet { keys: Vec::new() };
        assert(s@ =~= Set::<Seq<char>>::empty());
        s
    }

    /// Whether `k` is in the set.
    pub fn contains(&self, k: &str) -> (r: bool)
        ensures
            r == self@.contains(k@),
    {
        let mut i: usize = 0;
        while i < self.keys.len()
            invariant
                i <= self.keys@.len(),
                forall|j: int| 0 <= j < i ==> self.keys@[j]@ != k@,
            decreases self.keys.len() - i,
        {
            if str_eq(self.keys[i].as_str(), k) {
                return true;
            }
            i = i + 1;
        }
        false
    }

    /// Add `k`.
    pub fn insert(&mut self, k: String)
        ensures
            final(self)@ == old(self)@.insert(k@),
    {
        if self.contains(k.as_str()) {
            assert(old(self)@.insert(k@) =~= old(self)@);
            return;
        }
        let ghost before = self.keys@;
        let ghost kv = k@;
        self.keys.push(k);
        proof {
            assert forall|x: Seq<char>| #[trigger] self@.contains(x) == old(self)@.insert(kv).contains(x) by {
                if x == kv {
                    assert(self.keys@[before.len() as int]@ == x);
                }
                if old(self)@.contains(x) {
                    let j = choose|j: int| 0 <= j < before.len() && before[j]@ == x;
                    assert(self.keys@[j] == before[j]);
                }
                if self@.contains(x) && x != kv {
                    let j = choose|j: int| 0 <= j < self.keys@.len() && self.keys@[j]@ == x;
                    assert(j < before.len());
                    assert(before[j] == self.keys@[j]);
                }
            }
            assert(self@ =~= old(self)@.insert(kv));
        }
    }

    /// Remove `k`.
    pub fn remove(&mut self, k: &str)
        ensures
            final(self)@ == old(self)@.remove(k@),
    {
        let ghost before = self.keys@;
        let mut kept: Vec<String> = Vec::new();
        let mut i: usize = 0;
        while i < self.keys.len()
            invariant
                i <= self.keys@.len(),
                self.keys@ == before,
                forall|m: int| 0 <= m < kept@.len() ==> #[trigger] kept@[m]@ != k@ && exists|j: int|
                    0 <= j < i && before[j]@ == kept@[m]@,
                forall|j: int| 0 <= j < i && #[trigger] before[j]@ != k@ ==> exists|m: int|
                    0 <= m < kept@.len() && kept@[m]@ == before[j]@,
            decreases self.keys.len() - i,
        {
            if !str_eq(self.keys[i].as_str(), k) {
                let ghost old_kept = kept@;
                kept.push(self.keys[i].clone());
                proof {
                    assert(kept@[old_kept.len() as int]@ == before[i as int]@);
                    assert forall|m: int| 0 <= m < kept@.len() implies #[trigger] kept@[m]@ != k@
                        && exists|j: int| 0 <= j < i + 1 && before[j]@ == kept@[m]@ by {
                        if m < old_kept.len() {
                            assert(kept@[m] == old_kept[m]);
                        } else {
                            assert(before[i as int]@ == kept@[m]@);
                        }
                    }
                    assert forall|j: int| 0 <= j < i + 1 && #[trigger] before[j]@ != k@ implies exists|m: int|
                        0 <= m < kept@.len() && kept@[m]@ == before[j]@ by {
                        if j < i {
                            let m = choose|m: int| 0 <= m < old_kept.len() && old_kept[m]@ == before[j]@;
                            assert(kept@[m] == old_kept[m]);
                        } else {
                            assert(kept@[old_kept.len() as int]@ == before[j]@);
                        }
                    }
                }
            }
            i = i + 1;
        }
        proof {
            assert forall|x: Seq<char>| #[trigger] keys_set(kept@).contains(x) == keys_set(before).remove(k@).contains(x) by {
                if keys_set(kept@).contains(x) {
                    let m = choose|m: int| 0 <= m < kept@.len() && kept@[m]@ == x;
                    assert(kept@[m]@ != k@);
                }
                if keys_set(before).remove(k@).contains(x) {
                    let j = choose|j: int| 0 <= j < before.len() && before[j]@ == x;
                    assert(before[j]@ != k@);
                }
            }
            assert(keys_set(kept@) =~= keys_set(before).remove(k@));
        }
        self.keys = kept;
    }
}

/// One section to style: the body crosses as a prompt-ready excerpt so the
/// worker needs no access to the document.
#[derive(Debug)]
pub struct Job {
    pub hash: SectionHash,
    pub heading: String,
    pub excerpt: String,
    pub genre: String,
}

/// A job as values.
pub struct JobView {
    pub hash: Seq<u8>,
    pub heading: Seq<char>,
    pub excerpt: Seq<char>,
    pub genre: Seq<char>,
}

impl View for Job {
    type V = JobView;

    open spec fn view(&self) -> JobView {
        JobView {
            hash: self.hash@,
            heading: self.heading@,
            excerpt: self.excerpt@,
            genre: self.genre@,
        }
    }
}

/// What came back for one job: a recipe, or `None` when generation failed.
#[derive(Debug)]
pub struct Outcome {
    pub hash: SectionHash,
    pub recipe: Option<RegionRecipe>,
}

/// The job for section `i` of a document.
pub open spec fn job_of(doc: DocView, i: int) -> JobView {
    JobView {
        hash: doc.sections[i].hash,
        heading: doc.sections[i].heading,
        excerpt: prompt_excerpt_of(doc.sections[i].body),
        genre: genre_of(doc.front_matter),
    }
}

/// Section `i` wants a job: its key is neither cached, pending nor failed.
pub open spec fn job_wanted(
    doc: DocView,
    cached: Map<Seq<char>, RegionRecipe>,
    failed: Set<Seq<char>>,
    pending: Set<Seq<char>>,
    i: int,
) -> bool {
    let k = hex_of(doc.sections[i].hash);
    !cached.contains_key(k) && !pending.contains(k) && !failed.contains(k)
}

/// After the outcomes: the pending keys, the failed keys, the cache, and
/// how many recipes arrived.
pub open spec fn drained(
    outcomes: Seq<Outcome>,
    pending: Set<Seq<char>>,
    failed: Set<Seq<char>>,
    cache: Map<Seq<char>, RegionRecipe>,
) -> (Set<Seq<char>>, Set<Seq<char>>, Map<Seq<char>, RegionRecipe>, nat)
    decreases outcomes.len(),
{
    if outcomes.len() == 0 {
        (pending, failed, cache, 0)
    } else {
        let prev = drained(outcomes.drop_last(), pending, failed, cache);
        let o = outcomes.last();
        let k = hex_of(o.hash@);
        match o.recipe {
            Some(r) => (prev.0.remove(k), prev.1, prev.2.insert(k, clamped_recipe(r)), prev.3 + 1),
            None => (prev.0.remove(k), prev.1.insert(k), prev.2, prev.3),
        }
    }
}

/// The generation queue's book-keeping.
#[derive(Debug)]
pub struct GenQueue {
    /// Keys with a job in flight.
    pub pending: KeySet,
    /// Keys that failed this run; not retried.
    pub failed: KeySet,
}

impl GenQueue {
    /// Nothing pending, nothing failed.
    pub fn new() -> (q: GenQueue)
        ensures
            q.pending@ == Set::<Seq<char>>::empty(),
            q.failed@ == Set::<Seq<char>>::empty(),
    {
        GenQueue { pending: KeySet::new(), failed: KeySet::new() }
    }

    /// The next job to send, looking from section `from` on: the first
    /// section that has neither a cached recipe, a job in flight, nor a
    /// failure on record, with its index; `None` when no section from
    /// `from` on wants one. The caller sends the job and, when the send goes
    /// through, marks it pending; then it looks on from the next section.
    pub fn next_job(&self, doc: &Doc, store: &RecipeStore, from: usize) -> (r: Option<(usize, Job)>)
        requires
            doc.front_matter.wf(),
            store.wf(),
        ensures
            r matches Some(p) ==> {
                &&& from <= p.0 < doc@.sections.len()
                &&& job_wanted(doc@, store@, self.failed@, self.pending@, p.0 as int)
                &&& forall|j: int|
                    from <= j < p.0 ==> !job_wanted(doc@, store@, self.failed@, self.pending@, j)
                &&& p.1@ == job_of(doc@, p.0 as int)
            },
            r is None ==> forall|j: int|
                from <= j < doc@.sections.len() ==> !job_wanted(
                    doc@,
                    store@,
                    self.failed@,
                    self.pending@,
                    j,
                ),
    {
        let mut i: usize = from;
        while i < doc.sections.len()
            invariant
                from <= i,
                store.wf(),
                doc.front_matter.wf(),
                forall|j: int|
                    from <= j < i && j < doc@.sections.len() ==> !job_wanted(
                        doc@,
                        store@,
                        self.failed@,
                        self.pending@,
                        j,
                    ),
            decreases doc.sections.len() - i,
        {
            let section = &doc.sections[i];
            let k = key(&section.hash);
            proof {
                assert(doc@.sections[i as int].hash == section.hash@);
            }
            let cached = store.get_key(k.as_str()).is_some();
            if !cached && !self.pending.contains(k.as_str()) && !self.failed.contains(k.as_str()) {
                let job = Job {
                    hash: section.hash,
                    heading: section.heading.clone(),
                    excerpt: prompt_excerpt(section.body.as_str()),
                    genre: doc.genre().to_owned(),
                };
                proof {
                    assert(job@ == job_of(doc@, i as int));
                    assert(job_wanted(doc@, store@, self.failed@, self.pending@, i as int));
                }
                return Some((i, job));
            }
            i = i + 1;
        }
        None
    }

    /// A job for the section with this hash went out: it is pending.
    pub fn mark_pending(&mut self, hash: &SectionHash)
        ensures
            final(self).pending@ == old(self).pending@.insert(hex_of(hash@)),
            final(self).failed@ == old(self).failed@,
    {
        let k = key(hash);
        self.pending.insert(k);
    }

    /// Apply what the worker finished: each outcome's job is no longer
    /// pending; a recipe is cached (clamped), a failure is recorded. Returns
    /// how many recipes arrived — when any did, the caller saves the sidecar
    /// and re-plans the world.
    pub fn drain_outcomes(&mut self, store: &mut RecipeStore, outcomes: &Vec<Outcome>) -> (applied:
        usize)
        requires
            old(store).wf(),
        ensures
            final(store).wf(),
            final(store).spec_path() == old(store).spec_path(),
            ({
                let d = drained(outcomes@, old(self).pending@, old(self).failed@, old(store)@);
                &&& final(self).pending@ == d.0
                &&& final(self).failed@ == d.1
                &&& final(store)@ == d.2
                &&& applied == d.3
            }),
    {
        let mut applied: usize = 0;
        let mut i: usize = 0;
        proof {
            assert(outcomes@.take(0) =~= Seq::<Outcome>::empty());
        }
        while i < outcomes.len()
            invariant
                i <= outcomes@.len(),
                store.wf(),
                store.spec_path() == old(store).spec_path(),
                applied <= i,
                ({
                    let d = drained(
                        outcomes@.take(i as int),
                        old(self).pending@,
                        old(self).failed@,
                        old(store)@,
                    );
                    &&& self.pending@ == d.0
                    &&& self.failed@ == d.1
                    &&& store@ == d.2
                    &&& applied == d.3
                }),
            decreases outcomes.len() - i,
        {
            let o = &outcomes[i];
            let k = key(&o.hash);
            proof {
                assert(outcomes@.take(i + 1).drop_last() =~= outcomes@.take(i as int));
                assert(outcomes@.take(i + 1).last() == *o);
            }
            self.pending.remove(k.as_str());
            match o.recipe {
                Some(r) => {
                    store.insert_key(k, r);
                    applied = applied + 1;
                },
                None => {
                    self.failed.insert(k);
                },
            }
            i = i + 1;
        }
        proof {
            assert(outcomes@.take(outcomes@.len() as int) =~= outcomes@);
        }
        applied
    }
}

/// What the worker does next with the job in hand.
#[derive(Clone, Copy, Debug, PartialEq, Eq)]
pub enum WorkerAction {
    /// Load the model (it stays resident once loaded).
    LoadModel,
    /// Ask the model for the job's recipe.
    Generate,
    /// Answer the job with no recipe: no model could be loaded.
    Fail,
}

/// The worker's decision for one job: generate when a model is resident;
/// otherwise try to load one first, and answer with no recipe when that
/// load did not give a model.
pub open spec fn worker_action(model_loaded: bool, load_tried: bool) -> WorkerAction {
    if model_loaded {
        WorkerAction::Generate
    } else if load_tried {
        WorkerAction::Fail
    } else {
        WorkerAction::LoadModel
    }
}

/// The model worker's state: whether a model is resident. The model loads
/// on the first job, so a document whose sidecar is complete never pays for
/// it, and a failed load is tried again on the next job.
#[derive(Clone, Copy, Debug, PartialEq, Eq)]
pub struct Worker {
    pub model_loaded: bool,
}

impl Worker {
    /// No model yet.
    pub fn new() -> (w: Worker)
        ensures
            !w.model_loaded,
    {
        Worker { model_loaded: false }
    }

    /// The next action for the current job, given whether a load was
    /// already tried for it.
    pub fn next_action(&self, load_tried: bool) -> (a: WorkerAction)
        ensures
            a == worker_action(self.model_loaded, load_tried),
    {
        if self.model_loaded {
            WorkerAction::Generate
        } else if load_tried {
            WorkerAction::Fail
        } else {
            WorkerAction::LoadModel
        }
    }

    /// A load finished, with a model or without.
    pub fn loaded(&mut self, ok: bool)
        ensures
            final(self).model_loaded == (old(self).model_loaded || ok),
    {
        self.model_loaded = self.model_loaded || ok;
    }
}

} // verus!
