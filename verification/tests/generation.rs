use localgpt_md::doc::Doc;
use localgpt_md::generation::{GenQueue, Job, KeySet, Outcome, Worker, WorkerAction};
use localgpt_md::llm::prompt_excerpt;
use localgpt_md::recipe::{PropKind, PropSpec, RegionRecipe};
use localgpt_md::sidecar::{key, RecipeStore};

const TEXT: &str = "---\ngenre: deck\n---\n\n## A\n\nalpha\n\n## B\n\nbeta\n\n## C\n\ngamma\n";

/// Send a job for every section that wants one, as the application does:
/// `send` says whether each send went through.
fn enqueue_uncached(
    queue: &mut GenQueue,
    doc: &Doc,
    store: &RecipeStore,
    mut send: impl FnMut(&Job) -> bool,
) -> Vec<Job> {
    let mut jobs = Vec::new();
    let mut from = 0;
    while let Some((i, job)) = queue.next_job(doc, store, from) {
        if send(&job) {
            queue.mark_pending(&job.hash);
        }
        jobs.push(job);
        from = i + 1;
    }
    jobs
}

#[test]
fn key_set_holds_what_was_inserted() {
    let mut s = KeySet::new();
    assert!(!s.contains("a"));
    s.insert("a".to_string());
    s.insert("a".to_string());
    s.insert("b".to_string());
    assert!(s.contains("a") && s.contains("b"));
    s.remove("a");
    assert!(!s.contains("a"));
    assert!(s.contains("b"));
}

#[test]
fn no_job_for_cached_pending_or_failed_sections() {
    let doc = Doc::parse(TEXT, "t");
    let mut store = RecipeStore::in_memory();
    store.insert(&doc.sections[0].hash, RegionRecipe::default());
    let mut queue = GenQueue::new();
    queue.failed.insert(key(&doc.sections[2].hash));
    let jobs = enqueue_uncached(&mut queue, &doc, &store, |_| true);
    assert_eq!(jobs.len(), 1);
    assert_eq!(jobs[0].heading, "B");
    assert_eq!(jobs[0].hash, doc.sections[1].hash);
    assert_eq!(jobs[0].excerpt, prompt_excerpt("beta"));
    assert_eq!(jobs[0].genre, "deck");
    assert!(queue.pending.contains(&key(&doc.sections[1].hash)));
    // Already pending: nothing is sent twice.
    assert!(enqueue_uncached(&mut queue, &doc, &store, |_| true).is_empty());
}

#[test]
fn a_refused_send_leaves_nothing_pending() {
    let doc = Doc::parse(TEXT, "t");
    let store = RecipeStore::in_memory();
    let mut queue = GenQueue::new();
    let jobs = enqueue_uncached(&mut queue, &doc, &store, |_| false);
    assert_eq!(jobs.len(), 3);
    assert!(!queue.pending.contains(&key(&doc.sections[0].hash)));
}

#[test]
fn outcomes_settle_their_jobs() {
    let doc = Doc::parse(TEXT, "t");
    let mut store = RecipeStore::in_memory();
    let mut queue = GenQueue::new();
    let jobs = enqueue_uncached(&mut queue, &doc, &store, |_| true);
    assert_eq!(jobs.len(), 3);
    let outcomes = vec![
        Outcome {
            hash: doc.sections[0].hash,
            recipe: Some(RegionRecipe {
                props: Some(PropSpec { kind: PropKind::Spheres, count: 40 }),
                ..Default::default()
            }),
        },
        Outcome { hash: doc.sections[1].hash, recipe: None },
    ];
    assert_eq!(queue.drain_outcomes(&mut store, &outcomes), 1);
    assert_eq!(store.get(&doc.sections[0].hash).unwrap().props.map(|p| p.count), Some(12));
    assert!(!queue.pending.contains(&key(&doc.sections[0].hash)));
    assert!(!queue.pending.contains(&key(&doc.sections[1].hash)));
    assert!(queue.pending.contains(&key(&doc.sections[2].hash)));
    assert!(queue.failed.contains(&key(&doc.sections[1].hash)));
    assert!(store.get(&doc.sections[1].hash).is_none());
}

#[test]
fn a_send_that_fails_mid_way_leaves_only_the_sent_jobs_pending() {
    let doc = Doc::parse(TEXT, "t");
    let store = RecipeStore::in_memory();
    let mut queue = GenQueue::new();
    let mut sent = 0;
    let jobs = enqueue_uncached(&mut queue, &doc, &store, |_| {
        sent += 1;
        sent <= 1
    });
    assert_eq!(jobs.len(), 3);
    assert!(queue.pending.contains(&key(&doc.sections[0].hash)));
    assert!(!queue.pending.contains(&key(&doc.sections[1].hash)));
    assert!(!queue.pending.contains(&key(&doc.sections[2].hash)));
}

#[test]
fn identical_sections_get_one_job() {
    let doc = Doc::parse("## A\n\nsame\n\n## A\n\nsame\n", "t");
    assert_eq!(doc.sections[0].hash, doc.sections[1].hash);
    let store = RecipeStore::in_memory();
    let mut queue = GenQueue::new();
    assert_eq!(enqueue_uncached(&mut queue, &doc, &store, |_| true).len(), 1);
    let mut other = GenQueue::new();
    assert_eq!(enqueue_uncached(&mut other, &doc, &store, |_| false).len(), 2);
}

#[test]
fn the_worker_loads_lazily_and_answers_every_job() {
    let mut w = Worker::new();
    assert_eq!(w.next_action(false), WorkerAction::LoadModel);
    w.loaded(false);
    assert_eq!(w.next_action(true), WorkerAction::Fail);
    assert_eq!(w.next_action(false), WorkerAction::LoadModel);
    w.loaded(true);
    assert_eq!(w.next_action(false), WorkerAction::Generate);
    assert_eq!(w.next_action(true), WorkerAction::Generate);
}
