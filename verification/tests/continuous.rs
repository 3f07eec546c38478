use mach_model::batched::BatchedError;
use mach_model::config::Config;
use mach_model::continuous::{Admission, ContinuousModel, Source, StepEnd};
use mach_model::engine_model::EngineError;
use mach_model::page_reuse::{PagedEngineState, PagedEntry};
use mach_model::sequence::{ends_with_stop, Sample};
use mach_model::upload::{ModelLens, TensorLens};

fn lens(c: &Config) -> ModelLens {
    let t = |len| TensorLens {
        len,
        packed: 0,
        scales: 0,
    };
    ModelLens {
        tok_emb: t(c.vocab_size * c.d_model),
        rms_final: t(c.d_model),
        lm_head: t(c.vocab_size * c.d_model),
        layers: vec![],
    }
}

fn engine(capacity: usize, rows: usize) -> ContinuousModel {
    let c = Config::tiny();
    ContinuousModel::with_prefill_rows(c, &lens(&c), capacity, rows, 0).unwrap()
}

fn add(e: &mut ContinuousModel, prompt: &[u32], max_new: usize) -> Admission {
    e.add(prompt, max_new, None, vec![], vec![], 0, Source::Fresh)
        .unwrap()
}

/// Runs a step on which every row samples its token plus one.
fn step(e: &mut ContinuousModel) -> StepEnd {
    let start = e.begin_step().unwrap();
    let samples: Vec<Sample> = start
        .plan
        .tokens
        .iter()
        .zip(&start.plan.seeds)
        .map(|(&t, &seed)| Sample {
            token: t + 1,
            logprob: 0,
            top: vec![(t + 1, 0)],
            seed: seed + 1,
        })
        .collect();
    e.end_step(&start.plan, &samples)
}

#[test]
fn a_prompt_is_prefilled_and_decoded() {
    let mut e = engine(2, 4);
    assert!(e.all_done());
    let a = add(&mut e, &[10, 20, 30], 2);
    assert_eq!((a.id, a.slot, a.reused), (1, 0, 0));
    assert_eq!(e.active(), 1);
    assert_eq!(e.capacity(), 2);

    let start = e.begin_step().unwrap();
    assert_eq!(start.plan.tokens, vec![10, 20, 30]);
    assert_eq!(start.plan.lens, vec![0, 1, 2]);
    assert_eq!(start.plan.slots, vec![0, 0, 0]);
    assert!(!start.plan.decode_only);
    assert_eq!(start.work.unwrap().rows, 3);

    let end = step(&mut e);
    assert_eq!(end.outputs, vec![(1, 31)]);
    assert!(end.done.is_empty());
    let start = e.begin_step().unwrap();
    assert_eq!(start.plan.tokens, vec![31]);
    assert_eq!(start.plan.lens, vec![3]);
    assert!(start.plan.decode_only);

    let end = step(&mut e);
    assert_eq!(end.outputs, vec![(1, 32)]);
    assert_eq!(end.done, vec![0]);
    let work = e.finish(0);
    assert!(work.moves.is_empty() && work.anchor.is_none());
    assert!(e.is_done(1));
    assert_eq!(e.generated(1), vec![31, 32]);
    assert_eq!(e.generated_top_logprobs(1), vec![vec![(31, 0)], vec![(32, 0)]]);
    assert_eq!(e.finish_reason(1), "length");
    e.ack(1);
    assert!(e.generated(1).is_empty());
    assert!(e.begin_step().unwrap().work.is_none());
}

#[test]
fn long_prompts_are_chunked() {
    let mut e = engine(2, 4);
    add(&mut e, &[1, 2, 3, 4, 5, 6], 1);
    add(&mut e, &[50, 51], 1);
    let start = e.begin_step().unwrap();
    assert_eq!(start.plan.tokens, vec![1, 2, 3, 4]);
    assert_eq!(step(&mut e).outputs, vec![]);
    let start = e.begin_step().unwrap();
    assert_eq!(start.plan.tokens, vec![5, 6, 50, 51]);
    assert_eq!(start.plan.lens, vec![4, 5, 0, 1]);
    assert_eq!(start.plan.slots, vec![0, 0, 1, 1]);
    let end = step(&mut e);
    assert_eq!(end.outputs, vec![(1, 7), (2, 52)]);
    // The highest slot finishes first, so that the others keep their numbers.
    assert_eq!(end.done, vec![1, 0]);
}

#[test]
fn a_finished_sequence_makes_room() {
    let mut e = engine(3, 6);
    add(&mut e, &[1], 1);
    add(&mut e, &[2], 5);
    add(&mut e, &[3], 5);
    let end = step(&mut e);
    assert_eq!(end.done, vec![0]);
    let work = e.finish(0);
    // Both higher sequences move down, each with its one position in four caches.
    assert_eq!(work.moves.len(), 2);
    assert_eq!(work.moves[0].len(), 4);
    assert_eq!(work.moves[0][0].bytes, 2 * 32 * 4);
    let start = e.begin_step().unwrap();
    assert_eq!(start.plan.tokens, vec![3, 4]);
    assert_eq!(start.plan.slots, vec![0, 1]);
    assert_eq!(add(&mut e, &[9], 1).slot, 2);
}

#[test]
fn admission_is_checked() {
    let mut e = engine(1, 2);
    let err = |e: &mut ContinuousModel, prompt: &[u32]| {
        e.add(prompt, 1, None, vec![], vec![], 0, Source::Fresh).err()
    };
    assert_eq!(err(&mut e, &[]), Some(EngineError::EmptyPrompt));
    assert_eq!(
        err(&mut e, &[0; 257]),
        Some(EngineError::PromptTooLong {
            len: 257,
            max_seq_len: 256
        })
    );
    add(&mut e, &[1], 1);
    assert_eq!(err(&mut e, &[1]), Some(EngineError::AtCapacity));
    assert_eq!(e.check_prompt(&[1]), Err(EngineError::AtCapacity));
}

#[test]
fn eos_and_stop_sequences_stop() {
    let mut e = engine(2, 4);
    e.add(&[10], 9, Some(11), vec![], vec![], 0, Source::Fresh)
        .unwrap();
    e.add(
        &[20],
        9,
        None,
        vec![vec![21, 22]],
        vec![],
        0,
        Source::Fresh,
    )
    .unwrap();
    assert_eq!(step(&mut e).done, vec![0]);
    e.finish(0);
    assert_eq!(e.finish_reason(1), "stop");
    let end = step(&mut e);
    assert_eq!(end.done, vec![0]);
    e.finish(0);
    assert_eq!(e.generated(2), vec![21, 22]);
    assert_eq!(e.finish_reason(2), "stop");
    assert!(ends_with_stop(&[1, 2, 3], &[vec![9], vec![2, 3]]));
    assert!(!ends_with_stop(&[1, 2, 3], &[vec![2]]));
    assert!(!ends_with_stop(&[1], &[vec![0, 1]]));
}

#[test]
fn seeds_are_stable_and_advance() {
    let mut e = engine(2, 2);
    e.add(&[1], 3, None, vec![], vec![], 77, Source::Fresh).unwrap();
    add(&mut e, &[2], 3);
    let first = e.begin_step().unwrap();
    // An unspecified seed falls back to the sequence's id.
    assert_eq!(first.plan.seeds, vec![77, 2]);
    step(&mut e);
    assert_eq!(e.begin_step().unwrap().plan.seeds, vec![78, 3]);
}

#[test]
fn penalties_count_generated_tokens() {
    let mut e = engine(1, 1);
    e.add(&[4], 9, None, vec![], vec![(7, 1)], 0, Source::Fresh)
        .unwrap();
    step(&mut e);
    step(&mut e);
    let start = e.begin_step().unwrap();
    let mut counts = start.plan.counts[0].clone();
    counts.sort();
    assert_eq!(counts, vec![(5, 1), (6, 1)]);
    assert_eq!(start.plan.bias, vec![vec![(7, 1)]]);
}

#[test]
fn anchors_carry_a_prefix_over() {
    let c = Config::tiny();
    let mut e = ContinuousModel::with_state_reuse(c, &lens(&c), 2, 0).unwrap();
    add(&mut e, &[1, 2, 3], 1);
    while step(&mut e).done.is_empty() {}
    let work = e.finish(0);
    let anchor = work.anchor.unwrap();
    let token = 2 * 32 * 4;
    // The generated token was never fed, so the anchor covers the prompt.
    assert_eq!(anchor.tokens, vec![1, 2, 3]);
    assert!(anchor.reads.kv.iter().all(|s| s.bytes == 3 * token));

    let source = |sizes| Source::Anchor {
        prefix_len: 4,
        token_idx: 3,
        kv_sizes: sizes,
        hidden_len: 128,
    };
    let good = vec![(4 * token, 4 * token); 2];
    let a = e
        .add(&[1, 2, 3, 4, 5], 1, None, vec![], vec![], 0, source(good))
        .unwrap();
    assert_eq!(a.reused, 4);
    assert_eq!(a.restore.unwrap().kv.len(), 4);
    let start = e.begin_step().unwrap();
    assert_eq!(start.plan.tokens, vec![5]);
    assert_eq!(start.plan.lens, vec![4]);

    let bad = vec![(4, 4); 2];
    assert_eq!(
        e.add(&[1, 2, 3, 4, 5], 1, None, vec![], vec![], 0, source(bad)).err(),
        Some(EngineError::Restore(BatchedError::AnchorKvSize { layer: 0 }))
    );
}

fn keys(names: &[&str]) -> Vec<String> {
    names.iter().map(|n| n.to_string()).collect()
}

#[test]
fn pages_are_shared_after_prefill() {
    let c = Config::tiny();
    let mut e = ContinuousModel::with_paged_prefill_rows(c, &lens(&c), 2, 160, 64, 0).unwrap();
    let prompt: Vec<u32> = (0..130).collect();
    assert_eq!(e.reuse_boundary(&prompt), 0);
    let pages = |p: Vec<u32>, chain: &[&str]| Source::Pages {
        pages: p,
        chain: keys(chain),
    };
    let first = e
        .add(&prompt, 2, None, vec![], vec![], 0, pages(vec![5, 3, 0], &["a", "b"]))
        .unwrap();
    assert_eq!(first.upload, Some((0, 4)));
    assert_eq!(&e.model().block_tables()[..4], &[5, 3, 0, 0]);
    // Nothing is reusable before the pages hold their positions.
    assert_eq!(e.reuse_boundary(&prompt), 0);
    let end = step(&mut e);
    assert_eq!(end.materialized, vec![0]);
    assert_eq!(e.reuse_boundary(&prompt), 128);
    // At least one token is computed.
    assert_eq!(e.reuse_boundary(&prompt[..128]), 64);
    assert_eq!(e.reuse_boundary(&prompt[..100]), 64);

    let second = e
        .add(&prompt, 2, None, vec![], vec![], 0, pages(vec![5, 3, 1], &["a", "b"]))
        .unwrap();
    assert_eq!(second.reused, 128);
    let start = e.begin_step().unwrap();
    assert_eq!(start.plan.lens, vec![130, 128, 129]);
    let stats = e.paged_reuse_stats().unwrap();
    assert_eq!(
        (stats.requests, stats.reused_tokens, stats.prompt_tokens),
        (2, 128, 260)
    );

    let end = step(&mut e);
    assert_eq!(end.done, vec![0]);
    let work = e.finish(0);
    assert_eq!(work.freed, vec![0]);
    assert_eq!(work.uploads, vec![(0, 4)]);
    assert!(work.moves.is_empty());
    // The other sequence keeps its pages, and the content stays reusable.
    assert_eq!(&e.model().block_tables()[..4], &[5, 3, 1, 1]);
    assert_eq!(e.reuse_boundary(&prompt), 128);
    assert_eq!(e.retired(), vec![&keys(&["a", "b"])]);
    assert!(!e.over_retired_cap());
    // Its pages are still in use.
    assert_eq!(e.evict_one_retired(&vec![vec![Some(5), Some(3)]]), None);
    assert_eq!(
        e.evict_one_retired(&vec![vec![Some(6), None]]),
        Some(keys(&["a", "b"]))
    );
    assert!(e.retired().is_empty());
}

#[test]
fn page_plans_are_checked() {
    let c = Config::tiny();
    let mut e = ContinuousModel::with_paged_prefill_rows(c, &lens(&c), 1, 8, 64, 0).unwrap();
    assert_eq!(
        e.add(&[1], 1, None, vec![], vec![], 0, Source::NoPages).err(),
        Some(EngineError::PagePlan)
    );
    let far = Source::Pages {
        pages: vec![4],
        chain: vec![],
    };
    assert_eq!(
        e.add(&[1], 1, None, vec![], vec![], 0, far).err(),
        Some(EngineError::BlockTable(BatchedError::PageOutOfRange {
            page: 4,
            pool_pages: 4
        }))
    );
    // Refused sources spend their ids.
    let ok = Source::Pages {
        pages: vec![2],
        chain: vec![],
    };
    assert_eq!(
        e.add(&[1], 1, None, vec![], vec![], 0, ok).unwrap().id,
        3
    );
}

#[test]
fn the_longest_owned_prefix_is_reused() {
    let entry = |n: u32, registered| PagedEntry {
        prefix: (0..n).collect(),
        registered,
        chain: vec![],
    };
    let state = PagedEngineState {
        tokens_per_page: 4,
        tables: vec![vec![0], vec![1]],
        entries: vec![entry(9, true), entry(16, false)],
        retired: vec![entry(13, true)],
        requests: 0,
        reused_tokens: 0,
        prompt_tokens: 0,
    };
    let prompt: Vec<u32> = (0..20).collect();
    assert_eq!(state.find_reusable(&prompt), 12);
    assert_eq!(state.find_reusable(&prompt[..11]), 8);
    assert_eq!(state.find_reusable(&[0, 1, 2, 9]), 0);
}

#[test]
fn a_full_context_finishes() {
    let c = Config {
        max_seq_len: 3,
        ..Config::tiny()
    };
    let mut e = ContinuousModel::new(c, &lens(&c), 1, 0).unwrap();
    add(&mut e, &[1, 2], 100);
    let mut steps = 0;
    let done = loop {
        let end = step(&mut e);
        steps += 1;
        if !end.done.is_empty() {
            break end.done;
        }
        assert!(steps < 10);
    };
    assert_eq!(done, vec![0]);
    e.finish(0);
    assert_eq!(e.generated(1), vec![3, 4]);
    assert_eq!(e.finish_reason(1), "length");
}
