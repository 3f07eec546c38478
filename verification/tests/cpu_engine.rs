use mach_model::cpu_engine::{CpuEngine, CpuEngineError};

/// A deterministic stand-in for a language model: the next token of a context.
fn next_token(context: &[u32]) -> u32 {
    let mut h: u32 = 17;
    for &t in context {
        h = h.wrapping_mul(31).wrapping_add(t);
    }
    h % 97
}

fn greedy(prompt: &[u32], n: usize) -> Vec<u32> {
    let mut context = prompt.to_vec();
    let mut out = Vec::new();
    for _ in 0..n {
        let t = next_token(&context);
        out.push(t);
        context.push(t);
    }
    out
}

/// Serves prompts in pages of four tokens; the last token is always computed.
struct Driver {
    contexts: Vec<Vec<u32>>,
    cached: Vec<Vec<u32>>,
}

impl Driver {
    fn new(capacity: usize) -> Driver {
        Driver {
            contexts: vec![Vec::new(); capacity],
            cached: Vec::new(),
        }
    }

    fn step(&mut self, eng: &mut CpuEngine) -> bool {
        let Some(step) = eng.begin_step() else {
            return false;
        };
        if let Some(slot) = step.prefill {
            let prompt = eng.prompt(slot).expect("occupied").clone();
            let mut reused = 0;
            while reused + 4 < prompt.len()
                && self.cached.contains(&prompt[..reused + 4].to_vec())
            {
                reused += 4;
            }
            for end in (4..=prompt.len()).step_by(4) {
                self.cached.push(prompt[..end].to_vec());
            }
            let next = next_token(&prompt);
            eng.prefilled(slot, next, reused, prompt.len() - reused);
            self.contexts[slot] = prompt;
        }
        let decoded = eng.decode();
        for (slot, token) in decoded.tokens {
            self.contexts[slot].push(token);
            eng.set_next(slot, next_token(&self.contexts[slot]));
        }
        for slot in decoded.done {
            eng.finish_slot(slot);
        }
        true
    }

    fn step_until_done(&mut self, eng: &mut CpuEngine) {
        while self.step(eng) {}
    }
}

#[test]
fn shared_prefix_requests_interleave_and_match_full_recompute() {
    let system = [1u32, 2, 3, 4, 5, 6, 7, 8];
    let tails = [100u32, 101, 102, 103, 104];
    let mut eng = CpuEngine::new(5);
    let ids: Vec<u64> = tails
        .iter()
        .map(|&tail| {
            let mut p = system.to_vec();
            p.push(tail);
            eng.add(&p, 4).expect("add")
        })
        .collect();
    Driver::new(5).step_until_done(&mut eng);
    assert!(eng.is_idle());

    let finished = eng.finished();
    assert_eq!(finished.len(), 5);
    for (i, f) in finished.iter().enumerate() {
        assert_eq!(f.id, ids[i], "finish order = add order");
        let mut p = system.to_vec();
        p.push(tails[i]);
        assert_eq!(f.generated, greedy(&p, 4), "request {i} decode");
        if i == 0 {
            assert_eq!(f.reused_tokens, 0);
            assert_eq!(f.computed_tokens, 9);
        } else {
            assert_eq!(f.reused_tokens, 8, "request {i} reuses the system prompt");
            assert_eq!(f.computed_tokens, 1);
        }
    }
    let st = *eng.stats();
    assert_eq!(st.requests, 5);
    assert_eq!(st.prompt_tokens_total, 45);
    assert_eq!(st.prompt_tokens_reused, 32);
    assert_eq!(st.prompt_tokens_computed, 13);
    assert_eq!(st.decoded_tokens, 20);
    // One prompt per step, then the last request decodes its three remaining tokens.
    assert_eq!(st.steps, 8);
}

#[test]
fn capacity_slots_reuse_after_finish() {
    // Capacity 2 but 5 requests: slots must be reused as requests finish.
    let mut eng = CpuEngine::new(2);
    assert_eq!(eng.capacity(), 2);
    for i in 0..5u32 {
        eng.add(&[10 + i, 20 + i, 30 + i, 40 + i], 2).expect("add");
    }
    Driver::new(2).step_until_done(&mut eng);
    assert!(eng.is_idle());
    assert_eq!(
        eng.finished().len(),
        5,
        "all queued requests complete via slot reuse"
    );
    assert_eq!(eng.stats().requests, 5);
}

#[test]
fn drain_finished_clears_records() {
    let mut eng = CpuEngine::new(2);
    eng.add(&[1, 2, 3, 4], 1).expect("add");
    Driver::new(2).step_until_done(&mut eng);
    assert_eq!(eng.finished().len(), 1);
    let drained = eng.drain_finished();
    assert_eq!(drained.len(), 1);
    assert_eq!(drained[0].total_prompt_tokens, 4);
    assert!(eng.finished().is_empty(), "records cleared after drain");
}

#[test]
fn empty_engine_is_idle() {
    let mut eng = CpuEngine::new(2);
    assert!(eng.is_idle());
    assert!(
        !Driver::new(2).step(&mut eng),
        "idle engine reports no work"
    );
    assert_eq!(eng.stats().steps, 0);
}

#[test]
fn admission_queue_is_bounded() {
    // `add` always queues (slots fill on step); max_pending caps the queue.
    let mut eng = CpuEngine::new_with_limits(1, 1, usize::MAX);
    let mut driver = Driver::new(1);
    eng.add(&[1, 2, 3, 4], 1).expect("queued (pending 1)");
    assert_eq!(
        eng.add(&[5, 6, 7, 8], 1),
        Err(CpuEngineError::QueueFull),
        "queue full -> backpressure"
    );
    // Run drains the queue; a new request can queue again.
    driver.step_until_done(&mut eng);
    eng.add(&[9, 10, 11, 12], 1).expect("space freed");
    driver.step_until_done(&mut eng);
    assert_eq!(eng.stats().requests, 2);
}

#[test]
fn finished_records_are_bounded() {
    let mut eng = CpuEngine::new_with_limits(2, usize::MAX, 2);
    for i in 0..3u32 {
        eng.add(&[1 + i, 2 + i, 3 + i, 4 + i], 1).expect("add");
    }
    Driver::new(2).step_until_done(&mut eng);
    assert_eq!(
        eng.finished().len(),
        2,
        "oldest record dropped beyond max_finished"
    );
    assert_eq!(eng.stats().requests, 3);
}

#[test]
fn empty_prompt_is_rejected() {
    let mut eng = CpuEngine::new(2);
    assert_eq!(eng.add(&[], 1), Err(CpuEngineError::EmptyPrompt));
}

#[test]
fn no_budget_finishes_without_tokens() {
    let mut eng = CpuEngine::new(1);
    let id = eng.add(&[7, 8], 0).expect("add");
    Driver::new(1).step_until_done(&mut eng);
    assert_eq!(eng.finished()[0].id, id);
    assert!(eng.finished()[0].generated.is_empty());
    assert_eq!(eng.finished()[0].computed_tokens, 2);
    assert_eq!(eng.stats().decoded_tokens, 0);
}
