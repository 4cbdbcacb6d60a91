use retrieval::cache::MemoryCache;
use retrieval::client::EmbedError;
use retrieval::pipeline::{start, PipelineConfig, PipelineError, PipelineStart};
use retrieval::vector::Embedding;

fn config(max_chunk_chars: usize, max_concurrent: usize) -> PipelineConfig {
    PipelineConfig::new(max_chunk_chars, max_concurrent).unwrap()
}

/// A stand-in provider: "embeds" a chunk as its length and its first
/// character's code.
fn fake_vector(text: &str) -> Embedding {
    let first = text.chars().next().map(|c| c as i64).unwrap_or(0);
    Embedding::from_components(vec![text.chars().count() as i64, first % 1000]).unwrap()
}

/// Runs a whole document through the pipeline against the store, counting
/// the provider calls made.
fn run_document(
    cache: &mut MemoryCache,
    identity: &str,
    text: &str,
    cfg: &PipelineConfig,
) -> (Result<Vec<retrieval::rank::ChunkEmbedding>, PipelineError>, usize) {
    let cached = cache.get_all(identity);
    match start(identity, text, cached, cfg) {
        PipelineStart::Cached(records) => (Ok(records), 0),
        PipelineStart::NeedsEmbedding(mut run) => {
            let mut calls = 0usize;
            loop {
                let mut progressed = false;
                while let Some((index, chunk)) = run.next_request() {
                    calls += 1;
                    progressed = true;
                    let v = fake_vector(&chunk);
                    assert!(run.report_success(index, v));
                }
                if run.is_settled() {
                    break;
                }
                assert!(progressed, "pipeline stalled");
            }
            (run.finish(cache), calls)
        },
    }
}

#[test]
fn embeds_every_chunk_once_in_order() {
    let mut cache = MemoryCache::new();
    let cfg = config(3, 2);
    let (result, calls) = run_document(&mut cache, "doc", "abcdefgh", &cfg);
    let pairs = result.expect("pipeline should succeed");
    assert_eq!(calls, 3);
    let texts: Vec<&str> = pairs.iter().map(|p| p.text.as_str()).collect();
    assert_eq!(texts, vec!["abc", "def", "gh"]);
    for p in &pairs {
        assert_eq!(p.vector.comps, fake_vector(&p.text).comps);
    }
}

#[test]
fn second_run_issues_zero_provider_calls_and_matches_the_first() {
    let mut cache = MemoryCache::new();
    let cfg = config(4, 3);
    let (first, first_calls) = run_document(&mut cache, "doc", "some document body", &cfg);
    let first = first.unwrap();
    assert!(first_calls > 0);
    let (second, second_calls) = run_document(&mut cache, "doc", "some document body", &cfg);
    let second = second.unwrap();
    assert_eq!(second_calls, 0);
    assert_eq!(first.len(), second.len());
    for (a, b) in first.iter().zip(second.iter()) {
        assert_eq!(a.text, b.text);
        assert_eq!(a.vector.comps, b.vector.comps);
    }
}

#[test]
fn concurrency_never_exceeds_the_cap() {
    let cfg = config(1, 2);
    let outcome = start("doc", "abcde", None, &cfg);
    let mut run = match outcome {
        PipelineStart::NeedsEmbedding(run) => run,
        PipelineStart::Cached(_) => panic!("nothing cached yet"),
    };
    let a = run.next_request().expect("first slot free");
    let b = run.next_request().expect("second slot free");
    assert!(run.next_request().is_none(), "cap of two reached");
    assert!(run.report_success(a.0, fake_vector(&a.1)));
    let c = run.next_request().expect("slot freed");
    assert!(run.next_request().is_none());
    assert!(run.report_success(b.0, fake_vector(&b.1)));
    assert!(run.report_success(c.0, fake_vector(&c.1)));
}

#[test]
fn out_of_order_completion_still_yields_index_order() {
    let mut cache = MemoryCache::new();
    let cfg = config(2, 3);
    let outcome = start("doc", "aabbcc", None, &cfg);
    let mut run = match outcome {
        PipelineStart::NeedsEmbedding(run) => run,
        PipelineStart::Cached(_) => panic!("nothing cached yet"),
    };
    let r0 = run.next_request().unwrap();
    let r1 = run.next_request().unwrap();
    let r2 = run.next_request().unwrap();
    // completions arrive backwards
    assert!(run.report_success(r2.0, fake_vector(&r2.1)));
    assert!(run.report_success(r1.0, fake_vector(&r1.1)));
    assert!(run.report_success(r0.0, fake_vector(&r0.1)));
    assert!(run.is_settled());
    let pairs = run.finish(&mut cache).unwrap();
    let texts: Vec<&str> = pairs.iter().map(|p| p.text.as_str()).collect();
    assert_eq!(texts, vec!["aa", "bb", "cc"]);
}

#[test]
fn one_failure_aborts_the_run_and_writes_nothing() {
    let mut cache = MemoryCache::new();
    let cfg = config(2, 3);
    let outcome = start("doc", "aabbcc", None, &cfg);
    let mut run = match outcome {
        PipelineStart::NeedsEmbedding(run) => run,
        PipelineStart::Cached(_) => panic!("nothing cached yet"),
    };
    let r0 = run.next_request().unwrap();
    let r1 = run.next_request().unwrap();
    assert!(run.report_success(r0.0, fake_vector(&r0.1)));
    assert!(run.report_failure(
        r1.0,
        EmbedError::Provider { status: 429, body: "rate limited".to_string() },
    ));
    // fail-fast: no further work is handed out
    assert!(run.next_request().is_none());
    assert!(run.is_settled());
    match run.finish(&mut cache) {
        Err(PipelineError::Embed { chunk_index, error }) => {
            assert_eq!(chunk_index, r1.0);
            match error {
                EmbedError::Provider { status, body } => {
                    assert_eq!(status, 429);
                    assert_eq!(body, "rate limited");
                },
                _ => panic!("wrong error kind"),
            }
        },
        _ => panic!("expected the embed failure to surface"),
    }
    // the cache received zero writes for the document
    assert!(!cache.embeddings_exist("doc"));
}

#[test]
fn the_first_of_several_failures_is_surfaced() {
    let mut cache = MemoryCache::new();
    let cfg = config(1, 3);
    let mut run = match start("doc", "abc", None, &cfg) {
        PipelineStart::NeedsEmbedding(run) => run,
        PipelineStart::Cached(_) => panic!("nothing cached yet"),
    };
    let r0 = run.next_request().unwrap();
    let r1 = run.next_request().unwrap();
    assert!(run.report_failure(
        r1.0,
        EmbedError::Deserialization { detail: "bad shape".to_string() },
    ));
    assert!(run.report_failure(
        r0.0,
        EmbedError::Provider { status: 500, body: "boom".to_string() },
    ));
    assert!(run.is_settled());
    match run.finish(&mut cache) {
        Err(PipelineError::Embed { chunk_index, error }) => {
            assert_eq!(chunk_index, r1.0);
            assert!(matches!(error, EmbedError::Deserialization { .. }));
        },
        _ => panic!("expected the first failure"),
    }
    assert!(!cache.embeddings_exist("doc"));
}

#[test]
fn cached_start_serves_records_untouched() {
    let cfg = config(3, 1);
    let records = vec![retrieval::rank::ChunkEmbedding::new(
        "body".to_string(),
        Embedding::from_components(vec![9, 9]).unwrap(),
    )];
    match start("doc", "ignored text", Some(records), &cfg) {
        PipelineStart::Cached(out) => {
            assert_eq!(out.len(), 1);
            assert_eq!(out[0].text, "body");
            assert_eq!(out[0].vector.comps, vec![9, 9]);
        },
        PipelineStart::NeedsEmbedding(_) => panic!("cached documents are served directly"),
    }
}

#[test]
fn reports_for_unknown_chunks_are_ignored() {
    let cfg = config(2, 2);
    let mut run = match start("doc", "aabb", None, &cfg) {
        PipelineStart::NeedsEmbedding(run) => run,
        PipelineStart::Cached(_) => panic!("nothing cached yet"),
    };
    // nothing dispatched yet: nothing to report
    assert!(!run.report_success(0, fake_vector("aa")));
    assert!(!run.report_failure(7, EmbedError::Provider { status: 500, body: String::new() }));
    let r0 = run.next_request().unwrap();
    assert!(run.report_success(r0.0, fake_vector(&r0.1)));
    // a duplicate completion for the same chunk is ignored too
    assert!(!run.report_success(r0.0, fake_vector(&r0.1)));
}

#[test]
fn invalid_configuration_is_rejected() {
    assert!(PipelineConfig::new(0, 5).is_none());
    assert!(PipelineConfig::new(5, 0).is_none());
    assert!(PipelineConfig::new(1, 1).is_some());
}
