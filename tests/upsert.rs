use holaplex_indexer::group::group_by_key;
use holaplex_indexer::upsert::{Client, Event, Phase, RETRY_DELAY_SECS};

fn s(x: &str) -> String {
    x.to_string()
}

#[test]
fn timer_flush_sends_one_batch_per_index() {
    let mut c = Client::new(10);
    assert!(!c.upsert_documents(s("metadatas"), vec![s("A"), s("B")]));
    assert!(!c.upsert_documents(s("name_service"), vec![s("C")]));
    assert_eq!(c.pending_len(), 3);
    let f = c.on_event(Event::Tick).unwrap();
    assert!(!f.last);
    assert_eq!(
        f.batches,
        vec![(s("metadatas"), vec![s("A"), s("B")]), (s("name_service"), vec![s("C")])]
    );
    assert_eq!(c.pending_len(), 0);
    assert_eq!(c.phase(), Phase::Running);
}

#[test]
fn tick_on_empty_queue_does_nothing() {
    let mut c = Client::new(10);
    assert!(c.on_event(Event::Tick).is_none());
    assert!(c.on_event(Event::Trigger).is_none());
    assert_eq!(c.phase(), Phase::Running);
}

#[test]
fn reaching_batch_size_asks_for_flush() {
    let mut c = Client::new(3);
    assert!(!c.upsert_documents(s("i"), vec![s("1"), s("2")]));
    assert!(c.upsert_documents(s("i"), vec![s("3")]));
    assert!(c.upsert_documents(s("j"), vec![s("4")]));
    assert_eq!(c.upsert_batch(), 3);
}

#[test]
fn triggers_over_two_indices_count_batches() {
    let mut c = Client::new(2);
    let mut trigger_flushes = 0;
    let mut delivered = 0;
    for n in 0..6 {
        let idx = if n % 2 == 0 { "metadatas" } else { "name_service" };
        if c.upsert_documents(s(idx), vec![format!("doc{}", n)]) {
            let f = c.on_event(Event::Trigger).unwrap();
            delivered += f.batches.iter().map(|b| b.1.len()).sum::<usize>();
            trigger_flushes += 1;
        }
    }
    assert_eq!(trigger_flushes, 3);
    assert_eq!(delivered, 6);
    assert_eq!(c.pending_len(), 0);
}

#[test]
fn remainder_waits_for_timer() {
    let mut c = Client::new(2);
    let mut trigger_flushes = 0;
    for n in 0..5 {
        if c.upsert_documents(s("i"), vec![format!("{}", n)]) {
            c.on_event(Event::Trigger).unwrap();
            trigger_flushes += 1;
        }
    }
    assert_eq!(trigger_flushes, 2);
    assert_eq!(c.pending_len(), 1);
    let f = c.on_event(Event::Tick).unwrap();
    assert_eq!(f.batches, vec![(s("i"), vec![s("4")])]);
}

#[test]
fn shutdown_flushes_queued_documents_once() {
    let mut c = Client::new(10);
    c.upsert_documents(s("metadatas"), vec![s("A"), s("B"), s("C")]);
    let f = c.on_event(Event::Stop).unwrap();
    assert!(f.last);
    assert_eq!(f.batches, vec![(s("metadatas"), vec![s("A"), s("B"), s("C")])]);
    assert_eq!(c.phase(), Phase::Draining);
    assert_eq!(c.pending_len(), 0);
    c.on_flush_done(true);
    assert_eq!(c.phase(), Phase::Stopped);
}

#[test]
fn shutdown_on_empty_queue_still_flushes() {
    let mut c = Client::new(10);
    let f = c.on_event(Event::Stop).unwrap();
    assert!(f.last);
    assert!(f.batches.is_empty());
    let mut d = Client::new(10);
    assert!(d.on_event(Event::TriggerClosed).unwrap().last);
    let mut e = Client::new(10);
    assert!(e.on_event(Event::StopLost).unwrap().last);
}

#[test]
fn failed_flush_drops_batch_and_retries() {
    let mut c = Client::new(10);
    c.upsert_documents(s("i"), vec![s("lost")]);
    c.on_event(Event::Tick).unwrap();
    c.upsert_documents(s("i"), vec![s("kept")]);
    c.on_flush_done(false);
    assert_eq!(c.phase(), Phase::Retrying { delay_secs: RETRY_DELAY_SECS });
    assert_eq!(RETRY_DELAY_SECS, 5);
    c.on_retry_elapsed();
    assert_eq!(c.phase(), Phase::Running);
    let f = c.on_event(Event::Tick).unwrap();
    assert_eq!(f.batches, vec![(s("i"), vec![s("kept")])]);
}

#[test]
fn successful_flush_keeps_running() {
    let mut c = Client::new(1);
    assert!(c.upsert_documents(s("i"), vec![s("x")]));
    c.on_event(Event::Trigger).unwrap();
    c.on_flush_done(true);
    assert_eq!(c.phase(), Phase::Running);
}

#[test]
fn grouping_keeps_first_appearance_order() {
    let g = group_by_key(vec![(s("b"), 1), (s("a"), 2), (s("b"), 3), (s("c"), 4), (s("a"), 5)]);
    assert_eq!(g, vec![(s("b"), vec![1, 3]), (s("a"), vec![2, 5]), (s("c"), vec![4])]);
    let empty: Vec<(String, u8)> = Vec::new();
    assert!(group_by_key(empty).is_empty());
}
