use unordered_batch::batch::Multiplexer;
use unordered_batch::batch::Operation;
use unordered_batch::drain::drain_count;
use unordered_batch::drain::drain_partition;
use unordered_batch::drain::drain_results;
use unordered_batch::drain::drain_sum;
use unordered_batch::drain::outcome_for_index;
use unordered_batch::drain::value_for_index;

fn reverse_latency_batch() -> Multiplexer<u32, u32> {
    // Operation i completes with value i * 10 after (9 - i) time units,
    // so the batch completes in reverse index order.
    let mut m: Multiplexer<u32, u32> = Multiplexer::new();
    for i in 0..10u32 {
        m.push(Operation::new(i as u64, (9 - i) as u64, Ok(value_for_index(i))));
    }
    m
}

fn mixed_batch() -> Multiplexer<u32, u32> {
    // Even indices succeed with i * 10, odd indices fail tagged with i;
    // latency equals the index, so completion follows index order.
    let mut m: Multiplexer<u32, u32> = Multiplexer::new();
    for i in 0..10u32 {
        m.push(Operation::new(i as u64, i as u64, outcome_for_index(i)));
    }
    m
}

#[test]
fn value_formula() {
    assert_eq!(value_for_index(0), 0);
    assert_eq!(value_for_index(7), 70);
    assert_eq!(value_for_index(9), 90);
}

#[test]
fn outcome_formula() {
    assert_eq!(outcome_for_index(4), Ok(40));
    assert_eq!(outcome_for_index(0), Ok(0));
    assert_eq!(outcome_for_index(7), Err(7));
}

#[test]
fn reverse_latency_completion_order() {
    let mut m = reverse_latency_batch();
    let results = drain_results(&mut m);
    let expected: Vec<Result<u32, u32>> =
        (0..10u32).rev().map(|i| Ok(i * 10)).collect();
    assert_eq!(results, expected);
    assert!(m.next().is_none());
}

#[test]
fn reverse_latency_sum_is_450() {
    let mut m = reverse_latency_batch();
    assert_eq!(drain_sum(&mut m), 450);
}

#[test]
fn mixed_batch_partition() {
    let mut m = mixed_batch();
    let (sum, errs) = drain_partition(&mut m);
    // ten times the sum of the even indices: 10 * (0 + 2 + 4 + 6 + 8)
    assert_eq!(sum, 200);
    assert_eq!(errs, vec![1, 3, 5, 7, 9]);
}

#[test]
fn failure_isolation_preserves_the_rest() {
    // The same batch twice, except that operation 3 is made to always
    // fail in the second: every other result and the whole completion
    // order stay exactly as they were.
    let mut intact: Multiplexer<u32, u32> = Multiplexer::new();
    let mut broken: Multiplexer<u32, u32> = Multiplexer::new();
    for i in 0..10u32 {
        intact.push(Operation::new(i as u64, (9 - i) as u64, Ok(i * 10)));
        let outcome = if i == 3 { Err(333) } else { Ok(i * 10) };
        broken.push(Operation::new(i as u64, (9 - i) as u64, outcome));
    }
    let good = drain_results(&mut intact);
    let bad = drain_results(&mut broken);
    assert_eq!(good.len(), bad.len());
    let mut failures: usize = 0;
    for (g, b) in good.iter().zip(bad.iter()) {
        if *g == Ok(30) {
            assert_eq!(*b, Err(333));
            failures += 1;
        } else {
            assert_eq!(*b, *g);
        }
    }
    assert_eq!(failures, 1);
}

#[test]
fn count_matches_batch_size() {
    let mut m = mixed_batch();
    assert_eq!(drain_count(&mut m), 10);
    assert_eq!(m.len(), 0);

    let mut empty: Multiplexer<u32, u32> = Multiplexer::new();
    assert_eq!(drain_count(&mut empty), 0);
}
