use unordered_batch::batch::Multiplexer;
use unordered_batch::batch::Operation;

#[test]
fn empty_batch_returns_absent() {
    let mut m: Multiplexer<u32, u32> = Multiplexer::new();
    assert_eq!(m.len(), 0);
    assert!(m.is_empty());
    assert!(m.next().is_none());
}

#[test]
fn exhaustion_is_idempotent() {
    let mut m: Multiplexer<u32, u32> = Multiplexer::new();
    m.push(Operation::new(0, 7, Ok(1)));
    assert!(m.next().is_some());
    assert!(m.next().is_none());
    assert!(m.next().is_none());
    assert!(m.next().is_none());
}

#[test]
fn exactly_once_delivery() {
    let mut m: Multiplexer<u32, u32> = Multiplexer::new();
    for i in 0..5u64 {
        m.push(Operation::new(i, 50 - i, Ok(i as u32)));
    }
    let mut seen: Vec<u32> = Vec::new();
    let mut yielded: usize = 0;
    while let Some(r) = m.next() {
        yielded += 1;
        seen.push(r.unwrap());
    }
    assert_eq!(yielded, 5);
    assert!(m.next().is_none());
    seen.sort();
    assert_eq!(seen, vec![0, 1, 2, 3, 4]);
}

#[test]
fn order_independence_pair() {
    // A has the shorter latency; it must come out first whichever way
    // round the two operations are pushed.
    let a = || Operation::new(0, 100, Ok::<u32, u32>(11));
    let b = || Operation::new(1, 200, Ok::<u32, u32>(22));

    let mut m1: Multiplexer<u32, u32> = Multiplexer::new();
    m1.push(a());
    m1.push(b());
    assert_eq!(m1.next(), Some(Ok(11)));
    assert_eq!(m1.next(), Some(Ok(22)));
    assert_eq!(m1.next(), None);

    let mut m2: Multiplexer<u32, u32> = Multiplexer::new();
    m2.push(b());
    m2.push(a());
    assert_eq!(m2.next(), Some(Ok(11)));
    assert_eq!(m2.next(), Some(Ok(22)));
    assert_eq!(m2.next(), None);
}

#[test]
fn equal_latency_breaks_ties_by_token() {
    let mut m: Multiplexer<u32, u32> = Multiplexer::new();
    m.push(Operation::new(5, 40, Ok(55)));
    m.push(Operation::new(2, 40, Ok(22)));
    assert_eq!(m.next(), Some(Ok(22)));
    assert_eq!(m.next(), Some(Ok(55)));
    assert_eq!(m.next(), None);
}

#[test]
fn random_latency_stays_in_range() {
    // The second push draws its latency from [5, 6), the first from
    // [100, 101), so the draws are forced and the second operation must
    // complete first; were the sampled latencies not taken from the given
    // ranges (say, both equal), the tie would go to the smaller token and
    // the first operation would win instead.
    let mut m: Multiplexer<u32, u32> = Multiplexer::new();
    m.push_random(1, 100, 101, Ok(11));
    m.push_random(9, 5, 6, Ok(99));
    assert_eq!(m.next(), Some(Ok(99)));
    assert_eq!(m.next(), Some(Ok(11)));
    assert_eq!(m.next(), None);
}
