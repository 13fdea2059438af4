use chum::{Queue, QueueMode, DEF_QUEUE_CAP};
use std::time::Instant;

/*
 * Filling a queue and then overwriting every item must stay cheap however
 * large the queue is: these print their timings under `--nocapture`.
 */
#[test]
fn test_queue_overwrite() {
    let mut q = Queue::new(QueueMode::Rand);
    let start = Instant::now();
    for _ in 0..DEF_QUEUE_CAP {
        q.insert("testobj".to_string());
    }
    let end = start.elapsed().as_millis();
    println!("adding {} items took {}ms", DEF_QUEUE_CAP, end);

    let noverflow = DEF_QUEUE_CAP;
    let start = Instant::now();
    for _ in 0..noverflow {
        q.insert("testobj".to_string());
    }
    let end = start.elapsed().as_millis();
    println!("adding {} overflow items took {}ms", noverflow, end);
    assert_eq!(q.len(), DEF_QUEUE_CAP);
}

#[test]
fn test_queue_clear() {
    let mut q = Queue::new(QueueMode::Rand);
    let start = Instant::now();
    for _ in 0..DEF_QUEUE_CAP {
        q.insert("testobj".to_string());
    }
    let end = start.elapsed().as_millis();
    println!("adding {} items took {}ms", DEF_QUEUE_CAP, end);

    let start = Instant::now();
    for _ in 0..DEF_QUEUE_CAP {
        q.remove();
    }
    let end = start.elapsed().as_millis();
    println!("removing {} items took {}ms", DEF_QUEUE_CAP, end);
    assert!(q.is_empty());
}

fn filled(mode: QueueMode, n: usize) -> Queue<String> {
    let mut q = Queue::with_capacity(mode, n).unwrap();
    for i in 0..n {
        q.insert(i.to_string());
    }
    q
}

#[test]
fn zero_capacity_is_rejected() {
    let r: Result<Queue<String>, _> = Queue::with_capacity(QueueMode::Lru, 0);
    assert_eq!(r.err().unwrap().message(), "queue capacity must be at least 1");
}

#[test]
fn len_counts_inserts_then_stays_at_capacity() {
    for mode in [QueueMode::Lru, QueueMode::Mru, QueueMode::Rand] {
        let mut q = Queue::with_capacity(mode, 4).unwrap();
        for i in 0..4 {
            assert_eq!(q.len(), i);
            q.insert(i);
        }
        for i in 0..10 {
            q.insert(100 + i);
            assert_eq!(q.len(), 4);
        }
    }
}

#[test]
fn empty_queue_gives_none() {
    for mode in [QueueMode::Lru, QueueMode::Mru, QueueMode::Rand] {
        let mut q: Queue<String> = Queue::with_capacity(mode, 3).unwrap();
        assert!(q.get().is_none());
        assert!(q.remove().is_none());
        q.replace("x".to_string());
        assert!(q.is_empty());
    }
}

#[test]
fn lru_evicts_oldest() {
    let mut q = filled(QueueMode::Lru, 5);
    q.insert("X".to_string());
    assert_eq!(q.get().unwrap(), "1");
    assert_eq!(q.len(), 5);
    assert_eq!(q.remove().unwrap(), "1");
    assert_eq!(q.remove().unwrap(), "2");
}

#[test]
fn mru_replaces_top() {
    let mut q = filled(QueueMode::Mru, 5);
    q.insert("X".to_string());
    assert_eq!(q.get().unwrap(), "X");
    assert_eq!(q.remove().unwrap(), "X");
    assert_eq!(q.remove().unwrap(), "3");
    assert_eq!(q.len(), 3);
}

#[test]
fn rand_holds_only_inserted_tokens() {
    let mut q = Queue::with_capacity(QueueMode::Rand, 3).unwrap();
    for i in 0..10u32 {
        q.insert(i);
        assert!(q.len() <= 3);
    }
    // the cursor overwrote slots 0, 1, 2, 0, 1, 2, 0 in turn
    let mut held = Vec::new();
    while let Some(x) = q.remove() {
        held.push(x);
    }
    held.sort();
    assert_eq!(held, vec![7, 8, 9]);
}

#[test]
fn rand_get_returns_a_held_token() {
    let q = filled(QueueMode::Rand, 4);
    for _ in 0..20 {
        let t = q.get().unwrap();
        assert!(["0", "1", "2", "3"].contains(&t.as_str()));
    }
}

#[test]
fn rand_remove_swaps_in_last() {
    let mut q = filled(QueueMode::Rand, 4);
    // cursor is at slot 0: its token leaves, the last token takes its slot
    assert_eq!(q.remove().unwrap(), "0");
    // the cursor moved on to slot 1
    assert_eq!(q.remove().unwrap(), "1");
    assert_eq!(q.len(), 2);
}

#[test]
fn queue_mode_names() {
    assert_eq!("lru".parse::<QueueMode>().unwrap(), QueueMode::Lru);
    assert_eq!(QueueMode::parse("mru").unwrap(), QueueMode::Mru);
    assert_eq!(QueueMode::parse("rand").unwrap(), QueueMode::Rand);
    assert!(QueueMode::parse("fifo").is_err());
    assert_eq!(QueueMode::Rand.name(), "rand");
    assert_eq!(QueueMode::parse("x").unwrap_err().message(), "invalid queue mode");
}

#[test]
fn get_at_reads_by_position() {
    let mut q = filled(QueueMode::Lru, 3);
    q.insert("X".to_string());
    assert_eq!(q.get_at(0).unwrap(), "1");
    assert_eq!(q.get_at(2).unwrap(), "X");
    assert!(q.get_at(3).is_none());
    let r = filled(QueueMode::Rand, 3);
    assert_eq!(r.get_at(1).unwrap(), "1");
    assert!(r.get_at(5).is_none());
}
