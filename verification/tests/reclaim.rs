use klinke::reclaim::{AllocatorGuard, DeallocOutcome, GarbageRecord};

#[test]
fn ordinary_thread_frees_synchronously() {
    let mut guard = AllocatorGuard::new();
    assert!(!guard.am_audio_thread());
    let rec = GarbageRecord { addr: 64, size: 16, align: 8 };
    match guard.dealloc(rec) {
        DeallocOutcome::Immediate(back) => assert_eq!(back, rec),
        _ => panic!("an ordinary thread must free in place"),
    }
    assert_eq!(guard.leaked_bytes(), 0);
}

#[test]
fn becoming_audio_thread_is_idempotent() {
    let mut guard = AllocatorGuard::new();
    let (tx1, rx1) = crossbeam_channel::bounded::<GarbageRecord>(4);
    let (tx2, _rx2) = crossbeam_channel::bounded::<GarbageRecord>(4);
    guard.become_audio_thread(tx1);
    assert!(guard.am_audio_thread());
    // A second declaration keeps the first channel.
    guard.become_audio_thread(tx2);
    assert!(guard.am_audio_thread());
    let rec = GarbageRecord { addr: 1, size: 2, align: 1 };
    assert!(matches!(guard.dealloc(rec), DeallocOutcome::Deferred));
    assert_eq!(rx1.recv().unwrap(), rec);
}

#[test]
fn overflow_leaks_exactly_the_dropped_bytes() {
    // Stress: 1000 rapid frees against a 256-capacity queue with no worker
    // draining it. Nothing blocks; the first 256 are deferred, the other 744
    // are dropped and tallied by byte size.
    let mut guard = AllocatorGuard::new();
    let (tx, rx) = crossbeam_channel::bounded::<GarbageRecord>(256);
    guard.become_audio_thread(tx);
    let mut deferred = 0u64;
    let mut leaked = 0u64;
    for i in 0..1000usize {
        let rec = GarbageRecord { addr: i, size: 8, align: 8 };
        match guard.dealloc(rec) {
            DeallocOutcome::Deferred => deferred += 1,
            DeallocOutcome::Leaked => leaked += 1,
            DeallocOutcome::Immediate(_) => panic!("audio thread must not free in place"),
        }
    }
    assert_eq!(deferred, 256);
    assert_eq!(leaked, 744);
    assert_eq!(guard.leaked_bytes(), 744 * 8);
    // The queued records are all still there for the worker.
    assert_eq!(rx.len(), 256);
}

#[test]
fn dead_worker_counts_as_leak() {
    let mut guard = AllocatorGuard::new();
    let (tx, rx) = crossbeam_channel::bounded::<GarbageRecord>(256);
    guard.become_audio_thread(tx);
    drop(rx); // the reclamation worker is gone
    let rec = GarbageRecord { addr: 3, size: 100, align: 4 };
    assert!(matches!(guard.dealloc(rec), DeallocOutcome::Leaked));
    assert_eq!(guard.leaked_bytes(), 100);
}

#[test]
fn allocation_denial_only_on_audio_thread_checking_builds() {
    let mut guard = AllocatorGuard::new();
    assert!(!guard.should_deny_alloc(true));
    assert!(!guard.should_deny_alloc(false));
    let (tx, _rx) = crossbeam_channel::bounded::<GarbageRecord>(4);
    guard.become_audio_thread(tx);
    assert!(guard.should_deny_alloc(true));
    assert!(!guard.should_deny_alloc(false));
}
