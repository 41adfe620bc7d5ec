use may_thread::pool::PoolState;

#[test]
fn fresh_pool_is_idle() {
    let s = PoolState::new(4);
    assert_eq!(s.running.len(), 4);
    assert!(s.running.iter().all(|r| r.is_none()));
    assert_eq!(s.queue.len(), 0);
    assert_eq!(s.done_jobs.len(), 0);
    assert_eq!(s.next_ticket, 0);
    assert!(s.open);
}

#[test]
fn tickets_are_issued_in_order() {
    let mut s = PoolState::new(2);
    assert_eq!(s.submit(), 0);
    assert_eq!(s.submit(), 1);
    assert_eq!(s.submit(), 2);
    assert_eq!(s.queue, vec![0, 1, 2]);
}

#[test]
fn one_job_runs_once_on_one_worker() {
    let mut s = PoolState::new(4);
    let id = s.submit();
    let taken = s.take(0);
    assert_eq!(taken, id);
    assert_eq!(s.running[0], Some(id));
    let finished = s.finish(0);
    assert_eq!(finished, id);
    assert_eq!(s.running[0], None);
    assert_eq!(s.done_jobs, vec![id]);
    assert_eq!(s.done_workers, vec![0]);
}

#[test]
fn single_worker_accumulates_in_sequence() {
    // A pool of size one runs every job on the same worker, so its history
    // records the jobs in the order they were executed: the state such a
    // worker carries is shaped by each job in turn.
    let mut s = PoolState::new(1);
    for _ in 0..4 {
        let id = s.submit();
        s.take(0);
        let finished = s.finish(0);
        assert_eq!(finished, id);
    }
    assert_eq!(s.done_jobs, vec![0, 1, 2, 3]);
    assert_eq!(s.done_workers, vec![0, 0, 0, 0]);
}

#[test]
fn interleaved_workers_never_share_a_job() {
    let mut s = PoolState::new(2);
    for _ in 0..6 {
        s.submit();
    }
    // Both workers hold a job at once; completions interleave.
    while !s.queue.is_empty() {
        s.take(0);
        s.take(1);
        s.finish(1);
        s.finish(0);
    }
    let h0: Vec<u64> = (0..s.done_jobs.len())
        .filter(|&i| s.done_workers[i] == 0)
        .map(|i| s.done_jobs[i])
        .collect();
    let h1: Vec<u64> = (0..s.done_jobs.len())
        .filter(|&i| s.done_workers[i] == 1)
        .map(|i| s.done_jobs[i])
        .collect();
    assert_eq!(h0.len() + h1.len(), 6);
    for id in &h0 {
        assert!(!h1.contains(id), "a job was delivered to two workers");
    }
}

#[test]
fn hundred_jobs_each_delivered_exactly_once() {
    // The model analogue of a hundred concurrent submissions to a pool of
    // four: whatever the interleaving of workers, the delivered tickets are
    // a permutation of the issued ones.
    let mut s = PoolState::new(4);
    for _ in 0..100 {
        s.submit();
    }
    let mut w = 0;
    while !s.queue.is_empty() {
        s.take(w);
        s.finish(w);
        w = (w + 3) % 4;
    }
    let mut seen = vec![false; 100];
    assert_eq!(s.done_jobs.len(), 100);
    for &id in &s.done_jobs {
        let i = id as usize;
        assert!(i < 100);
        assert!(!seen[i], "ticket {} delivered twice", id);
        seen[i] = true;
    }
    assert!(seen.iter().all(|&b| b), "a ticket was never delivered");
}

#[test]
fn shutdown_completes_in_flight_and_queued_jobs() {
    // Tearing the pool down with one job mid-execution and more still
    // queued: control comes back only once everything has been delivered.
    let mut s = PoolState::new(3);
    for _ in 0..7 {
        s.submit();
    }
    s.take(2);
    s.shutdown();
    assert!(!s.open);
    assert_eq!(s.queue.len(), 0);
    assert!(s.running.iter().all(|r| r.is_none()));
    assert_eq!(s.done_jobs.len(), 7);
    let mut delivered: Vec<u64> = s.done_jobs.clone();
    delivered.sort();
    assert_eq!(delivered, vec![0, 1, 2, 3, 4, 5, 6]);
}

#[test]
fn closing_cancels_nothing() {
    let mut s = PoolState::new(1);
    s.submit();
    s.submit();
    s.close();
    assert_eq!(s.queue, vec![0, 1], "queued jobs survive the close");
    s.drain();
    assert_eq!(s.done_jobs.len(), 2);
}
