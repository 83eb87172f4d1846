use asynchronix::executor::active_tasks::{ActiveTasks, CancellableFuture};
use asynchronix::executor::injector::{Bucket, Injector};
use asynchronix::executor::pool::{PoolManager, PoolRegistry, PoolState, Record, ShuffledStealers};
use asynchronix::executor::rng::Rng;
use asynchronix::executor::worker::{schedule_task, ExecutorContext, Worker};
use asynchronix::simulation::model_id::ModelId;

#[test]
fn registry_activates_the_lowest_idle_worker() {
    let mut registry = PoolRegistry::new(3);
    assert_eq!(registry.pool_size(), 3);
    assert_eq!(registry.pool_state(), PoolState::Idle);
    assert_eq!(registry.set_one_active(), Some(0));
    assert_eq!(registry.set_one_active_relaxed(), Some(1));
    assert_eq!(registry.get_active(), 0b011);
    assert_eq!(registry.pool_state(), PoolState::Busy);
    assert_eq!(registry.set_one_active(), Some(2));
    assert_eq!(registry.set_one_active(), None);
    assert_eq!(registry.set_one_active_relaxed(), None);
    assert_eq!(registry.set_inactive(1), PoolState::Busy);
    assert_eq!(registry.get_active(), 0b101);
    assert_eq!(registry.set_one_active(), Some(1));
    registry.set_all_inactive();
    assert_eq!(registry.pool_state(), PoolState::Idle);
    registry.set_all_active();
    assert_eq!(registry.get_active(), 0b111);
    // The last active worker cannot be deactivated this way.
    assert!(registry.try_set_inactive(0));
    assert!(registry.try_set_inactive(2));
    assert!(!registry.try_set_inactive(1));
    assert_eq!(registry.get_active(), 0b010);
    assert_eq!(registry.set_inactive(1), PoolState::Idle);
    registry.set_active(2);
    assert_eq!(registry.get_active(), 0b100);
}

#[test]
fn registry_of_the_largest_pool() {
    let mut registry = PoolRegistry::new(usize::BITS as usize);
    registry.set_all_active();
    assert_eq!(registry.get_active(), usize::MAX);
    assert_eq!(registry.set_one_active(), None);
    registry.set_inactive(usize::BITS as usize - 1);
    assert_eq!(registry.set_one_active(), Some(usize::BITS as usize - 1));
}

#[test]
fn record_counts_activations() {
    let mut record = Record::new(3);
    record.increment(1);
    record.increment(1);
    record.increment(2);
    assert_eq!(record.get(), vec![0, 2, 1]);
}

#[test]
fn stealers_are_visited_once() {
    let mut rng = Rng::new(1234);
    for _ in 0..50 {
        let mut stealers = ShuffledStealers::new(0b1011_0010, 8, &mut rng);
        let mut visited = Vec::new();
        while let Some(worker) = stealers.next() {
            visited.push(worker);
        }
        visited.sort();
        assert_eq!(visited, vec![1, 4, 5, 7]);
    }
    let mut stealers = ShuffledStealers::new(0, 8, &mut rng);
    assert_eq!(stealers.next(), None);
}

#[test]
fn manager_excludes_the_requesting_worker() {
    let mut rng = Rng::new(1);
    let mut manager = PoolManager::new(4);
    manager.set_all_workers_active();
    assert!(manager.try_set_worker_inactive(2));
    let mut stealers = manager.shuffled_stealers(Some(0), &mut rng);
    let mut visited = Vec::new();
    while let Some(worker) = stealers.next() {
        visited.push(worker);
    }
    visited.sort();
    assert_eq!(visited, vec![1, 3]);
}

#[test]
fn manager_counts_searching_workers() {
    let mut manager = PoolManager::new(2);
    assert!(manager.pool_is_idle());
    assert_eq!(manager.activate_worker(), Some(0));
    assert!(!manager.pool_is_idle());
    assert!(manager.is_worker_active(0));
    assert!(!manager.is_worker_active(1));
    // A worker that was activated searches for tasks.
    assert_eq!(manager.searching_worker_count(), 1);
    manager.begin_worker_search();
    assert_eq!(manager.searching_worker_count(), 2);
    manager.end_worker_search();
    manager.end_worker_search();
    assert_eq!(manager.searching_worker_count(), 0);
    assert_eq!(manager.activate_worker_relaxed(), Some(1));
    assert_eq!(manager.searching_worker_count(), 1);
    assert_eq!(manager.activate_worker(), None);
    assert_eq!(manager.activate_worker_relaxed(), None);
    assert_eq!(manager.searching_worker_count(), 1);
    manager.set_all_workers_inactive();
    assert!(manager.pool_is_idle());
}

#[test]
fn manager_termination_and_panic() {
    let mut manager = PoolManager::new(2);
    assert!(!manager.termination_is_triggered());
    manager.trigger_termination();
    assert!(manager.termination_is_triggered());

    assert_eq!(manager.take_panic(), None);
    manager.register_panic(ModelId::new(4), 10);
    // The first panic is kept.
    manager.register_panic(ModelId::new(5), 11);
    assert_eq!(manager.take_panic(), Some((ModelId::new(4), 10)));
    assert_eq!(manager.take_panic(), None);
}

#[test]
fn injector_fills_buckets() {
    let mut injector: Injector<u32, 3> = Injector::new();
    assert!(injector.is_empty());
    assert!(injector.pop_bucket().is_none());
    for i in 0..4 {
        injector.insert_task(i);
    }
    assert!(!injector.is_empty());
    // The bucket at the front was full and was moved to the back.
    assert_eq!(injector.pop_bucket().unwrap().into_tasks(), vec![0, 1, 2]);
    assert_eq!(injector.pop_bucket().unwrap().into_tasks(), vec![3]);
    assert!(injector.is_empty());

    injector.push_bucket(Bucket::from_tasks(vec![7, 8]));
    injector.push_bucket(Bucket::from_tasks(vec![20]));
    // Tasks are added to the bucket at the front if it has room.
    injector.insert_task(9);
    injector.insert_task(10);
    assert_eq!(injector.pop_bucket().unwrap().into_tasks(), vec![7, 8, 9]);
    assert_eq!(injector.pop_bucket().unwrap().into_tasks(), vec![20]);
    assert_eq!(injector.pop_bucket().unwrap().into_tasks(), vec![10]);
    assert!(injector.pop_bucket().is_none());
}

#[test]
fn bucket_capacity() {
    let mut bucket: Bucket<u32, 2> = Bucket::new();
    assert_eq!(Bucket::<u32, 2>::capacity(), 2);
    assert_eq!(bucket.push(1), Ok(()));
    assert_eq!(bucket.push(2), Ok(()));
    assert_eq!(bucket.push(3), Err(3));
    assert_eq!(bucket.into_tasks(), vec![1, 2]);
}

#[test]
fn active_tasks_keys() {
    let mut tasks = ActiveTasks::new();
    let key = tasks.vacant_key();
    assert_eq!(tasks.insert(100), key);
    let other = tasks.vacant_key();
    assert_ne!(other, key);
    assert_eq!(tasks.insert(200), other);
    assert_eq!(tasks.remove(key), Some(100));
    assert_eq!(tasks.remove(key), None);
    assert_eq!(tasks.remove(12345), None);
    let reused = tasks.vacant_key();
    assert_eq!(tasks.insert(300), reused);
    let mut left = tasks.drain();
    left.sort();
    assert_eq!(left, vec![200, 300]);
    assert_eq!(tasks.drain(), vec![]);
}

#[test]
fn cancellable_future_is_unregistered_when_dropped() {
    let mut tasks = ActiveTasks::new();
    let key = tasks.vacant_key();
    let future = CancellableFuture::new("future", key);
    tasks.insert(5);
    assert_eq!(future.discard(&mut tasks), "future");
    assert_eq!(tasks.remove(key), None);
}

fn context() -> ExecutorContext<u32> {
    ExecutorContext {
        injector: Injector::new(),
        executor_id: 3,
        pool_manager: PoolManager::new(2),
    }
}

#[test]
fn scheduled_task_goes_to_the_fast_slot() {
    let mut context = context();
    let mut worker = Worker::new();
    // The first task needs no other worker.
    assert_eq!(schedule_task(1, 3, &mut worker, &mut context), None);
    // The previous task is moved to the queue, so another worker is activated.
    assert_eq!(schedule_task(2, 3, &mut worker, &mut context), Some(0));
    assert_eq!(worker.fast_slot, Some(2));
    assert_eq!(worker.next_task(), Some(2));
    assert_eq!(worker.next_task(), Some(1));
    assert_eq!(worker.next_task(), None);
}

#[test]
fn scheduled_tasks_overflow_to_the_injector() {
    let mut context = context();
    let mut worker = Worker::new();
    let count = 400;
    for i in 0..count {
        schedule_task(i, 3, &mut worker, &mut context);
    }
    assert!(!context.injector.is_empty());
    // No task is lost.
    let mut tasks = Vec::new();
    while let Some(task) = worker.next_task() {
        tasks.push(task);
    }
    while let Some(bucket) = context.injector.pop_bucket() {
        tasks.extend(bucket.into_tasks());
    }
    tasks.sort();
    assert_eq!(tasks, (0..count).collect::<Vec<_>>());
}

#[test]
fn injector_conserves_tasks() {
    let mut injector: Injector<u32, 3> = Injector::new();
    for task in 0..8 {
        injector.insert_task(task);
    }
    injector.push_bucket(Bucket::from_tasks(vec![8, 9]));
    let mut tasks = Vec::new();
    while let Some(bucket) = injector.pop_bucket() {
        tasks.extend(bucket.into_tasks());
        if tasks.len() == 2 {
            injector.insert_task(10);
        }
    }
    tasks.sort();
    assert_eq!(tasks, (0..11).collect::<Vec<u32>>());
}
