use ecs_core::executor::gather_queue::{AtomicQueue, GatherQueue};
use ecs_core::executor::notify_mutex::NotifyMutex;

#[test]
fn drain_returns_items_from_same_thread() {
    let mut queue = GatherQueue::new(10);
    queue.push(1).unwrap();
    queue.push(2).unwrap();
    queue.push(3).unwrap();
    let result = queue.drain();
    assert_eq!(result, vec![1, 2, 3]);
}

#[test]
fn push_fails_on_full_queue() {
    let mut queue = GatherQueue::new(2);
    queue.push(1).unwrap();
    queue.push(2).unwrap();
    assert_eq!(3, queue.push(3).unwrap_err());
    assert_eq!(4, queue.push(4).unwrap_err());
}

#[test]
fn alternating_push_and_pop_wraps_indexes() {
    let mut queue = GatherQueue::new(1);
    for i in 0..100 {
        queue.push(i).unwrap();
        let result = queue.drain();
        assert_eq!(vec![i], result);
    }
}

#[test]
fn bounded_queue_is_first_in_first_out() {
    let mut queue = AtomicQueue::new(3);
    assert_eq!(queue.pop(), None);
    queue.push(1).unwrap();
    queue.push(2).unwrap();
    assert_eq!(queue.pop(), Some(1));
    queue.push(3).unwrap();
    queue.push(4).unwrap();
    assert_eq!(queue.push(5), Err(5));
    assert_eq!(queue.drain(), vec![2, 3, 4]);
    assert_eq!(queue.pop(), None);
}

#[test]
fn queue_without_capacity_takes_nothing() {
    let mut queue = GatherQueue::new(0);
    assert_eq!(queue.push(7), Err(7));
    let none: Vec<i32> = queue.drain();
    assert!(none.is_empty());
}

#[test]
fn fails_when_locked() {
    let mut mutex = NotifyMutex::new(());
    let guard = mutex.try_lock().unwrap();
    assert!(mutex.try_lock().is_none());
    assert!(guard.try_unlock(&mut mutex).is_ok());
}

#[test]
fn notify_takes_lock() {
    let mut mutex = NotifyMutex::new(());
    let guard = mutex.lock_or_notify().unwrap();
    assert!(guard.try_unlock(&mut mutex).is_ok());
}

#[test]
fn notify_makes_unlock_fail() {
    let mut mutex = NotifyMutex::new(());
    let guard = mutex.try_lock().unwrap();
    assert!(mutex.can_notify());
    assert!(mutex.lock_or_notify().is_none());
    assert!(mutex.lock_or_notify().is_none());
    let guard = guard.try_unlock(&mut mutex).err().unwrap();
    assert!(mutex.lock_or_notify().is_none());
    let guard = guard.try_unlock(&mut mutex).err().unwrap();
    assert!(guard.try_unlock(&mut mutex).is_ok());
}

#[test]
fn guard_gives_access_to_the_value() {
    let mut mutex = NotifyMutex::new(5);
    let mut guard = mutex.try_lock().unwrap();
    *guard.value_mut(&mut mutex) += 1;
    assert_eq!(*guard.value(&mutex), 6);
    assert!(guard.try_unlock(&mut mutex).is_ok());
    assert_eq!(*mutex.get_mut(), 6);
}
