use acteur::actor::{Actor, Handle};
use acteur::barrier::{BarrierPoll, ShutdownBarrier};
use acteur::envelope::{Envelope, MailboxCommand};
use acteur::manager::ActorsManager;
use acteur::system::{AddressBook, System};
use futures::task::{noop_waker, waker, ArcWake};
use std::cell::Cell;
use std::rc::Rc;
use std::sync::atomic::{AtomicUsize, Ordering};
use std::sync::Arc;

struct Counter {
    total: u64,
}

struct Increment {
    amount: u64,
    seen: Rc<Cell<u64>>,
}

impl Actor for Counter {
    fn activated(_kind: u64, _id: u64) -> Self {
        Counter { total: 0 }
    }

    fn activate(kind: u64, id: u64) -> Self {
        Self::activated(kind, id)
    }
}

impl Handle<Increment> for Counter {
    fn handled(self, message: Increment) -> Self {
        Counter { total: self.total + message.amount }
    }

    fn handle(&mut self, message: Increment) {
        self.total += message.amount;
        message.seen.set(self.total);
    }
}

struct Wakes {
    count: AtomicUsize,
}

impl ArcWake for Wakes {
    fn wake_by_ref(arc_self: &Arc<Self>) {
        arc_self.count.fetch_add(1, Ordering::SeqCst);
    }
}

const COUNTER: u64 = 1;
const OTHER: u64 = 2;

fn increment(amount: u64, seen: &Rc<Cell<u64>>) -> Increment {
    Increment { amount, seen: seen.clone() }
}

#[test]
fn new_system_has_no_manager() {
    let system: System<Counter, Increment> = System::new();
    assert_eq!(system.count_actor_managers(), 0);
    assert!(system.manager(COUNTER).is_none());
    let by_default: System<Counter, Increment> = System::default();
    assert_eq!(by_default.count_actor_managers(), 0);
}

#[test]
fn two_increments_then_stop_and_block_total_eight() {
    let seen = Rc::new(Cell::new(0));
    let mut system: System<Counter, Increment> = System::new();
    system.send(COUNTER, 1, increment(5, &seen));
    system.send(COUNTER, 1, increment(3, &seen));
    system.stop();
    assert!(!system.run_pending());
    assert_eq!(system.block(&noop_waker()), BarrierPoll::Ready);
    assert_eq!(seen.get(), 8);
    assert_eq!(system.count_actor_managers(), 0);
}

#[test]
fn thousand_interleaved_increments_per_identity() {
    let first = Rc::new(Cell::new(0));
    let second = Rc::new(Cell::new(0));
    let mut system: System<Counter, Increment> = System::new();
    for round in 0..1000u64 {
        if (round / 3) % 2 == 0 {
            system.send(COUNTER, 1, increment(1, &first));
            system.send(COUNTER, 2, increment(1, &second));
        } else {
            system.send(COUNTER, 2, increment(1, &second));
            system.send(COUNTER, 1, increment(1, &first));
        }
    }
    system.run_pending();
    {
        let manager = system.manager(COUNTER).unwrap();
        assert_eq!(manager.instance(1).unwrap().total, 1000);
        assert_eq!(manager.instance(2).unwrap().total, 1000);
    }
    system.stop();
    system.run_pending();
    assert_eq!(system.block(&noop_waker()), BarrierPoll::Ready);
    assert_eq!(first.get(), 1000);
    assert_eq!(second.get(), 1000);
}

#[test]
fn send_to_unseen_type_creates_its_manager() {
    let seen = Rc::new(Cell::new(0));
    let mut system: System<Counter, Increment> = System::new();
    system.send(OTHER, 4, increment(1, &seen));
    assert_eq!(system.count_actor_managers(), 1);
    let manager = system.manager(OTHER).unwrap();
    assert_eq!(manager.kind(), OTHER);
    assert_eq!(manager.pending(), 1);
    assert!(manager.is_running());
    assert!(system.manager(COUNTER).is_none());
}

#[test]
fn send_does_not_handle_before_the_manager_runs() {
    let seen = Rc::new(Cell::new(0));
    let mut system: System<Counter, Increment> = System::new();
    system.send(COUNTER, 1, increment(5, &seen));
    assert_eq!(seen.get(), 0);
    assert!(!system.run_pending());
    assert_eq!(seen.get(), 5);
}

#[test]
fn repeated_access_gives_one_manager_and_one_handle() {
    let mut book: AddressBook<Counter, Increment> = AddressBook::new();
    let first = book.get(COUNTER);
    assert_eq!(first, Some(0));
    for _ in 0..20 {
        assert_eq!(book.get(COUNTER), first);
    }
    assert_eq!(book.count_actor_managers(), 1);
    assert_eq!(book.get(OTHER), Some(1));
    assert_eq!(book.get(COUNTER), Some(0));
    assert_eq!(book.count_actor_managers(), 2);
}

#[test]
fn create_is_idempotent() {
    let mut book: AddressBook<Counter, Increment> = AddressBook::new();
    book.create(COUNTER);
    book.create(COUNTER);
    assert_eq!(book.count_actor_managers(), 1);
    assert_eq!(book.get(COUNTER), Some(0));
}

#[test]
fn add_registers_only_the_first_manager_of_a_type() {
    let seen = Rc::new(Cell::new(0));
    let mut book: AddressBook<Counter, Increment> = AddressBook::new();
    let mut prepared: ActorsManager<Counter, Increment> = ActorsManager::new(OTHER);
    prepared.enqueue(MailboxCommand::Dispatch(Envelope::new(1, increment(2, &seen))));
    assert!(book.add(prepared));
    assert!(!book.add(ActorsManager::new(OTHER)));
    assert_eq!(book.count_actor_managers(), 1);
    assert_eq!(book.manager(OTHER).unwrap().pending(), 1);
}

#[test]
fn add_of_a_stopped_manager_counts_no_live_manager() {
    let mut book: AddressBook<Counter, Increment> = AddressBook::new();
    let mut stopped: ActorsManager<Counter, Increment> = ActorsManager::new(OTHER);
    stopped.deliver(MailboxCommand::Shutdown);
    assert!(book.add(stopped));
    assert_eq!(book.count_actor_managers(), 0);
    assert_eq!(book.poll_stopped(&noop_waker()), BarrierPoll::Ready);
}

#[test]
fn post_to_a_missing_slot_is_dropped() {
    let seen = Rc::new(Cell::new(0));
    let mut book: AddressBook<Counter, Increment> = AddressBook::new();
    assert!(!book.post(0, MailboxCommand::Dispatch(Envelope::new(1, increment(1, &seen)))));
    book.create(COUNTER);
    assert!(book.post(0, MailboxCommand::Dispatch(Envelope::new(1, increment(1, &seen)))));
    assert!(!book.post(1, MailboxCommand::Shutdown));
    assert_eq!(book.manager(COUNTER).unwrap().pending(), 1);
}

#[test]
fn block_before_stop_is_pending() {
    let seen = Rc::new(Cell::new(0));
    let mut system: System<Counter, Increment> = System::new();
    system.send(COUNTER, 1, increment(1, &seen));
    assert_eq!(system.block(&noop_waker()), BarrierPoll::Pending);
    assert!(!system.run_pending());
    assert_eq!(system.block(&noop_waker()), BarrierPoll::Pending);
    assert_eq!(seen.get(), 1);
    assert_eq!(system.count_actor_managers(), 1);
}

#[test]
fn block_runs_no_manager() {
    let seen = Rc::new(Cell::new(0));
    let mut system: System<Counter, Increment> = System::new();
    system.send(COUNTER, 1, increment(5, &seen));
    assert_eq!(system.block(&noop_waker()), BarrierPoll::Pending);
    assert_eq!(seen.get(), 0);
    assert_eq!(system.manager(COUNTER).unwrap().pending(), 1);
    assert!(system.manager(COUNTER).unwrap().instance(1).is_none());
    assert!(system.manager(OTHER).is_none());
    assert_eq!(system.count_actor_managers(), 1);
    system.stop();
    assert_eq!(system.block(&noop_waker()), BarrierPoll::Pending);
    assert_eq!(system.manager(COUNTER).unwrap().pending(), 2);
    assert!(system.manager(COUNTER).unwrap().is_running());
    assert_eq!(seen.get(), 0);
}

#[test]
fn block_without_managers_is_ready() {
    let mut system: System<Counter, Increment> = System::new();
    assert_eq!(system.block(&noop_waker()), BarrierPoll::Ready);
}

#[test]
fn block_after_stop_is_ready_for_every_manager() {
    let seen = Rc::new(Cell::new(0));
    let mut system: System<Counter, Increment> = System::new();
    system.send(COUNTER, 1, increment(1, &seen));
    system.send(OTHER, 1, increment(1, &seen));
    assert_eq!(system.count_actor_managers(), 2);
    system.stop();
    assert_eq!(system.count_actor_managers(), 2);
    assert_eq!(system.block(&noop_waker()), BarrierPoll::Pending);
    assert!(system.run_pending());
    assert_eq!(system.block(&noop_waker()), BarrierPoll::Ready);
    assert_eq!(system.count_actor_managers(), 0);
    assert!(!system.manager(COUNTER).unwrap().is_running());
    assert!(!system.manager(OTHER).unwrap().is_running());
}

#[test]
fn stop_twice_is_as_stop_once() {
    let seen = Rc::new(Cell::new(0));
    let mut system: System<Counter, Increment> = System::new();
    system.send(COUNTER, 1, increment(4, &seen));
    system.stop();
    system.stop();
    system.run_pending();
    assert_eq!(system.block(&noop_waker()), BarrierPoll::Ready);
    assert_eq!(seen.get(), 4);
    assert_eq!(system.count_actor_managers(), 0);
    assert_eq!(system.manager(COUNTER).unwrap().pending(), 0);
}

#[test]
fn send_after_shutdown_is_discarded() {
    let seen = Rc::new(Cell::new(0));
    let mut system: System<Counter, Increment> = System::new();
    system.send(COUNTER, 1, increment(4, &seen));
    system.stop();
    system.run_pending();
    assert_eq!(system.block(&noop_waker()), BarrierPoll::Ready);
    system.send(COUNTER, 1, increment(10, &seen));
    assert!(!system.run_pending());
    assert_eq!(seen.get(), 4);
    assert_eq!(system.count_actor_managers(), 0);
    assert!(system.manager(COUNTER).unwrap().instance(1).is_none());
}

#[test]
fn last_termination_wakes_the_waiter_once() {
    let seen = Rc::new(Cell::new(0));
    let wakes = Arc::new(Wakes { count: AtomicUsize::new(0) });
    let mut system: System<Counter, Increment> = System::new();
    system.send(COUNTER, 1, increment(1, &seen));
    system.send(OTHER, 1, increment(1, &seen));
    assert_eq!(system.block(&waker(wakes.clone())), BarrierPoll::Pending);
    assert_eq!(wakes.count.load(Ordering::SeqCst), 0);
    system.stop();
    assert!(system.run_pending());
    assert_eq!(wakes.count.load(Ordering::SeqCst), 1);
    assert!(!system.run_pending());
    assert_eq!(wakes.count.load(Ordering::SeqCst), 1);
    assert_eq!(system.block(&noop_waker()), BarrierPoll::Ready);
}

#[test]
fn barrier_register_on_zero_is_ready() {
    let mut barrier = ShutdownBarrier::new();
    assert_eq!(barrier.count(), 0);
    assert_eq!(barrier.register(&noop_waker()), BarrierPoll::Ready);
    assert!(!barrier.is_armed());
    assert!(!barrier.decrement());
    assert_eq!(barrier.count(), 0);
}

#[test]
fn barrier_wakes_only_at_zero() {
    let wakes = Arc::new(Wakes { count: AtomicUsize::new(0) });
    let mut barrier = ShutdownBarrier::new();
    barrier.increment();
    barrier.increment();
    assert_eq!(barrier.count(), 2);
    assert_eq!(barrier.register(&waker(wakes.clone())), BarrierPoll::Pending);
    assert!(barrier.is_armed());
    assert!(!barrier.decrement());
    assert_eq!(barrier.count(), 1);
    assert_eq!(wakes.count.load(Ordering::SeqCst), 0);
    assert!(barrier.decrement());
    assert_eq!(barrier.count(), 0);
    assert!(!barrier.is_armed());
    assert_eq!(wakes.count.load(Ordering::SeqCst), 1);
}

#[test]
fn barrier_without_waiter_wakes_nobody() {
    let mut barrier = ShutdownBarrier::new();
    barrier.increment();
    assert!(!barrier.decrement());
    assert_eq!(barrier.count(), 0);
}
