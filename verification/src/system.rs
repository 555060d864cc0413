//! The registry of managers and the facade over it: `send`, `stop`, `block`.

use vstd::prelude::*;
use dashmap::DashMap;
use std::task::Waker;
use crate::actor::Handle;
use crate::barrier::{BarrierPoll, ShutdownBarrier};
use crate::envelope::{Envelope, MailboxCommand};
use crate::manager::{
    applied_all, drained, enqueued, fresh_manager, lemma_drained_wf, manager_wf, ActorsManager,
    ManagerView,
};
use crate::registry::{registry_entries, registry_get, registry_insert, registry_new};

verus! {

/// The mathematical state of an address book.
pub struct BookView<A, M> {
    /// For each registered actor type, the slot of its manager.
    pub slots: Map<u64, usize>,
    /// The managers, in the order of their creation.
    pub managers: Seq<ManagerView<A, M>>,
    /// Whether a waiter is stored, to be woken when the last manager
    /// terminates.
    pub waiting: bool,
}

/// The number of managers in `managers` that are still running.
pub open spec fn live_count<A, M>(managers: Seq<ManagerView<A, M>>) -> nat
    decreases managers.len(),
{
    if managers.len() == 0 {
        0
    } else {
        live_count(managers.drop_last()) + if managers.last().running {
            1nat
        } else {
            0nat
        }
    }
}

/// Every registered type leads to its own manager, every manager is
/// registered under its type, the slots fit the machine's word, a manager
/// that has stopped holds no instance, and a resolved barrier holds no
/// waiter.
pub open spec fn book_wf<A, M>(v: BookView<A, M>) -> bool {
    &&& v.slots.dom().finite()
    &&& v.managers.len() <= usize::MAX
    &&& forall|kind: u64| #[trigger]
        v.slots.contains_key(kind) ==> v.slots[kind] < v.managers.len()
            && v.managers[v.slots[kind] as int].kind == kind
    &&& forall|i: int|
        0 <= i < v.managers.len() ==> v.slots.contains_key((#[trigger] v.managers[i]).kind)
            && v.slots[v.managers[i].kind] == i
    &&& forall|i: int| 0 <= i < v.managers.len() ==> manager_wf(#[trigger] v.managers[i])
    &&& live_count(v.managers) == 0 ==> !v.waiting
}

/// The book without any manager.
pub open spec fn empty_book<A, M>() -> BookView<A, M> {
    BookView { slots: Map::empty(), managers: Seq::empty(), waiting: false }
}

/// The book after `manager` is registered under its type, unless that type
/// already has a manager: then nothing changes.
pub open spec fn added<A, M>(v: BookView<A, M>, manager: ManagerView<A, M>) -> BookView<A, M> {
    if v.slots.contains_key(manager.kind) {
        v
    } else {
        BookView {
            slots: v.slots.insert(manager.kind, v.managers.len() as usize),
            managers: v.managers.push(manager),
            waiting: v.waiting,
        }
    }
}

/// The book after the manager of `kind` is looked up and, where it did not
/// exist, created.
pub open spec fn resolved<A, M>(v: BookView<A, M>, kind: u64) -> BookView<A, M> {
    added(v, fresh_manager(kind))
}

/// The book after `command` is appended to the mailbox in `slot`. A slot
/// that no manager has takes nothing.
pub open spec fn posted<A, M>(v: BookView<A, M>, slot: int, command: MailboxCommand<M>) -> BookView<
    A,
    M,
> {
    if 0 <= slot < v.managers.len() {
        BookView { managers: v.managers.update(slot, enqueued(v.managers[slot], command)), ..v }
    } else {
        v
    }
}

/// The book after `message` for the actor `actor_id` of type `kind` is sent.
pub open spec fn sent<A, M>(v: BookView<A, M>, kind: u64, actor_id: u64, message: M) -> BookView<
    A,
    M,
> {
    let r = resolved(v, kind);
    posted(
        r,
        r.slots[kind] as int,
        MailboxCommand::Dispatch(Envelope { destination: actor_id, payload: message }),
    )
}

/// The managers after `Shutdown` is appended to every mailbox.
pub open spec fn all_stopped<A, M>(managers: Seq<ManagerView<A, M>>) -> Seq<ManagerView<A, M>> {
    Seq::new(managers.len(), |i: int| enqueued(managers[i], MailboxCommand::Shutdown))
}

/// The managers after each has applied its whole mailbox.
pub open spec fn all_drained<A: Handle<M>, M>(managers: Seq<ManagerView<A, M>>) -> Seq<
    ManagerView<A, M>,
> {
    Seq::new(managers.len(), |i: int| drained(managers[i]))
}

/// The book after every manager has applied its whole mailbox: a waiter
/// stays only while some manager is still running.
pub open spec fn all_run<A: Handle<M>, M>(v: BookView<A, M>) -> BookView<A, M> {
    BookView {
        slots: v.slots,
        managers: all_drained(v.managers),
        waiting: live_count(all_drained(v.managers)) > 0 && v.waiting,
    }
}

/// Whether the waiter is woken when every manager applies its whole mailbox.
pub open spec fn woken_by_run<A: Handle<M>, M>(v: BookView<A, M>) -> bool {
    live_count(all_drained(v.managers)) == 0 && v.waiting
}

/// The book after a waiter asked whether every manager has terminated.
pub open spec fn polled<A, M>(v: BookView<A, M>) -> BookView<A, M> {
    if live_count(v.managers) > 0 {
        BookView { waiting: true, ..v }
    } else {
        v
    }
}

/// What a waiter is told in state `v`.
pub open spec fn poll_of<A, M>(v: BookView<A, M>) -> BarrierPoll {
    if live_count(v.managers) > 0 {
        BarrierPoll::Pending
    } else {
        BarrierPoll::Ready
    }
}

/// No more managers are running than there are.
pub proof fn lemma_live_count_bounded<A, M>(managers: Seq<ManagerView<A, M>>)
    ensures
        live_count(managers) <= managers.len(),
    decreases managers.len(),
{
    if managers.len() > 0 {
        lemma_live_count_bounded(managers.drop_last());
    }
}

/// Replacing one manager changes the count by that manager's share alone.
pub proof fn lemma_live_count_update<A, M>(
    managers: Seq<ManagerView<A, M>>,
    i: int,
    m: ManagerView<A, M>,
)
    requires
        0 <= i < managers.len(),
    ensures
        live_count(managers.update(i, m)) + (if managers[i].running {
            1nat
        } else {
            0nat
        }) == live_count(managers) + (if m.running {
            1nat
        } else {
            0nat
        }),
    decreases managers.len(),
{
    let after = managers.update(i, m);
    if i == managers.len() - 1 {
        assert(after.drop_last() =~= managers.drop_last());
    } else {
        lemma_live_count_update(managers.drop_last(), i, m);
        assert(after.drop_last() =~= managers.drop_last().update(i, m));
    }
}

/// The count is zero exactly when no manager is running.
pub proof fn lemma_live_count_zero<A, M>(managers: Seq<ManagerView<A, M>>)
    ensures
        live_count(managers) == 0 <==> forall|i: int|
            0 <= i < managers.len() ==> !(#[trigger] managers[i]).running,
    decreases managers.len(),
{
    if managers.len() > 0 {
        let front = managers.drop_last();
        lemma_live_count_zero(front);
        if live_count(managers) == 0 {
            assert forall|i: int| 0 <= i < managers.len() implies !(#[trigger] managers[i]).running
            by {
                if i < managers.len() - 1 {
                    assert(front[i] == managers[i]);
                }
            }
        } else if !managers.last().running {
            let k = choose|k: int| 0 <= k < front.len() && (#[trigger] front[k]).running;
            assert(managers[k] == front[k]);
        }
    }
}

/// The registry of managers, one for each actor type that was ever addressed.
pub struct AddressBook<A, M> {
    senders: DashMap<u64, usize>,
    managers: Vec<ActorsManager<A, M>>,
    barrier: ShutdownBarrier,
}

impl<A: Handle<M>, M> View for AddressBook<A, M> {
    type V = BookView<A, M>;

    closed spec fn view(&self) -> BookView<A, M> {
        BookView {
            slots: registry_entries(self.senders),
            managers: Seq::new(self.managers@.len(), |i: int| self.managers@[i]@),
            waiting: self.barrier.armed(),
        }
    }
}

impl<A: Handle<M>, M> AddressBook<A, M> {
    /// The book is consistent, and its barrier counts the running managers.
    pub closed spec fn wf(&self) -> bool {
        &&& book_wf(self@)
        &&& self.barrier.wf()
        &&& self.barrier.live() == live_count(self@.managers)
    }

    /// What `wf` says of the view.
    pub proof fn lemma_wf(&self)
        requires
            self.wf(),
        ensures
            book_wf(self@),
    {
    }

    /// A book without managers.
    pub fn new() -> (book: Self)
        ensures
            book.wf(),
            book@ == empty_book::<A, M>(),
    {
        let book = AddressBook {
            senders: registry_new(),
            managers: Vec::new(),
            barrier: ShutdownBarrier::new(),
        };
        assert(book@.managers =~= Seq::empty());
        assert(book@.slots =~= Map::empty());
        book
    }

    /// The number of managers that have not terminated.
    pub fn count_actor_managers(&self) -> (n: usize)
        requires
            self.wf(),
        ensures
            n == live_count(self@.managers),
    {
        self.barrier.count()
    }

    /// Registers `manager` under its actor type and returns `true`, unless
    /// that type already has a manager: then the book stays as it is, the
    /// given manager is dropped and `false` is returned.
    pub fn add(&mut self, manager: ActorsManager<A, M>) -> (registered: bool)
        requires
            old(self).wf(),
            manager.wf(),
        ensures
            final(self).wf(),
            final(self)@ == added(old(self)@, manager@),
            registered == !old(self)@.slots.contains_key(manager@.kind),
    {
        let kind: u64 = manager.kind();
        if registry_get(&self.senders, kind).is_some() {
            return false;
        }
        let ghost before = self@;
        let ghost entry = manager@;
        let slot: usize = self.managers.len();
        let running = manager.is_running();
        self.managers.push(manager);
        registry_insert(&mut self.senders, kind, slot);
        proof {
            assert(self@.managers =~= before.managers.push(entry));
            assert(self@.managers.drop_last() =~= before.managers);
            lemma_live_count_bounded(before.managers);
            assert(self.managers.len() == slot + 1);
            assert forall|i: int| 0 <= i < self@.managers.len() implies self@.slots.contains_key(
                (#[trigger] self@.managers[i]).kind,
            ) && self@.slots[self@.managers[i].kind] == i by {
                if i < before.managers.len() {
                    assert(before.managers[i] == self@.managers[i]);
                }
            }
        }
        if running {
            self.barrier.increment();
        }
        true
    }

    /// Makes sure that the actor type `kind` has a manager: a fresh one is
    /// registered where it had none.
    pub fn create(&mut self, kind: u64)
        requires
            old(self).wf(),
        ensures
            final(self).wf(),
            final(self)@ == resolved(old(self)@, kind),
    {
        let manager = ActorsManager::new(kind);
        self.add(manager);
    }

    /// The handle of the manager of `kind`: the slot of its mailbox. The
    /// manager is created on the first call for `kind`; every later call
    /// returns the same handle and changes nothing.
    pub fn get(&mut self, kind: u64) -> (handle: Option<usize>)
        requires
            old(self).wf(),
        ensures
            final(self).wf(),
            final(self)@ == resolved(old(self)@, kind),
            final(self)@.slots.contains_key(kind),
            handle == Some(final(self)@.slots[kind]),
    {
        match registry_get(&self.senders, kind) {
            Some(slot) => Some(slot),
            None => {
                self.create(kind);
                registry_get(&self.senders, kind)
            },
        }
    }

    /// Appends `command` to the mailbox of the manager in `slot` and returns
    /// `true`. Where no manager has that slot, the command is dropped and
    /// `false` is returned.
    pub fn post(&mut self, slot: usize, command: MailboxCommand<M>) -> (taken: bool)
        requires
            old(self).wf(),
        ensures
            final(self).wf(),
            final(self)@ == posted(old(self)@, slot as int, command),
            taken == (slot < old(self)@.managers.len()),
    {
        if slot >= self.managers.len() {
            return false;
        }
        let ghost before = self@;
        let mut manager = self.managers.remove(slot);
        assert(manager@ == before.managers[slot as int]);
        manager.enqueue(command);
        let ghost entry = manager@;
        self.managers.insert(slot, manager);
        proof {
            assert(self@.managers =~= before.managers.update(slot as int, entry));
            lemma_live_count_update(before.managers, slot as int, entry);
            assert forall|i: int| 0 <= i < self@.managers.len() implies self@.slots.contains_key(
                (#[trigger] self@.managers[i]).kind,
            ) && self@.slots[self@.managers[i].kind] == i by {
                assert(before.managers[i].kind == self@.managers[i].kind);
            }
        }
        true
    }

    /// The manager of the actor type `kind`, if the type has one.
    pub fn manager(&self, kind: u64) -> (found: Option<&ActorsManager<A, M>>)
        requires
            self.wf(),
        ensures
            found is Some == self@.slots.contains_key(kind),
            found matches Some(manager) ==> manager@ == self@.managers[self@.slots[kind] as int],
    {
        match registry_get(&self.senders, kind) {
            Some(slot) => Some(&self.managers[slot]),
            None => None,
        }
    }

    /// Appends `Shutdown` to the mailbox of every manager. Nothing is applied
    /// yet, and no manager is waited for.
    pub fn stop_all(&mut self)
        requires
            old(self).wf(),
        ensures
            final(self).wf(),
            final(self)@ == (BookView { managers: all_stopped(old(self)@.managers), ..old(self)@ }),
    {
        let ghost before = self@;
        let n: usize = self.managers.len();
        let mut slot: usize = 0;
        while slot < n
            invariant
                self.wf(),
                slot <= n,
                n == before.managers.len(),
                self@.managers.len() == n,
                self@.slots == before.slots,
                self@.waiting == before.waiting,
                forall|i: int|
                    0 <= i < slot ==> #[trigger] self@.managers[i] == enqueued(
                        before.managers[i],
                        MailboxCommand::Shutdown,
                    ),
                forall|i: int| slot <= i < n ==> #[trigger] self@.managers[i] == before.managers[i],
            decreases n - slot,
        {
            self.post(slot, MailboxCommand::Shutdown);
            slot = slot + 1;
        }
        assert(self@.managers =~= all_stopped(before.managers));
    }

    /// Lets every manager apply its whole mailbox, in arrival order. Each
    /// manager that a `Shutdown` stops is counted off the barrier, and the
    /// stored waiter is woken when the last one terminates. Returns whether a
    /// waiter was woken.
    pub fn run_all(&mut self) -> (woken: bool)
        requires
            old(self).wf(),
        ensures
            final(self).wf(),
            final(self)@ == all_run(old(self)@),
            woken == woken_by_run(old(self)@),
    {
        let ghost before = self@;
        let n: usize = self.managers.len();
        let mut slot: usize = 0;
        let mut woken = false;
        proof {
            lemma_live_count_zero(self@.managers);
        }
        while slot < n
            invariant
                self.wf(),
                before.managers.len() == n,
                book_wf(before),
                slot <= n,
                self@.managers.len() == n,
                self@.slots == before.slots,
                forall|i: int|
                    0 <= i < slot ==> #[trigger] self@.managers[i] == drained(before.managers[i]),
                forall|i: int| slot <= i < n ==> #[trigger] self@.managers[i] == before.managers[i],
                live_count(self@.managers) > 0 ==> !woken && self@.waiting == before.waiting,
                live_count(self@.managers) == 0 ==> woken == before.waiting,
            decreases n - slot,
        {
            let ghost middle = self@;
            let mut manager = self.managers.remove(slot);
            assert(manager@ == middle.managers[slot as int]);
            let terminated = manager.run();
            let ghost entry = manager@;
            self.managers.insert(slot, manager);
            proof {
                lemma_kept_by_run(middle.managers[slot as int]);
                lemma_drained_wf(middle.managers[slot as int]);
                assert(self@.managers =~= middle.managers.update(slot as int, entry));
                lemma_live_count_update(middle.managers, slot as int, entry);
                assert forall|i: int| 0 <= i < self@.managers.len() implies self@.slots.contains_key(
                    (#[trigger] self@.managers[i]).kind,
                ) && self@.slots[self@.managers[i].kind] == i by {
                    assert(middle.managers[i].kind == self@.managers[i].kind);
                }
            }
            if terminated {
                if self.barrier.decrement() {
                    woken = true;
                }
            }
            slot = slot + 1;
        }
        assert(self@.managers =~= all_drained(before.managers));
        woken
    }

    /// Answers a waiter: `Pending`, with the waiter stored in place of any
    /// earlier one, while a manager is still running; `Ready` once none is.
    pub fn poll_stopped(&mut self, waiter: &Waker) -> (poll: BarrierPoll)
        requires
            old(self).wf(),
        ensures
            final(self).wf(),
            final(self)@ == polled(old(self)@),
            poll == poll_of(old(self)@),
    {
        self.barrier.register(waiter)
    }
}

/// Applying a mailbox keeps the manager's type, and never restarts a stopped
/// manager.
pub proof fn lemma_kept_by_run<A: Handle<M>, M>(s: ManagerView<A, M>)
    ensures
        drained(s).kind == s.kind,
        !s.running ==> !drained(s).running,
{
    lemma_kept_by_commands(ManagerView { mailbox: Seq::empty(), ..s }, s.mailbox);
}

/// Applying commands keeps the manager's type and mailbox, and never
/// restarts a stopped manager.
pub proof fn lemma_kept_by_commands<A: Handle<M>, M>(
    s: ManagerView<A, M>,
    commands: Seq<MailboxCommand<M>>,
)
    ensures
        applied_all(s, commands).kind == s.kind,
        applied_all(s, commands).mailbox == s.mailbox,
        !s.running ==> applied_all(s, commands) == s,
    decreases commands.len(),
{
    if commands.len() > 0 {
        lemma_kept_by_commands(crate::manager::applied(s, commands[0]), commands.drop_first());
    }
}

/// The system: the registry of managers behind `send`, `stop` and `block`.
pub struct System<A, M> {
    address_book: AddressBook<A, M>,
}

impl<A: Handle<M>, M> View for System<A, M> {
    type V = BookView<A, M>;

    closed spec fn view(&self) -> BookView<A, M> {
        self.address_book@
    }
}

impl<A: Handle<M>, M> Default for System<A, M> {
    fn default() -> (system: Self)
        ensures
            system.wf(),
            system@ == empty_book::<A, M>(),
    {
        System::new()
    }
}

impl<A: Handle<M>, M> System<A, M> {
    /// The registry is consistent.
    pub closed spec fn wf(&self) -> bool {
        self.address_book.wf()
    }

    /// What `wf` says of the view.
    pub proof fn lemma_wf(&self)
        requires
            self.wf(),
        ensures
            book_wf(self@),
    {
    }

    /// A system without managers.
    pub fn new() -> (system: System<A, M>)
        ensures
            system.wf(),
            system@ == empty_book::<A, M>(),
    {
        System { address_book: AddressBook::new() }
    }

    /// Enqueues `message` for the actor `actor_id` of type `kind`. The
    /// manager of `kind` is created if this is the first message to that
    /// type. Nothing is handled yet, nothing is reported back, and a manager
    /// that has stopped will drop the message.
    pub fn send(&mut self, kind: u64, actor_id: u64, message: M)
        requires
            old(self).wf(),
        ensures
            final(self).wf(),
            final(self)@ == sent(old(self)@, kind, actor_id, message),
    {
        match self.address_book.get(kind) {
            Some(slot) => {
                proof {
                    self.address_book.lemma_wf();
                }
                self.address_book.post(
                    slot,
                    MailboxCommand::Dispatch(Envelope::new(actor_id, message)),
                );
            },
            None => {},
        }
    }

    /// Enqueues `Shutdown` for every manager that exists now. Does not wait.
    pub fn stop(&mut self)
        requires
            old(self).wf(),
        ensures
            final(self).wf(),
            final(self)@ == (BookView { managers: all_stopped(old(self)@.managers), ..old(self)@ }),
    {
        self.address_book.stop_all();
    }

    /// Asks the barrier for the caller: `Ready` if no manager is running;
    /// `Pending`, with `waiter` stored for a wake-up, while one is. No
    /// manager is created or run, and no command is enqueued: apart from the
    /// stored waiter the system stays as it is.
    pub fn block(&mut self, waiter: &Waker) -> (poll: BarrierPoll)
        requires
            old(self).wf(),
        ensures
            final(self).wf(),
            final(self)@ == polled(old(self)@),
            poll == poll_of(old(self)@),
    {
        self.address_book.poll_stopped(waiter)
    }

    /// Lets every manager apply what is in its mailbox. Returns whether a
    /// stored waiter was woken because the last manager terminated.
    pub fn run_pending(&mut self) -> (woken: bool)
        requires
            old(self).wf(),
        ensures
            final(self).wf(),
            final(self)@ == all_run(old(self)@),
            woken == woken_by_run(old(self)@),
    {
        self.address_book.run_all()
    }

    /// The number of managers that have not terminated.
    pub fn count_actor_managers(&self) -> (n: usize)
        requires
            self.wf(),
        ensures
            n == live_count(self@.managers),
    {
        self.address_book.count_actor_managers()
    }

    /// The manager of the actor type `kind`, if the type has one.
    pub fn manager(&self, kind: u64) -> (found: Option<&ActorsManager<A, M>>)
        requires
            self.wf(),
        ensures
            found is Some == self@.slots.contains_key(kind),
            found matches Some(manager) ==> manager@ == self@.managers[self@.slots[kind] as int],
    {
        self.address_book.manager(kind)
    }
}

} // verus!
