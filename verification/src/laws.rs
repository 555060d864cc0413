//! What holds of every run of a manager and of every book: order per
//! identity, independence of identities, single activation, one manager per
//! actor type, and when the shutdown barrier resolves.

use vstd::prelude::*;
use crate::actor::Handle;
use crate::barrier::BarrierPoll;
use crate::envelope::MailboxCommand;
use crate::manager::{
    applied, applied_all, delivery_of, drained, enqueued, lemma_drained_wf, located, Delivery,
    ManagerView,
};
use crate::envelope::Envelope;
use crate::system::{
    all_drained, all_run, all_stopped, book_wf, lemma_live_count_update, lemma_live_count_zero,
    live_count, poll_of, polled, resolved, sent, BookView,
};

verus! {

/// Whether no command in `commands` is a `Shutdown`.
pub open spec fn only_dispatches<M>(commands: Seq<MailboxCommand<M>>) -> bool {
    forall|i: int| 0 <= i < commands.len() ==> (#[trigger] commands[i]) is Dispatch
}

/// Whether `command` carries a message for `id`.
pub open spec fn addressed_to<M>(command: MailboxCommand<M>, id: u64) -> bool {
    match command {
        MailboxCommand::Dispatch(envelope) => envelope.destination == id,
        MailboxCommand::Shutdown => false,
    }
}

/// The messages in `commands` that are addressed to `id`, in their order.
pub open spec fn payloads_to<M>(commands: Seq<MailboxCommand<M>>, id: u64) -> Seq<M>
    decreases commands.len(),
{
    if commands.len() == 0 {
        Seq::empty()
    } else {
        let rest = payloads_to(commands.drop_first(), id);
        match commands[0] {
            MailboxCommand::Dispatch(envelope) => if envelope.destination == id {
                seq![envelope.payload] + rest
            } else {
                rest
            },
            MailboxCommand::Shutdown => rest,
        }
    }
}

/// The state of an actor after it handled `messages`, first to last.
pub open spec fn handled_all<A: Handle<M>, M>(actor: A, messages: Seq<M>) -> A
    decreases messages.len(),
{
    if messages.len() == 0 {
        actor
    } else {
        handled_all(actor.handled(messages[0]), messages.drop_first())
    }
}

/// How often the instance for `id` is activated while `commands` are applied
/// from state `s`.
pub open spec fn activations<A: Handle<M>, M>(
    s: ManagerView<A, M>,
    commands: Seq<MailboxCommand<M>>,
    id: u64,
) -> nat
    decreases commands.len(),
{
    if commands.len() == 0 {
        0
    } else {
        let here: nat = if addressed_to(commands[0], id) && delivery_of(s, commands[0])
            == Delivery::ActivatedAndHandled {
            1
        } else {
            0
        };
        here + activations(applied(s, commands[0]), commands.drop_first(), id)
    }
}

/// The book after the manager of `kind` was asked for `n` times in a row.
pub open spec fn resolved_times<A, M>(v: BookView<A, M>, kind: u64, n: nat) -> BookView<A, M>
    decreases n,
{
    if n == 0 {
        v
    } else {
        resolved(resolved_times(v, kind, (n - 1) as nat), kind)
    }
}

/// Applying one more command after `commands` is applying it to the state
/// that `commands` lead to.
pub proof fn lemma_applied_push<A: Handle<M>, M>(
    s: ManagerView<A, M>,
    commands: Seq<MailboxCommand<M>>,
    last: MailboxCommand<M>,
)
    ensures
        applied_all(s, commands.push(last)) == applied(applied_all(s, commands), last),
    decreases commands.len(),
{
    let all = commands.push(last);
    if commands.len() == 0 {
        assert(all.drop_first() =~= Seq::empty());
        assert(applied_all(applied(s, last), all.drop_first()) == applied(s, last));
    } else {
        assert(all.drop_first() =~= commands.drop_first().push(last));
        lemma_applied_push(applied(s, commands[0]), commands.drop_first(), last);
    }
}

/// Order per identity: while a manager runs, the instance of an identity is
/// the one that handled exactly the messages addressed to it, each once, in
/// the order in which they were enqueued, starting from the instance that was
/// live before or, where there was none, from the freshly activated one. An
/// identity that got no message is left as it was.
pub proof fn lemma_fifo_per_identity<A: Handle<M>, M>(
    s: ManagerView<A, M>,
    commands: Seq<MailboxCommand<M>>,
    id: u64,
)
    requires
        s.running,
        only_dispatches(commands),
    ensures
        applied_all(s, commands).running,
        payloads_to(commands, id).len() == 0 ==> applied_all(s, commands).instances.contains_key(
            id,
        ) == s.instances.contains_key(id),
        payloads_to(commands, id).len() == 0 && s.instances.contains_key(id) ==> applied_all(
            s,
            commands,
        ).instances[id] == s.instances[id],
        payloads_to(commands, id).len() > 0 ==> applied_all(s, commands).instances.contains_key(id),
        payloads_to(commands, id).len() > 0 ==> applied_all(s, commands).instances[id]
            == handled_all(located(s, id), payloads_to(commands, id)),
    decreases commands.len(),
{
    if commands.len() > 0 {
        let next = applied(s, commands[0]);
        let rest = commands.drop_first();
        assert(commands[0] is Dispatch);
        assert forall|i: int| 0 <= i < rest.len() implies (#[trigger] rest[i]) is Dispatch by {
            assert(rest[i] == commands[i + 1]);
        }
        lemma_fifo_per_identity(next, rest, id);
        match commands[0] {
            MailboxCommand::Dispatch(envelope) => {
                if envelope.destination == id {
                    let later = payloads_to(rest, id);
                    let all = seq![envelope.payload] + later;
                    assert(all[0] == envelope.payload);
                    assert(all.drop_first() =~= later);
                    assert(located(next, id) == located(s, id).handled(envelope.payload));
                    if later.len() == 0 {
                        assert(handled_all(located(next, id), later) == located(next, id));
                    }
                } else {
                    assert(located(next, id) == located(s, id));
                }
            },
            MailboxCommand::Shutdown => {},
        }
    }
}

/// Independence of identities: what an instance becomes depends only on the
/// messages addressed to its own identity and their order, whatever is
/// addressed to other identities and however the two are interleaved.
pub proof fn lemma_identities_independent<A: Handle<M>, M>(
    s: ManagerView<A, M>,
    first: Seq<MailboxCommand<M>>,
    second: Seq<MailboxCommand<M>>,
    id: u64,
)
    requires
        s.running,
        only_dispatches(first),
        only_dispatches(second),
        payloads_to(first, id) == payloads_to(second, id),
    ensures
        applied_all(s, first).instances.contains_key(id) == applied_all(
            s,
            second,
        ).instances.contains_key(id),
        applied_all(s, first).instances.contains_key(id) ==> applied_all(s, first).instances[id]
            == applied_all(s, second).instances[id],
{
    lemma_fifo_per_identity(s, first, id);
    lemma_fifo_per_identity(s, second, id);
}

/// Single activation: an identity without a live instance is activated
/// exactly once if a message is addressed to it, and never otherwise; its
/// instance is then the activated one after it handled those messages, so the
/// activation precedes the first handler call. A live instance is never
/// activated again.
pub proof fn lemma_activated_once<A: Handle<M>, M>(
    s: ManagerView<A, M>,
    commands: Seq<MailboxCommand<M>>,
    id: u64,
)
    requires
        s.running,
        only_dispatches(commands),
    ensures
        activations(s, commands, id) == (if !s.instances.contains_key(id) && payloads_to(
            commands,
            id,
        ).len() > 0 {
            1nat
        } else {
            0nat
        }),
        !s.instances.contains_key(id) && payloads_to(commands, id).len() > 0 ==> applied_all(
            s,
            commands,
        ).instances[id] == handled_all(A::activated(s.kind, id), payloads_to(commands, id)),
    decreases commands.len(),
{
    lemma_fifo_per_identity(s, commands, id);
    if commands.len() > 0 {
        let next = applied(s, commands[0]);
        let rest = commands.drop_first();
        assert(commands[0] is Dispatch);
        assert forall|i: int| 0 <= i < rest.len() implies (#[trigger] rest[i]) is Dispatch by {
            assert(rest[i] == commands[i + 1]);
        }
        lemma_activated_once(next, rest, id);
        match commands[0] {
            MailboxCommand::Dispatch(envelope) => {
                if envelope.destination == id {
                    let all = seq![envelope.payload] + payloads_to(rest, id);
                    assert(all.len() > 0);
                }
            },
            MailboxCommand::Shutdown => {},
        }
    }
}

/// One manager per actor type: the first access to a type creates its
/// manager, every later access finds that manager and changes nothing, so
/// any number of accesses leaves exactly one manager for the type, in one
/// slot.
pub proof fn lemma_one_manager_per_type<A, M>(v: BookView<A, M>, kind: u64, n: nat)
    requires
        n >= 1,
    ensures
        book_wf(v) && (v.slots.contains_key(kind) || v.managers.len() < usize::MAX) ==> book_wf(
            resolved(v, kind),
        ),
        resolved_times(v, kind, n) == resolved(v, kind),
        resolved(v, kind).slots.contains_key(kind),
        resolved(v, kind).managers.len() == v.managers.len() + (if v.slots.contains_key(kind) {
            0int
        } else {
            1int
        }),
        v.slots.contains_key(kind) ==> resolved(v, kind) == v,
    decreases n,
{
    let r = resolved(v, kind);
    if !v.slots.contains_key(kind) && book_wf(v) && v.managers.len() < usize::MAX {
        assert(r.managers.drop_last() =~= v.managers);
        assert forall|i: int| 0 <= i < r.managers.len() implies r.slots.contains_key(
            (#[trigger] r.managers[i]).kind,
        ) && r.slots[r.managers[i].kind] == i by {
            if i < v.managers.len() {
                assert(r.managers[i] == v.managers[i]);
            }
        }
        assert forall|k: u64| #[trigger] r.slots.contains_key(k) implies r.slots[k]
            < r.managers.len() && r.managers[r.slots[k] as int].kind == k by {
            if k != kind {
                assert(v.slots.contains_key(k));
            }
        }
    }
    if n > 1 {
        lemma_one_manager_per_type(v, kind, (n - 1) as nat);
    } else {
        assert(resolved_times(v, kind, 0) == v);
    }
}

/// Order of the mailbox: a command that is enqueued is applied after
/// everything that was enqueued before it.
pub proof fn lemma_drained_enqueued<A: Handle<M>, M>(
    s: ManagerView<A, M>,
    command: MailboxCommand<M>,
)
    ensures
        drained(enqueued(s, command)) == applied(drained(s), command),
{
    let start = ManagerView { mailbox: Seq::empty(), ..s };
    lemma_applied_push(start, s.mailbox, command);
}

/// A message that is enqueued last is the last of the messages to its
/// identity, and changes nothing of what is addressed to other identities.
pub proof fn lemma_payloads_push<M>(
    commands: Seq<MailboxCommand<M>>,
    last: MailboxCommand<M>,
    id: u64,
)
    ensures
        payloads_to(commands.push(last), id) == (match last {
            MailboxCommand::Dispatch(envelope) => if envelope.destination == id {
                payloads_to(commands, id).push(envelope.payload)
            } else {
                payloads_to(commands, id)
            },
            MailboxCommand::Shutdown => payloads_to(commands, id),
        }),
    decreases commands.len(),
{
    let all = commands.push(last);
    if commands.len() == 0 {
        assert(all.drop_first() =~= Seq::empty());
        assert(payloads_to(all.drop_first(), id) =~= Seq::empty());
        match last {
            MailboxCommand::Dispatch(envelope) => {
                assert(seq![envelope.payload] + Seq::<M>::empty() =~= Seq::<M>::empty().push(
                    envelope.payload,
                ));
            },
            MailboxCommand::Shutdown => {},
        }
    } else {
        assert(all.drop_first() =~= commands.drop_first().push(last));
        lemma_payloads_push(commands.drop_first(), last, id);
        let rest = payloads_to(commands.drop_first(), id);
        match (commands[0], last) {
            (MailboxCommand::Dispatch(head), MailboxCommand::Dispatch(envelope)) => {
                if head.destination == id && envelope.destination == id {
                    assert(seq![head.payload] + rest.push(envelope.payload) =~= (seq![
                        head.payload,
                    ] + rest).push(envelope.payload));
                }
            },
            _ => {},
        }
    }
}

/// What `send` changes: the message becomes the last command in the mailbox
/// of the manager of its actor type, which is created with an empty mailbox
/// if the type had none, and no other manager is touched.
pub proof fn lemma_sent_last_in_mailbox<A, M>(
    v: BookView<A, M>,
    kind: u64,
    actor_id: u64,
    message: M,
)
    requires
        book_wf(v),
        v.slots.contains_key(kind) || v.managers.len() < usize::MAX,
    ensures
        book_wf(sent(v, kind, actor_id, message)),
        sent(v, kind, actor_id, message).slots == resolved(v, kind).slots,
        sent(v, kind, actor_id, message).managers.len() == resolved(v, kind).managers.len(),
        forall|slot: int|
            0 <= slot < v.managers.len() && !(v.slots.contains_key(kind) && v.slots[kind] == slot)
                ==> (#[trigger] sent(v, kind, actor_id, message).managers[slot])
                == v.managers[slot],
        v.slots.contains_key(kind) ==> sent(v, kind, actor_id, message).managers[v.slots[kind]
            as int] == enqueued(
            v.managers[v.slots[kind] as int],
            MailboxCommand::Dispatch(Envelope { destination: actor_id, payload: message }),
        ),
        !v.slots.contains_key(kind) ==> sent(v, kind, actor_id, message).managers[v.managers.len()
            as int] == enqueued(
            crate::manager::fresh_manager::<A, M>(kind),
            MailboxCommand::Dispatch(Envelope { destination: actor_id, payload: message }),
        ),
{
    lemma_one_manager_per_type(v, kind, 1);
    let r = resolved(v, kind);
    let w = sent(v, kind, actor_id, message);
    let slot = r.slots[kind] as int;
    lemma_live_count_update(r.managers, slot, w.managers[slot]);
    assert forall|i: int| 0 <= i < w.managers.len() implies w.slots.contains_key(
        (#[trigger] w.managers[i]).kind,
    ) && w.slots[w.managers[i].kind] == i by {
        assert(r.managers[i].kind == w.managers[i].kind);
    }
}

/// A manager that finds a `Shutdown` in its mailbox has stopped once the
/// mailbox is applied, whatever else the mailbox holds.
pub proof fn lemma_stopped_after_shutdown<A: Handle<M>, M>(s: ManagerView<A, M>)
    ensures
        !drained(enqueued(s, MailboxCommand::Shutdown)).running,
{
    lemma_drained_enqueued(s, MailboxCommand::Shutdown);
}

/// After `stop`, `block` reports `Ready` once the managers have applied their
/// mailboxes: a mailbox that ends in `Shutdown` leaves no manager running,
/// and the stored waiter has been woken by then.
pub proof fn lemma_block_after_stop<A: Handle<M>, M>(v: BookView<A, M>)
    ensures
        poll_of(all_run(BookView { managers: all_stopped(v.managers), ..v })) == BarrierPoll::Ready,
        !all_run(BookView { managers: all_stopped(v.managers), ..v }).waiting,
        polled(all_run(BookView { managers: all_stopped(v.managers), ..v })) == all_run(
            BookView { managers: all_stopped(v.managers), ..v },
        ),
{
    let after = all_drained(all_stopped(v.managers));
    assert forall|i: int| 0 <= i < after.len() implies !(#[trigger] after[i]).running by {
        lemma_stopped_after_shutdown(v.managers[i]);
    }
    lemma_live_count_zero(after);
}

/// Before `stop`, `block` reports `Pending`, both before and after the
/// managers have applied their mailboxes: a running manager whose mailbox
/// holds no `Shutdown` is still running after it applied the mailbox.
pub proof fn lemma_block_before_stop<A: Handle<M>, M>(v: BookView<A, M>, slot: int)
    requires
        0 <= slot < v.managers.len(),
        v.managers[slot].running,
        only_dispatches(v.managers[slot].mailbox),
    ensures
        poll_of(v) == BarrierPoll::Pending,
        poll_of(all_run(v)) == BarrierPoll::Pending,
{
    lemma_live_count_zero(v.managers);
    let after = all_drained(v.managers);
    let start = ManagerView { mailbox: Seq::empty(), ..v.managers[slot] };
    lemma_fifo_per_identity(start, v.managers[slot].mailbox, 0);
    assert(after[slot].running);
    lemma_live_count_zero(after);
}

/// `block` leaves the managers alone: it creates none, runs none and
/// enqueues nothing, so the registry and the count of running managers stay
/// as they are.
pub proof fn lemma_block_changes_no_manager<A, M>(v: BookView<A, M>)
    ensures
        polled(v).slots == v.slots,
        polled(v).managers == v.managers,
        live_count(polled(v).managers) == live_count(v.managers),
        book_wf(v) ==> book_wf(polled(v)),
{
}

/// Every manager that has terminated has dropped its instances: in a valid
/// book a manager that is not running holds none, and that stays so after
/// the managers have applied their mailboxes.
pub proof fn lemma_terminated_holds_no_instance<A: Handle<M>, M>(v: BookView<A, M>, slot: int)
    requires
        book_wf(v),
        0 <= slot < v.managers.len(),
    ensures
        !v.managers[slot].running ==> v.managers[slot].instances == Map::<u64, A>::empty(),
        !all_run(v).managers[slot].running ==> all_run(v).managers[slot].instances == Map::<
            u64,
            A,
        >::empty(),
{
    lemma_drained_wf(v.managers[slot]);
}

/// `stop` is idempotent in its effect: a second `Shutdown` behind the first
/// changes nothing of what a manager becomes.
pub proof fn lemma_stop_idempotent<A: Handle<M>, M>(s: ManagerView<A, M>)
    ensures
        drained(enqueued(enqueued(s, MailboxCommand::Shutdown), MailboxCommand::Shutdown))
            == drained(enqueued(s, MailboxCommand::Shutdown)),
{
    lemma_drained_enqueued(s, MailboxCommand::Shutdown);
    lemma_drained_enqueued(enqueued(s, MailboxCommand::Shutdown), MailboxCommand::Shutdown);
}

/// A message to a manager that has stopped is dropped: it changes nothing of
/// what the manager becomes.
pub proof fn lemma_discarded_after_shutdown<A: Handle<M>, M>(
    s: ManagerView<A, M>,
    command: MailboxCommand<M>,
)
    requires
        !drained(s).running,
    ensures
        drained(enqueued(s, command)) == drained(s),
{
    lemma_drained_enqueued(s, command);
}

} // verus!
