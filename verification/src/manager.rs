//! The manager of one actor type: it owns every live instance of that type,
//! activates instances on first use, and applies commands in arrival order.

use vstd::prelude::*;
use std::collections::HashMap;
use std::collections::VecDeque;
use crate::actor::Handle;
use crate::envelope::MailboxCommand;

verus! {

/// The mathematical state of a manager.
pub struct ManagerView<A, M> {
    /// The actor type this manager serves.
    pub kind: u64,
    /// The live instances, by identity.
    pub instances: Map<u64, A>,
    /// The commands that were enqueued and not yet applied, oldest first.
    pub mailbox: Seq<MailboxCommand<M>>,
    /// Whether the manager still accepts commands.
    pub running: bool,
}

/// What applying one command did.
#[derive(Clone, Copy, Debug, PartialEq, Eq, Structural)]
pub enum Delivery {
    /// The addressed instance did not exist: it was activated, then the
    /// handler ran.
    ActivatedAndHandled,
    /// The handler ran against an instance that was already live.
    Handled,
    /// The manager dropped its instances and stopped.
    Terminated,
    /// The manager had stopped before: the command was dropped.
    Discarded,
}

/// A manager that has stopped holds no instance.
pub open spec fn manager_wf<A, M>(s: ManagerView<A, M>) -> bool {
    !s.running ==> s.instances == Map::<u64, A>::empty()
}

/// The state of a manager that was just created for `kind`.
pub open spec fn fresh_manager<A, M>(kind: u64) -> ManagerView<A, M> {
    ManagerView { kind, instances: Map::empty(), mailbox: Seq::empty(), running: true }
}

/// The state after `command` is appended to the mailbox.
pub open spec fn enqueued<A, M>(s: ManagerView<A, M>, command: MailboxCommand<M>) -> ManagerView<
    A,
    M,
> {
    ManagerView { mailbox: s.mailbox.push(command), ..s }
}

/// The instance a message to `id` is handled by: the live one, or a freshly
/// activated one.
pub open spec fn located<A: Handle<M>, M>(s: ManagerView<A, M>, id: u64) -> A {
    if s.instances.contains_key(id) {
        s.instances[id]
    } else {
        A::activated(s.kind, id)
    }
}

/// The state after one command is applied. The mailbox is left as it is.
pub open spec fn applied<A: Handle<M>, M>(
    s: ManagerView<A, M>,
    command: MailboxCommand<M>,
) -> ManagerView<A, M> {
    if !s.running {
        s
    } else {
        match command {
            MailboxCommand::Dispatch(envelope) => ManagerView {
                instances: s.instances.insert(
                    envelope.destination,
                    located(s, envelope.destination).handled(envelope.payload),
                ),
                ..s
            },
            MailboxCommand::Shutdown => ManagerView {
                instances: Map::empty(),
                running: false,
                ..s
            },
        }
    }
}

/// What applying `command` in state `s` reports.
pub open spec fn delivery_of<A, M>(s: ManagerView<A, M>, command: MailboxCommand<M>) -> Delivery {
    if !s.running {
        Delivery::Discarded
    } else {
        match command {
            MailboxCommand::Dispatch(envelope) => if s.instances.contains_key(
                envelope.destination,
            ) {
                Delivery::Handled
            } else {
                Delivery::ActivatedAndHandled
            },
            MailboxCommand::Shutdown => Delivery::Terminated,
        }
    }
}

/// The state after `commands` are applied one after the other, first to last.
pub open spec fn applied_all<A: Handle<M>, M>(
    s: ManagerView<A, M>,
    commands: Seq<MailboxCommand<M>>,
) -> ManagerView<A, M>
    decreases commands.len(),
{
    if commands.len() == 0 {
        s
    } else {
        applied_all(applied(s, commands[0]), commands.drop_first())
    }
}

/// The state after the oldest waiting command is taken from the mailbox and
/// applied. Without a waiting command nothing changes.
pub open spec fn stepped<A: Handle<M>, M>(s: ManagerView<A, M>) -> ManagerView<A, M> {
    if s.mailbox.len() == 0 {
        s
    } else {
        applied(ManagerView { mailbox: s.mailbox.drop_first(), ..s }, s.mailbox[0])
    }
}

/// The state after the whole mailbox is applied and thereby emptied.
pub open spec fn drained<A: Handle<M>, M>(s: ManagerView<A, M>) -> ManagerView<A, M> {
    applied_all(ManagerView { mailbox: Seq::empty(), ..s }, s.mailbox)
}

/// A step takes the mailbox no other way than applying all of it does.
pub proof fn lemma_step_towards_drained<A: Handle<M>, M>(s: ManagerView<A, M>)
    ensures
        drained(stepped(s)) == drained(s),
{
    if s.mailbox.len() > 0 {
        let emptied = ManagerView { mailbox: Seq::empty(), ..s };
        let rest = ManagerView { mailbox: s.mailbox.drop_first(), ..s };
        assert(ManagerView { mailbox: Seq::empty(), ..applied(rest, s.mailbox[0]) } == applied(
            emptied,
            s.mailbox[0],
        ));
    }
}

/// Applying commands keeps a manager valid: once it has stopped it holds no
/// instance, whatever it is given afterwards.
pub proof fn lemma_applied_all_wf<A: Handle<M>, M>(
    s: ManagerView<A, M>,
    commands: Seq<MailboxCommand<M>>,
)
    requires
        manager_wf(s),
    ensures
        manager_wf(applied_all(s, commands)),
    decreases commands.len(),
{
    if commands.len() > 0 {
        lemma_applied_all_wf(applied(s, commands[0]), commands.drop_first());
    }
}

/// A manager that was valid is valid after it applied its mailbox.
pub proof fn lemma_drained_wf<A: Handle<M>, M>(s: ManagerView<A, M>)
    requires
        manager_wf(s),
    ensures
        manager_wf(drained(s)),
{
    lemma_applied_all_wf(ManagerView { mailbox: Seq::empty(), ..s }, s.mailbox);
}

/// The manager of one actor type.
pub struct ActorsManager<A, M> {
    kind: u64,
    instances: HashMap<u64, A>,
    mailbox: VecDeque<MailboxCommand<M>>,
    running: bool,
}

impl<A: Handle<M>, M> View for ActorsManager<A, M> {
    type V = ManagerView<A, M>;

    closed spec fn view(&self) -> ManagerView<A, M> {
        ManagerView {
            kind: self.kind,
            instances: self.instances@,
            mailbox: self.mailbox@,
            running: self.running,
        }
    }
}

impl<A: Handle<M>, M> ActorsManager<A, M> {
    /// The manager is valid: if it has stopped, it holds no instance.
    pub open spec fn wf(&self) -> bool {
        manager_wf(self@)
    }

    /// A running manager for `kind` with no instance and an empty mailbox.
    pub fn new(kind: u64) -> (manager: Self)
        ensures
            manager.wf(),
            manager@ == fresh_manager::<A, M>(kind),
    {
        ActorsManager { kind, instances: HashMap::new(), mailbox: VecDeque::new(), running: true }
    }

    /// The actor type this manager serves.
    pub fn kind(&self) -> (kind: u64)
        ensures
            kind == self@.kind,
    {
        self.kind
    }

    /// Whether the manager has not yet applied a `Shutdown`.
    pub fn is_running(&self) -> (running: bool)
        ensures
            running == self@.running,
    {
        self.running
    }

    /// The number of commands waiting in the mailbox.
    pub fn pending(&self) -> (n: usize)
        ensures
            n == self@.mailbox.len(),
    {
        self.mailbox.len()
    }

    /// The live instance for `id`, if there is one.
    pub fn instance(&self, id: u64) -> (found: Option<&A>)
        ensures
            match found {
                Some(actor) => self@.instances.contains_key(id) && *actor == self@.instances[id],
                None => !self@.instances.contains_key(id),
            },
    {
        self.instances.get(&id)
    }

    /// Appends `command` to the mailbox. Nothing is applied yet.
    pub fn enqueue(&mut self, command: MailboxCommand<M>)
        requires
            old(self).wf(),
        ensures
            final(self).wf(),
            final(self)@ == enqueued(old(self)@, command),
    {
        self.mailbox.push_back(command);
    }

    /// Applies one command: a `Dispatch` locates or activates the addressed
    /// instance and runs the handler on it; a `Shutdown` drops every instance
    /// and stops the manager; a stopped manager drops whatever it is given.
    pub fn deliver(&mut self, command: MailboxCommand<M>) -> (delivery: Delivery)
        requires
            old(self).wf(),
        ensures
            final(self).wf(),
            final(self)@ == applied(old(self)@, command),
            delivery == delivery_of(old(self)@, command),
    {
        if !self.running {
            return Delivery::Discarded;
        }
        match command {
            MailboxCommand::Dispatch(envelope) => {
                let id: u64 = envelope.destination();
                let ghost before = self.instances@;
                let (mut actor, delivery) = match self.instances.remove(&id) {
                    Some(actor) => (actor, Delivery::Handled),
                    None => (A::activate(self.kind, id), Delivery::ActivatedAndHandled),
                };
                envelope.dispatch(&mut actor);
                self.instances.insert(id, actor);
                assert(self.instances@ =~= before.insert(id, actor));
                delivery
            },
            MailboxCommand::Shutdown => {
                self.instances.clear();
                self.running = false;
                Delivery::Terminated
            },
        }
    }

    /// Takes the oldest waiting command from the mailbox and applies it.
    /// Returns what that did, or `None` if no command was waiting.
    pub fn step(&mut self) -> (delivery: Option<Delivery>)
        requires
            old(self).wf(),
        ensures
            final(self).wf(),
            final(self)@ == stepped(old(self)@),
            delivery == (if old(self)@.mailbox.len() == 0 {
                None
            } else {
                Some(delivery_of(old(self)@, old(self)@.mailbox[0]))
            }),
    {
        let ghost before = self@;
        match self.mailbox.pop_front() {
            Some(command) => {
                assert(self.mailbox@ =~= before.mailbox.drop_first());
                Some(self.deliver(command))
            },
            None => None,
        }
    }

    /// Applies every waiting command in arrival order and leaves the mailbox
    /// empty. Returns whether a `Shutdown` stopped the manager during this
    /// call.
    pub fn run(&mut self) -> (terminated: bool)
        requires
            old(self).wf(),
        ensures
            final(self).wf(),
            final(self)@ == drained(old(self)@),
            terminated == (old(self)@.running && !final(self)@.running),
    {
        let ghost start = self@;
        let was_running = self.running;
        while self.mailbox.len() > 0
            invariant
                self.wf(),
                was_running == start.running,
                !was_running ==> !self@.running,
                drained(self@) == drained(start),
            decreases self@.mailbox.len(),
        {
            proof {
                lemma_step_towards_drained(self@);
            }
            self.step();
        }
        assert(self@.mailbox =~= Seq::empty());
        assert(ManagerView { mailbox: Seq::empty(), ..self@ } == self@);
        was_running && !self.running
    }
}

} // verus!
