use vstd::prelude::*;

verus! {

/// Where a client connection is in its life.
#[derive(PartialEq, Eq, Structural, Clone, Copy, Debug)]
pub enum ConnState {
    /// Accepted, not yet subscribed; no pump runs.
    Connecting,
    /// Subscribed, with its input and output pumps running.
    Active,
    /// Its socket has been shut down; some pump may still be running.
    Stopping,
    /// Both pumps have exited.
    Closed,
}

/// One of the two threads that serve a connection.
#[derive(PartialEq, Eq, Structural, Clone, Copy, Debug)]
pub enum Pump {
    /// Copies the client's bytes to the input queue.
    Input,
    /// Copies the broadcast output to the client.
    Output,
}

/// A connection's state as the contracts see it.
pub struct LifecycleView {
    pub state: ConnState,
    pub input_running: bool,
    pub output_running: bool,
}

pub open spec fn lifecycle_wf(l: LifecycleView) -> bool {
    &&& l.state == ConnState::Connecting ==> !l.input_running && !l.output_running
    &&& l.state == ConnState::Active ==> l.input_running && l.output_running
    &&& l.state == ConnState::Closed ==> !l.input_running && !l.output_running
}

/// Whether the connection's stop flag is up.
pub open spec fn is_stopped(l: LifecycleView) -> bool {
    l.state == ConnState::Stopping || l.state == ConnState::Closed
}

/// Subscribing and starting the pumps: a connecting connection becomes active.
pub open spec fn activated(l: LifecycleView) -> LifecycleView {
    if l.state == ConnState::Connecting {
        LifecycleView { state: ConnState::Active, input_running: true, output_running: true }
    } else {
        l
    }
}

/// A request to stop (server shutdown, shell exit): the socket is shut down
/// on the first request only. A connection with no pump running closes at
/// once.
pub open spec fn stop_requested(l: LifecycleView) -> LifecycleView {
    if is_stopped(l) {
        l
    } else if l.input_running || l.output_running {
        LifecycleView { state: ConnState::Stopping, ..l }
    } else {
        LifecycleView { state: ConnState::Closed, ..l }
    }
}

/// One pump has exited (end of stream or an error on its side).
pub open spec fn pump_exit(l: LifecycleView, p: Pump) -> LifecycleView {
    let input = if p == Pump::Input { false } else { l.input_running };
    let output = if p == Pump::Output { false } else { l.output_running };
    let state = if !input && !output && l.state != ConnState::Connecting {
        ConnState::Closed
    } else if l.state == ConnState::Active {
        ConnState::Stopping
    } else {
        l.state
    };
    LifecycleView { state, input_running: input, output_running: output }
}

/// The per-connection state machine: Connecting, Active, Stopping, Closed.
/// The stop flag goes up exactly once, whichever trigger comes first.
#[derive(Clone, Copy)]
pub struct Lifecycle {
    state: ConnState,
    input_running: bool,
    output_running: bool,
}

impl Lifecycle {
    pub closed spec fn view(&self) -> LifecycleView {
        LifecycleView {
            state: self.state,
            input_running: self.input_running,
            output_running: self.output_running,
        }
    }

    pub fn new() -> (r: Lifecycle)
        ensures
            r@ == connecting(),
    {
        Lifecycle { state: ConnState::Connecting, input_running: false, output_running: false }
    }

    pub fn state(&self) -> (r: ConnState)
        ensures
            r == self@.state,
    {
        self.state
    }

    /// Whether the stop flag is up.
    pub fn stopped(&self) -> (r: bool)
        ensures
            r == is_stopped(self@),
    {
        self.state == ConnState::Stopping || self.state == ConnState::Closed
    }

    /// Whether both pumps have exited after a stop.
    pub fn closed(&self) -> (r: bool)
        ensures
            r == (self@.state == ConnState::Closed),
    {
        self.state == ConnState::Closed
    }

    /// Records that the connection is subscribed and its pumps started.
    /// Returns whether it was connecting.
    pub fn activate(&mut self) -> (r: bool)
        requires
            lifecycle_wf(old(self)@),
        ensures
            lifecycle_wf(final(self)@),
            final(self)@ == activated(old(self)@),
            r == (old(self)@.state == ConnState::Connecting),
    {
        if self.state == ConnState::Connecting {
            self.state = ConnState::Active;
            self.input_running = true;
            self.output_running = true;
            true
        } else {
            false
        }
    }

    /// Asks the connection to stop. Returns true on the one call that raises
    /// the stop flag: that caller shuts the socket down in both directions.
    pub fn stop(&mut self) -> (r: bool)
        requires
            lifecycle_wf(old(self)@),
        ensures
            lifecycle_wf(final(self)@),
            final(self)@ == stop_requested(old(self)@),
            is_stopped(final(self)@),
            r == !is_stopped(old(self)@),
    {
        if self.state == ConnState::Stopping || self.state == ConnState::Closed {
            false
        } else {
            if self.input_running || self.output_running {
                self.state = ConnState::Stopping;
            } else {
                self.state = ConnState::Closed;
            }
            true
        }
    }

    /// Records that pump `p` has exited. An active connection starts to stop:
    /// the result is true on the one call that raised the stop flag, and
    /// that caller shuts the socket down, which unblocks the other pump.
    pub fn pump_exited(&mut self, p: Pump) -> (r: bool)
        requires
            lifecycle_wf(old(self)@),
        ensures
            lifecycle_wf(final(self)@),
            final(self)@ == pump_exit(old(self)@, p),
            r == (!is_stopped(old(self)@) && is_stopped(final(self)@)),
            is_stopped(old(self)@) ==> is_stopped(final(self)@),
    {
        let was_stopped = self.state == ConnState::Stopping || self.state == ConnState::Closed;
        match p {
            Pump::Input => {
                self.input_running = false;
            },
            Pump::Output => {
                self.output_running = false;
            },
        }
        if !self.input_running && !self.output_running && self.state != ConnState::Connecting {
            self.state = ConnState::Closed;
        } else if self.state == ConnState::Active {
            self.state = ConnState::Stopping;
        }
        let now_stopped = self.state == ConnState::Stopping || self.state == ConnState::Closed;
        !was_stopped && now_stopped
    }
}

/// A registered connection: its id, its state and what the server holds for
/// it (its socket).
pub struct Entry<T> {
    pub id: u64,
    pub life: Lifecycle,
    pub handle: T,
}

/// The entries that a sweep keeps: all but the closed ones, in order.
pub open spec fn open_entries<T>(es: Seq<Entry<T>>) -> Seq<Entry<T>>
    decreases es.len(),
{
    if es.len() == 0 {
        Seq::empty()
    } else {
        let rest = open_entries(es.drop_last());
        if es.last().life@.state == ConnState::Closed {
            rest
        } else {
            rest.push(es.last())
        }
    }
}

/// Ids, in order, of the entries whose stop flag goes up on a stop-all.
pub open spec fn newly_stopped<T>(es: Seq<Entry<T>>) -> Seq<u64>
    decreases es.len(),
{
    if es.len() == 0 {
        Seq::empty()
    } else {
        let rest = newly_stopped(es.drop_last());
        if is_stopped(es.last().life@) {
            rest
        } else {
            rest.push(es.last().id)
        }
    }
}

/// `after` is `before` with entry `i` moved to state `l`, all else kept.
pub open spec fn life_updated<T>(before: Seq<Entry<T>>, after: Seq<Entry<T>>, i: int, l: LifecycleView) -> bool {
    &&& after.len() == before.len()
    &&& forall|k: int| 0 <= k < before.len() && k != i ==> after[k] == before[k]
    &&& after[i].id == before[i].id
    &&& after[i].handle == before[i].handle
    &&& after[i].life@ == l
}

/// The state every connection has when it is registered.
pub open spec fn connecting() -> LifecycleView {
    LifecycleView { state: ConnState::Connecting, input_running: false, output_running: false }
}

/// Whether some entry has this id.
pub open spec fn has_id<T>(es: Seq<Entry<T>>, id: u64) -> bool {
    exists|i: int| 0 <= i < es.len() && es[i].id == id
}

/// The server's connections. Its lock is held only around these calls,
/// never across I/O.
pub struct Registry<T> {
    entries: Vec<Entry<T>>,
}

impl<T> Registry<T> {
    /// The registered connections, oldest first.
    pub closed spec fn entries(&self) -> Seq<Entry<T>> {
        self.entries@
    }

    pub open spec fn wf(&self) -> bool {
        &&& forall|i: int, j: int|
            0 <= i < j < self.entries().len() ==> self.entries()[i].id != self.entries()[j].id
        &&& forall|i: int|
            0 <= i < self.entries().len() ==> lifecycle_wf(#[trigger] self.entries()[i].life@)
    }

    pub open spec fn has(&self, id: u64) -> bool {
        has_id(self.entries(), id)
    }

    pub fn new() -> (r: Registry<T>)
        ensures
            r.wf(),
            r.entries().len() == 0,
    {
        Registry { entries: Vec::new() }
    }

    pub fn len(&self) -> (r: usize)
        ensures
            r == self.entries().len(),
    {
        self.entries.len()
    }

    fn find(&self, id: u64) -> (r: Option<usize>)
        ensures
            r.is_none() ==> !self.has(id),
            r.is_some() ==> r.unwrap() < self.entries().len() && self.entries()[r.unwrap() as int].id
                == id,
    {
        let mut i: usize = 0;
        while i < self.entries.len()
            invariant
                i <= self.entries@.len(),
                forall|k: int| 0 <= k < i ==> self.entries@[k].id != id,
            decreases self.entries@.len() - i,
        {
            if self.entries[i].id == id {
                return Some(i);
            }
            i = i + 1;
        }
        None
    }

    /// Whether a connection with this id is registered.
    pub fn contains(&self, id: u64) -> (r: bool)
        ensures
            r == self.has(id),
    {
        self.find(id).is_some()
    }

    /// Whether connection `id` is registered with its stop flag up.
    pub fn stopped(&self, id: u64) -> (r: bool)
        requires
            self.wf(),
        ensures
            !self.has(id) ==> !r,
            forall|i: int|
                0 <= i < self.entries().len() && #[trigger] self.entries()[i].id == id ==> r
                    == is_stopped(self.entries()[i].life@),
    {
        match self.find(id) {
            Some(i) => self.entries[i].life.stopped(),
            None => false,
        }
    }

    /// The handle of connection `id`.
    pub fn handle(&self, id: u64) -> (r: Option<&T>)
        requires
            self.wf(),
        ensures
            !self.has(id) ==> r.is_none(),
            forall|i: int|
                0 <= i < self.entries().len() && #[trigger] self.entries()[i].id == id ==> r
                    == Some(&self.entries()[i].handle),
    {
        match self.find(id) {
            Some(i) => Some(&self.entries[i].handle),
            None => None,
        }
    }

    /// Drops the entries of closed connections, keeping the others in order.
    pub fn evict_closed(&mut self)
        requires
            old(self).wf(),
        ensures
            final(self).wf(),
            final(self).entries() == open_entries(old(self).entries()),
    {
        let ghost es = self.entries@;
        let mut i: usize = 0;
        let ghost mut j: int = 0;
        while i < self.entries.len()
            invariant
                self.wf(),
                0 <= j <= es.len(),
                self.entries@ == open_entries(es.take(j)) + es.skip(j),
                i == open_entries(es.take(j)).len(),
            decreases es.len() - j,
        {
            proof {
                assert(self.entries@[i as int] == es[j]);
                assert(es.take(j + 1).drop_last() =~= es.take(j));
                assert(es.skip(j) =~= seq![es[j]] + es.skip(j + 1));
            }
            if self.entries[i].life.closed() {
                let ghost before = self.entries@;
                let _gone = self.entries.remove(i);
                proof {
                    assert(self.entries@ =~= open_entries(es.take(j + 1)) + es.skip(j + 1));
                    assert forall|a: int, b: int|
                        0 <= a < b < self.entries().len() implies self.entries()[a].id
                        != self.entries()[b].id by {
                        let a2 = if a < i { a } else { a + 1 };
                        let b2 = if b < i { b } else { b + 1 };
                        assert(self.entries()[a] == before[a2]);
                        assert(self.entries()[b] == before[b2]);
                    }
                    assert forall|k: int| 0 <= k < self.entries().len() implies lifecycle_wf(
                        #[trigger] self.entries()[k].life@,
                    ) by {
                        let k2 = if k < i { k } else { k + 1 };
                        assert(self.entries()[k] == before[k2]);
                    }
                }
            } else {
                proof {
                    assert(self.entries@ =~= open_entries(es.take(j + 1)) + es.skip(j + 1));
                }
                i = i + 1;
            }
            proof {
                j = j + 1;
            }
        }
        proof {
            assert(es.skip(j) =~= Seq::<Entry<T>>::empty()) by {
                assert(self.entries@.len() == i);
            }
            assert(es.take(j) =~= es);
            assert(self.entries@ =~= open_entries(es));
        }
    }

    /// Sweeps out the closed connections, then registers connection `id`,
    /// still connecting. Refused (false, the handle dropped) when a
    /// connection that stays registered already has that id.
    pub fn register(&mut self, id: u64, handle: T) -> (r: bool)
        requires
            old(self).wf(),
        ensures
            final(self).wf(),
            r == !has_id(open_entries(old(self).entries()), id),
            r ==> final(self).entries() == open_entries(old(self).entries()).push(
                final(self).entries().last(),
            ),
            r ==> final(self).entries().last().id == id && final(self).entries().last().handle
                == handle && final(self).entries().last().life@ == connecting(),
            !r ==> final(self).entries() == open_entries(old(self).entries()),
    {
        self.evict_closed();
        if self.contains(id) {
            return false;
        }
        let ghost before = self.entries@;
        self.entries.push(Entry { id, life: Lifecycle::new(), handle });
        assert(self.entries() =~= before.push(self.entries().last()));
        true
    }

    proof fn lemma_update_keeps_wf(&self, before: Seq<Entry<T>>, i: int)
        requires
            0 <= i < before.len(),
            self.entries@.len() == before.len(),
            self.entries@[i].id == before[i].id,
            lifecycle_wf(self.entries@[i].life@),
            forall|k: int| 0 <= k < before.len() && k != i ==> self.entries@[k] == before[k],
            forall|a: int, b: int| 0 <= a < b < before.len() ==> before[a].id != before[b].id,
            forall|k: int| 0 <= k < before.len() ==> lifecycle_wf(#[trigger] before[k].life@),
        ensures
            self.wf(),
    {
        assert forall|k: int| 0 <= k < self.entries().len() implies lifecycle_wf(
            #[trigger] self.entries()[k].life@,
        ) by {
            if k != i {
                assert(self.entries()[k] == before[k]);
            }
        }
        assert forall|a: int, b: int| 0 <= a < b < self.entries().len() implies self.entries()[a].id
            != self.entries()[b].id by {
            assert(before[a].id != before[b].id);
        }
    }

    /// Records that connection `id` is subscribed and its pumps started.
    /// False when no such connection is registered or it was not connecting.
    pub fn activate(&mut self, id: u64) -> (r: bool)
        requires
            old(self).wf(),
        ensures
            final(self).wf(),
            !old(self).has(id) ==> !r && final(self).entries() == old(self).entries(),
            forall|i: int|
                0 <= i < old(self).entries().len() && #[trigger] old(self).entries()[i].id == id
                    ==> life_updated(
                    old(self).entries(),
                    final(self).entries(),
                    i,
                    activated(old(self).entries()[i].life@),
                ) && r == (old(self).entries()[i].life@.state == ConnState::Connecting),
    {
        match self.find(id) {
            None => false,
            Some(i) => {
                let ghost before = self.entries@;
                let mut e = self.entries.remove(i);
                let r = e.life.activate();
                self.entries.insert(i, e);
                proof {
                    assert(self.entries@ =~= before.update(i as int, e));
                    self.lemma_update_keeps_wf(before, i as int);
                }
                r
            },
        }
    }

    /// Asks connection `id` to stop. True on the one call that raised its
    /// stop flag: the caller then shuts its socket down.
    pub fn stop(&mut self, id: u64) -> (r: bool)
        requires
            old(self).wf(),
        ensures
            final(self).wf(),
            !old(self).has(id) ==> !r && final(self).entries() == old(self).entries(),
            forall|i: int|
                0 <= i < old(self).entries().len() && #[trigger] old(self).entries()[i].id == id
                    ==> life_updated(
                    old(self).entries(),
                    final(self).entries(),
                    i,
                    stop_requested(old(self).entries()[i].life@),
                ) && r == !is_stopped(old(self).entries()[i].life@),
    {
        match self.find(id) {
            None => false,
            Some(i) => {
                let ghost before = self.entries@;
                let mut e = self.entries.remove(i);
                let r = e.life.stop();
                self.entries.insert(i, e);
                proof {
                    assert(self.entries@ =~= before.update(i as int, e));
                    self.lemma_update_keeps_wf(before, i as int);
                }
                r
            },
        }
    }

    /// Records that pump `p` of connection `id` has exited. True on the one
    /// call that raised the connection's stop flag: the caller then shuts its
    /// socket down.
    pub fn pump_exited(&mut self, id: u64, p: Pump) -> (r: bool)
        requires
            old(self).wf(),
        ensures
            final(self).wf(),
            !old(self).has(id) ==> !r && final(self).entries() == old(self).entries(),
            forall|i: int|
                0 <= i < old(self).entries().len() && #[trigger] old(self).entries()[i].id == id
                    ==> life_updated(
                    old(self).entries(),
                    final(self).entries(),
                    i,
                    pump_exit(old(self).entries()[i].life@, p),
                ) && r == (!is_stopped(old(self).entries()[i].life@) && is_stopped(
                    pump_exit(old(self).entries()[i].life@, p),
                )),
    {
        match self.find(id) {
            None => false,
            Some(i) => {
                let ghost before = self.entries@;
                let mut e = self.entries.remove(i);
                let r = e.life.pump_exited(p);
                self.entries.insert(i, e);
                proof {
                    assert(self.entries@ =~= before.update(i as int, e));
                    self.lemma_update_keeps_wf(before, i as int);
                }
                r
            },
        }
    }

    /// Asks every connection to stop, each on its own: whatever state one is
    /// in has no bearing on the others. Afterwards every stop flag is up.
    /// Returns, in order, the ids of the connections whose stop flag this
    /// raised: their sockets are to be shut down.
    pub fn stop_all(&mut self) -> (r: Vec<u64>)
        requires
            old(self).wf(),
        ensures
            final(self).wf(),
            final(self).entries().len() == old(self).entries().len(),
            forall|k: int|
                0 <= k < old(self).entries().len() ==> #[trigger] final(self).entries()[k].id
                    == old(self).entries()[k].id && final(self).entries()[k].handle == old(
                    self,
                ).entries()[k].handle && final(self).entries()[k].life@ == stop_requested(
                    old(self).entries()[k].life@,
                ),
            forall|k: int|
                0 <= k < final(self).entries().len() ==> is_stopped(
                    #[trigger] final(self).entries()[k].life@,
                ),
            r@ == newly_stopped(old(self).entries()),
    {
        let ghost es = self.entries@;
        let mut r: Vec<u64> = Vec::new();
        let mut i: usize = 0;
        while i < self.entries.len()
            invariant
                self.wf(),
                self.entries@.len() == es.len(),
                i <= es.len(),
                es == old(self).entries(),
                forall|k: int| i <= k < es.len() ==> self.entries@[k] == es[k],
                forall|k: int|
                    0 <= k < i ==> #[trigger] self.entries@[k].id == es[k].id
                        && self.entries@[k].handle == es[k].handle && self.entries@[k].life@
                        == stop_requested(es[k].life@),
                r@ == newly_stopped(es.take(i as int)),
            decreases es.len() - i,
        {
            let ghost before = self.entries@;
            let mut e = self.entries.remove(i);
            let raised = e.life.stop();
            let id = e.id;
            self.entries.insert(i, e);
            proof {
                assert(self.entries@ =~= before.update(i as int, e));
                self.lemma_update_keeps_wf(before, i as int);
                assert(es.take(i + 1).drop_last() =~= es.take(i as int));
            }
            if raised {
                r.push(id);
            }
            i = i + 1;
        }
        assert(es.take(es.len() as int) =~= es);
        assert forall|k: int| 0 <= k < es.len() implies #[trigger] self.entries()[k] == self.entries@[k]
            && is_stopped(self.entries()[k].life@) && self.entries()[k].id == old(self).entries()[k].id
            && self.entries()[k].handle == old(self).entries()[k].handle && self.entries()[k].life@
            == stop_requested(old(self).entries()[k].life@) by {
            assert(self.entries@[k].id == es[k].id);
        }
        r
    }
}


/// How one non-blocking accept on the rendezvous socket went.
#[derive(PartialEq, Eq, Structural, Clone, Copy, Debug)]
pub enum AcceptOutcome {
    /// A client connected.
    Accepted,
    /// No client was waiting.
    WouldBlock,
    /// Any other error.
    Failed,
}

/// What the accept loop does with the outcome of one attempt.
#[derive(PartialEq, Eq, Structural, Clone, Copy, Debug)]
pub enum ListenerAction {
    /// Subscribe the new connection, start its pumps and register it.
    Register,
    /// Sleep a short fixed interval before the next attempt.
    Sleep,
    /// Leave the loop and stop every connection.
    Leave,
}

/// The accept loop's decision for one iteration.
#[derive(PartialEq, Eq, Structural, Clone, Copy, Debug)]
pub struct ListenerStep {
    pub action: ListenerAction,
    /// Whether to raise the server-wide shutdown flag, which ends the loop
    /// before its next attempt.
    pub raise_shutdown: bool,
}

/// One iteration of the accept loop, from what the accept gave and whether
/// the shell has exited by the end of the iteration. An accept error leaves
/// the loop; a shell that has exited raises the shutdown flag, so the loop
/// ends at the latest before the next attempt.
pub fn listener_step(outcome: AcceptOutcome, shell_exited: bool) -> (r: ListenerStep)
    ensures
        outcome == AcceptOutcome::Accepted ==> r.action == ListenerAction::Register
            && r.raise_shutdown == shell_exited,
        outcome == AcceptOutcome::WouldBlock ==> r.action == ListenerAction::Sleep
            && r.raise_shutdown == shell_exited,
        outcome == AcceptOutcome::Failed ==> r.action == ListenerAction::Leave && r.raise_shutdown,
{
    match outcome {
        AcceptOutcome::Accepted => ListenerStep {
            action: ListenerAction::Register,
            raise_shutdown: shell_exited,
        },
        AcceptOutcome::WouldBlock => ListenerStep {
            action: ListenerAction::Sleep,
            raise_shutdown: shell_exited,
        },
        AcceptOutcome::Failed => ListenerStep { action: ListenerAction::Leave, raise_shutdown: true },
    }
}

} // verus!
