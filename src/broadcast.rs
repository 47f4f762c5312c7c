use vstd::prelude::*;

verus! {

/// What one subscriber looks like to the contracts.
///
/// `joined`, `read` and `end` are positions in the broadcaster's history of
/// chunks: the member joined when the history had `joined` chunks, it has been
/// handed every chunk before `read`, and `pending` holds the chunks from `read`
/// up to `end`. A member that overflowed its queue stops receiving, so its
/// `end` stays where the overflow happened.
pub struct MemberView {
    pub id: u64,
    pub pending: Seq<Seq<u8>>,
    pub overflowed: bool,
    pub joined: nat,
    pub read: nat,
    pub end: nat,
}

/// The chunks of a queue, each as its bytes.
pub open spec fn chunks_view(v: Seq<Vec<u8>>) -> Seq<Seq<u8>> {
    v.map_values(|c: Vec<u8>| c@)
}

/// A member is consistent with the history it was fed from.
pub open spec fn member_wf(m: MemberView, history: Seq<Seq<u8>>, capacity: nat) -> bool {
    &&& m.joined <= m.read <= m.end <= history.len()
    &&& !m.overflowed ==> m.end == history.len()
    &&& m.pending == history.subrange(m.read as int, m.end as int)
    &&& m.pending.len() <= capacity
}

/// Everything a member has been handed or still has queued, in order.
pub open spec fn stream_of(m: MemberView, history: Seq<Seq<u8>>) -> Seq<Seq<u8>> {
    history.subrange(m.joined as int, m.read as int) + m.pending
}

/// A member after one chunk has been published when the history held `n` chunks.
pub open spec fn published_member(m: MemberView, chunk: Seq<u8>, capacity: nat, n: nat) -> MemberView {
    if m.overflowed {
        m
    } else if m.pending.len() < capacity {
        MemberView { pending: m.pending.push(chunk), end: n + 1, ..m }
    } else {
        MemberView { overflowed: true, ..m }
    }
}

/// A publish pushes the chunk onto a member's queue unless that queue is full.
pub open spec fn overflows_now(m: MemberView, capacity: nat) -> bool {
    !m.overflowed && m.pending.len() >= capacity
}

/// Ids of the members, in order, whose queue overflows on the next publish.
pub open spec fn overflow_ids(ms: Seq<MemberView>, capacity: nat) -> Seq<u64>
    decreases ms.len(),
{
    if ms.len() == 0 {
        Seq::empty()
    } else {
        let rest = overflow_ids(ms.drop_last(), capacity);
        if overflows_now(ms.last(), capacity) {
            rest.push(ms.last().id)
        } else {
            rest
        }
    }
}

/// A member that joins when the history holds `n` chunks: nothing queued.
pub open spec fn fresh_member(id: u64, n: nat) -> MemberView {
    MemberView { id, pending: Seq::empty(), overflowed: false, joined: n, read: n, end: n }
}

/// A member after handing out everything it had queued.
pub open spec fn drained(m: MemberView) -> MemberView {
    MemberView { pending: Seq::empty(), read: m.end, ..m }
}

struct Member {
    id: u64,
    pending: Vec<Vec<u8>>,
    overflowed: bool,
    joined: Ghost<nat>,
    read: Ghost<nat>,
    end: Ghost<nat>,
}

impl Member {
    spec fn view(&self) -> MemberView {
        MemberView {
            id: self.id,
            pending: chunks_view(self.pending@),
            overflowed: self.overflowed,
            joined: self.joined@,
            read: self.read@,
            end: self.end@,
        }
    }
}

/// What a subscriber gets when it asks for its queued output.
pub enum Delivery {
    /// Every chunk queued for the subscriber, oldest first (possibly none).
    Chunks(Vec<Vec<u8>>),
    /// The subscriber fell a full queue behind and must disconnect.
    Overflowed,
    /// No subscriber has this id (it left or never joined).
    Unknown,
}

/// The single reader's fan-out: every chunk read from the terminal is queued
/// for every current subscriber, each in a bounded queue of its own.
pub struct Broadcaster {
    members: Vec<Member>,
    next_id: u64,
    capacity: usize,
    history: Ghost<Seq<Seq<u8>>>,
}

impl Broadcaster {
    /// The members, in the order they joined.
    pub closed spec fn members(&self) -> Seq<MemberView> {
        self.members@.map_values(|m: Member| m.view())
    }

    /// Every chunk published so far, in order.
    pub closed spec fn history(&self) -> Seq<Seq<u8>> {
        self.history@
    }

    /// How many chunks a member's queue may hold.
    pub closed spec fn capacity(&self) -> nat {
        self.capacity as nat
    }

    /// The id the next subscriber gets.
    pub closed spec fn next_id(&self) -> u64 {
        self.next_id
    }

    pub open spec fn wf(&self) -> bool {
        &&& forall|i: int, j: int|
            0 <= i < j < self.members().len() ==> self.members()[i].id != self.members()[j].id
        &&& forall|i: int| 0 <= i < self.members().len() ==> self.members()[i].id < self.next_id()
        &&& forall|i: int|
            0 <= i < self.members().len() ==> member_wf(
                #[trigger] self.members()[i],
                self.history(),
                self.capacity(),
            )
    }

    /// Whether `id` names a current member.
    pub open spec fn has(&self, id: u64) -> bool {
        exists|i: int| 0 <= i < self.members().len() && self.members()[i].id == id
    }

    /// A broadcaster with no members and no history; each member may have up
    /// to `capacity` chunks queued.
    pub fn new(capacity: usize) -> (r: Broadcaster)
        ensures
            r.wf(),
            r.members().len() == 0,
            r.history().len() == 0,
            r.capacity() == capacity,
            r.next_id() == 0,
    {
        let r = Broadcaster {
            members: Vec::new(),
            next_id: 0,
            capacity,
            history: Ghost(Seq::empty()),
        };
        assert(r.members() =~= Seq::empty());
        r
    }

    /// The number of current members.
    pub fn len(&self) -> (r: usize)
        ensures
            r == self.members().len(),
    {
        self.members.len()
    }

    /// Adds a member that receives every chunk published from now on and
    /// nothing published before. `None` when every id has been handed out.
    pub fn subscribe(&mut self) -> (r: Option<u64>)
        requires
            old(self).wf(),
        ensures
            final(self).wf(),
            final(self).history() == old(self).history(),
            final(self).capacity() == old(self).capacity(),
            old(self).next_id() == u64::MAX ==> final(self).next_id() == u64::MAX,
            old(self).next_id() < u64::MAX ==> final(self).next_id() == old(self).next_id() + 1,
            old(self).next_id() == u64::MAX ==> r.is_none() && final(self).members()
                == old(self).members(),
            old(self).next_id() < u64::MAX ==> r == Some(old(self).next_id())
                && final(self).members() == old(self).members().push(
                fresh_member(old(self).next_id(), old(self).history().len()),
            ),
    {
        if self.next_id == u64::MAX {
            return None;
        }
        let id = self.next_id;
        let ghost n = self.history@.len();
        let m = Member {
            id,
            pending: Vec::new(),
            overflowed: false,
            joined: Ghost(n),
            read: Ghost(n),
            end: Ghost(n),
        };
        proof {
            assert(chunks_view(m.pending@) =~= Seq::empty());
            assert(self.history@.subrange(n as int, n as int) =~= Seq::empty());
        }
        self.members.push(m);
        self.next_id = id + 1;
        assert(self.members() =~= old(self).members().push(m.view()));
        Some(id)
    }

    /// The position of member `id`, if there is one.
    fn find(&self, id: u64) -> (r: Option<usize>)
        requires
            self.wf(),
        ensures
            r.is_none() ==> !self.has(id),
            r.is_some() ==> r.unwrap() < self.members().len() && self.members()[r.unwrap() as int].id
                == id,
    {
        let mut i: usize = 0;
        while i < self.members.len()
            invariant
                i <= self.members().len(),
                self.members().len() == self.members@.len(),
                forall|k: int| 0 <= k < i ==> self.members()[k].id != id,
            decreases self.members@.len() - i,
        {
            if self.members[i].id == id {
                return Some(i);
            }
            i = i + 1;
        }
        None
    }

    /// Removes member `id`; every other member stays as it was, in order.
    /// Returns whether `id` was a member.
    pub fn unsubscribe(&mut self, id: u64) -> (r: bool)
        requires
            old(self).wf(),
        ensures
            final(self).wf(),
            r == old(self).has(id),
            final(self).history() == old(self).history(),
            final(self).capacity() == old(self).capacity(),
            final(self).next_id() == old(self).next_id(),
            !r ==> final(self).members() == old(self).members(),
            r ==> exists|i: int|
                0 <= i < old(self).members().len() && old(self).members()[i].id == id
                    && final(self).members() == old(self).members().remove(i),
            !final(self).has(id),
    {
        match self.find(id) {
            None => false,
            Some(i) => {
                let _gone = self.members.remove(i);
                assert(self.members() =~= old(self).members().remove(i as int));
                true
            },
        }
    }

    /// Queues `chunk` for every member whose queue has room. A member whose
    /// queue is full is marked overflowed instead and receives nothing more;
    /// its id is returned, so that its connection can be closed. No member's
    /// outcome depends on any other member.
    pub fn publish(&mut self, chunk: Vec<u8>) -> (r: Vec<u64>)
        requires
            old(self).wf(),
        ensures
            final(self).wf(),
            final(self).history() == old(self).history().push(chunk@),
            final(self).capacity() == old(self).capacity(),
            final(self).next_id() == old(self).next_id(),
            final(self).members().len() == old(self).members().len(),
            forall|i: int|
                0 <= i < old(self).members().len() ==> #[trigger] final(self).members()[i]
                    == published_member(
                    old(self).members()[i],
                    chunk@,
                    old(self).capacity(),
                    old(self).history().len(),
                ),
            r@ == overflow_ids(old(self).members(), old(self).capacity()),
    {
        let ghost old_members = self.members();
        let ghost n = self.history@.len();
        let ghost cap = self.capacity as nat;
        let ghost new_history = self.history@.push(chunk@);
        let mut overflowed: Vec<u64> = Vec::new();
        let mut i: usize = 0;
        while i < self.members.len()
            invariant
                old(self).wf(),
                self.history@ == old(self).history@,
                self.capacity == old(self).capacity,
                self.next_id == old(self).next_id,
                self.members().len() == old_members.len(),
                self.members@.len() == old_members.len(),
                old_members == old(self).members(),
                n == self.history@.len(),
                cap == self.capacity as nat,
                new_history == self.history@.push(chunk@),
                i <= old_members.len(),
                forall|k: int| i <= k < old_members.len() ==> self.members()[k] == old_members[k],
                forall|k: int|
                    0 <= k < i ==> #[trigger] self.members()[k] == published_member(
                        old_members[k],
                        chunk@,
                        cap,
                        n,
                    ),
                forall|k: int|
                    0 <= k < i ==> member_wf(#[trigger] self.members()[k], new_history, cap),
                overflowed@ == overflow_ids(old_members.take(i as int), cap),
            decreases old_members.len() - i,
        {
            let ghost before = self.members@;
            let mut m = self.members.remove(i);
            proof {
                assert(m.view() == old_members[i as int]);
                assert(old_members.take(i + 1).drop_last() =~= old_members.take(i as int));
            }
            if !m.overflowed {
                if m.pending.len() < self.capacity {
                    let ghost before = m.view();
                    let c = chunk.clone();
                    assert(c@ =~= chunk@);
                    m.pending.push(c);
                    m.end = Ghost((n + 1) as nat);
                    proof {
                        assert(chunks_view(m.pending@) =~= before.pending.push(chunk@));
                        assert(new_history.subrange(m.read@ as int, (n + 1) as int)
                            =~= self.history@.subrange(m.read@ as int, n as int).push(chunk@));
                    }
                } else {
                    m.overflowed = true;
                    overflowed.push(m.id);
                }
            }
            proof {
                let mv = m.view();
                if mv.end <= n {
                    assert(new_history.subrange(mv.read as int, mv.end as int)
                        =~= self.history@.subrange(mv.read as int, mv.end as int));
                }
            }
            self.members.insert(i, m);
            proof {
                assert(self.members@ =~= before.update(i as int, m));
                assert(self.members() =~= before.map_values(|x: Member| x.view()).update(
                    i as int,
                    m.view(),
                ));
            }
            i = i + 1;
        }
        self.history = Ghost(new_history);
        proof {
            assert(old_members.take(old_members.len() as int) =~= old_members);
            assert forall|k: int| 0 <= k < self.members().len() implies member_wf(
                #[trigger] self.members()[k],
                self.history(),
                self.capacity(),
            ) by {}
        }
        overflowed
    }

    /// Hands member `id` every chunk queued for it, oldest first, and empties
    /// its queue. An overflowed member gets `Overflowed` and keeps its state;
    /// an id that is not a member gets `Unknown`.
    pub fn take_pending(&mut self, id: u64) -> (r: Delivery)
        requires
            old(self).wf(),
        ensures
            final(self).wf(),
            final(self).history() == old(self).history(),
            final(self).capacity() == old(self).capacity(),
            final(self).next_id() == old(self).next_id(),
            !old(self).has(id) ==> r is Unknown && final(self).members() == old(self).members(),
            forall|i: int|
                0 <= i < old(self).members().len() && #[trigger] old(self).members()[i].id == id
                    ==> if old(self).members()[i].overflowed {
                    r is Overflowed && final(self).members() == old(self).members()
                } else {
                    &&& r is Chunks
                    &&& chunks_view(r->Chunks_0@) == old(self).members()[i].pending
                    &&& final(self).members() == old(self).members().update(
                        i,
                        drained(old(self).members()[i]),
                    )
                },
    {
        match self.find(id) {
            None => Delivery::Unknown,
            Some(i) => {
                if self.members[i].overflowed {
                    return Delivery::Overflowed;
                }
                let ghost before = self.members@;
                let mut m = self.members.remove(i);
                let mut out: Vec<Vec<u8>> = Vec::new();
                std::mem::swap(&mut out, &mut m.pending);
                m.read = Ghost(m.end@);
                proof {
                    assert(chunks_view(m.pending@) =~= Seq::empty());
                    assert(self.history@.subrange(m.end@ as int, m.end@ as int) =~= Seq::empty());
                }
                self.members.insert(i, m);
                proof {
                    assert(self.members@ =~= before.update(i as int, m));
                    assert(self.members() =~= before.map_values(|x: Member| x.view()).update(
                        i as int,
                        m.view(),
                    ));
                    assert(m.view() == drained(old(self).members()[i as int]));
                }
                Delivery::Chunks(out)
            },
        }
    }
}

/// Every member that has not overflowed has been handed, or still has queued,
/// exactly the chunks published since it joined: nothing older, nothing
/// skipped, nothing out of order.
pub proof fn lemma_stream_is_history_since_join(b: &Broadcaster, i: int)
    requires
        b.wf(),
        0 <= i < b.members().len(),
        !b.members()[i].overflowed,
    ensures
        stream_of(b.members()[i], b.history()) == b.history().subrange(
            b.members()[i].joined as int,
            b.history().len() as int,
        ),
{
    let m = b.members()[i];
    let h = b.history();
    assert(member_wf(m, h, b.capacity()));
    assert(stream_of(m, h) =~= h.subrange(m.joined as int, h.len() as int));
}

/// Two members that joined at the same moment and have not overflowed see
/// identical streams, chunk for chunk and in the same order.
pub proof fn lemma_same_join_same_stream(b: &Broadcaster, i: int, j: int)
    requires
        b.wf(),
        0 <= i < b.members().len(),
        0 <= j < b.members().len(),
        !b.members()[i].overflowed,
        !b.members()[j].overflowed,
        b.members()[i].joined == b.members()[j].joined,
    ensures
        stream_of(b.members()[i], b.history()) == stream_of(b.members()[j], b.history()),
{
    lemma_stream_is_history_since_join(b, i);
    lemma_stream_is_history_since_join(b, j);
}

/// A member that joined later than another sees a suffix of the other's
/// stream: the same chunks in the same order, less those published before it
/// joined.
pub proof fn lemma_later_join_sees_suffix(b: &Broadcaster, i: int, j: int)
    requires
        b.wf(),
        0 <= i < b.members().len(),
        0 <= j < b.members().len(),
        !b.members()[i].overflowed,
        !b.members()[j].overflowed,
        b.members()[i].joined <= b.members()[j].joined,
    ensures
        stream_of(b.members()[j], b.history()) == stream_of(b.members()[i], b.history()).subrange(
            b.members()[j].joined - b.members()[i].joined,
            stream_of(b.members()[i], b.history()).len() as int,
        ),
{
    lemma_stream_is_history_since_join(b, i);
    lemma_stream_is_history_since_join(b, j);
    let h = b.history();
    let si = b.members()[i].joined as int;
    let sj = b.members()[j].joined as int;
    assert(h.subrange(sj, h.len() as int) =~= h.subrange(si, h.len() as int).subrange(
        sj - si,
        h.len() - si,
    ));
}

} // verus!
