use crate::fragment::{ChunkView, FragmentIdentifier, MessageChunk};
use crate::message::{PreparedFragment, RealMessage, Recipient};
use vstd::prelude::*;
use vstd::slice::slice_to_vec;

verus! {

/// Bookkeeping for one sent fragment that awaits its acknowledgement.
#[derive(Debug)]
pub struct PendingAcknowledgement {
    pub message_chunk: MessageChunk,
    pub delay_ms: u64,
    pub recipient: Recipient,
}

impl PendingAcknowledgement {
    pub fn new(message_chunk: MessageChunk, delay_ms: u64, recipient: Recipient) -> (ack: Self)
        ensures
            ack.message_chunk == message_chunk,
            ack.delay_ms == delay_ms,
            ack.recipient == recipient,
    {
        PendingAcknowledgement { message_chunk, delay_ms, recipient }
    }
}

/// What the controller knows of one in-flight fragment.
pub struct PendingView {
    pub chunk: ChunkView,
    pub delay_ms: u64,
    pub recipient: Recipient,
    pub deadline_ms: u64,
}

/// Command sent to the acknowledgement controller.
#[derive(Debug)]
pub enum Action {
    /// Start tracking freshly sent fragments.
    InsertPending(Vec<PendingAcknowledgement>),
    /// An acknowledgement for this fragment arrived.
    RemoveAcknowledged(FragmentIdentifier),
    /// The retransmission timer of this fragment fired.
    RetransmitExpired(FragmentIdentifier),
}

impl Action {
    pub fn new_insert(pending_acks: Vec<PendingAcknowledgement>) -> (action: Self)
        ensures
            action == Action::InsertPending(pending_acks),
    {
        Action::InsertPending(pending_acks)
    }
}

/// When a fragment sent at `now_ms`, expected to take `delay_ms` to be
/// acknowledged, is given up on: the delay plus a fixed margin, saturating at
/// the largest instant.
pub open spec fn retransmission_deadline(now_ms: u64, delay_ms: u64, margin_ms: u64) -> u64 {
    if now_ms + delay_ms + margin_ms <= u64::MAX {
        (now_ms + delay_ms + margin_ms) as u64
    } else {
        u64::MAX
    }
}

pub open spec fn pending_view(ack: PendingAcknowledgement, deadline_ms: u64) -> PendingView {
    PendingView {
        chunk: ack.message_chunk@,
        delay_ms: ack.delay_ms,
        recipient: ack.recipient,
        deadline_ms,
    }
}

/// The pending map after inserting `acks` one after another, all armed at
/// `now_ms`; a later entry for an identifier replaces an earlier one.
pub open spec fn with_inserted(
    pending: Map<FragmentIdentifier, PendingView>,
    acks: Seq<PendingAcknowledgement>,
    now_ms: u64,
    margin_ms: u64,
) -> Map<FragmentIdentifier, PendingView>
    decreases acks.len(),
{
    if acks.len() == 0 {
        pending
    } else {
        let last = acks.last();
        with_inserted(pending, acks.drop_last(), now_ms, margin_ms).insert(
            last.message_chunk.id,
            pending_view(
                last,
                retransmission_deadline(now_ms, last.delay_ms, margin_ms),
            ),
        )
    }
}

/// The identifier a resent fragment travels under: same position in the same
/// split, fresh message id.
pub open spec fn resent_id(id: FragmentIdentifier, new_set_id: u64) -> FragmentIdentifier {
    FragmentIdentifier { set_id: new_set_id, ..id }
}

/// Adds `delay_ms` and `margin_ms` to `now_ms`, saturating at the largest
/// instant.
pub fn deadline_after(now_ms: u64, delay_ms: u64, margin_ms: u64) -> (deadline: u64)
    ensures
        deadline == retransmission_deadline(now_ms, delay_ms, margin_ms),
{
    let sum: u128 = now_ms as u128 + delay_ms as u128 + margin_ms as u128;
    if sum <= u64::MAX as u128 {
        sum as u64
    } else {
        u64::MAX
    }
}

/// A pending acknowledgement together with the instant its timer fires.
struct PendingEntry {
    ack: PendingAcknowledgement,
    deadline_ms: u64,
}

/// The stored entries of the pending map, with the map they stand for.
struct PendingTable {
    entries: Vec<PendingEntry>,
    pending: Ghost<Map<FragmentIdentifier, PendingView>>,
}

/// Sole owner of the acknowledgement state: one entry per in-flight
/// fragment, keyed by its identifier, with the instant at which it is resent.
pub struct AckController {
    table: PendingTable,
    ack_wait_margin_ms: u64,
}

impl View for AckController {
    type V = Map<FragmentIdentifier, PendingView>;

    closed spec fn view(&self) -> Map<FragmentIdentifier, PendingView> {
        self.table.pending@
    }
}

impl PendingTable {
    /// The stored entries agree with the pending map and no identifier is
    /// stored twice.
    spec fn wf(&self) -> bool {
        &&& forall|i: int|
            0 <= i < self.entries@.len() ==> {
                let e = #[trigger] self.entries@[i];
                &&& self.pending@.contains_key(e.ack.message_chunk.id)
                &&& self.pending@[e.ack.message_chunk.id] == pending_view(e.ack, e.deadline_ms)
            }
        &&& forall|k: FragmentIdentifier| #[trigger]
            self.pending@.contains_key(k) ==> exists|i: int|
                0 <= i < self.entries@.len() && #[trigger] self.entries@[i].ack.message_chunk.id
                    == k
        &&& forall|i: int, j: int|
            0 <= i < self.entries@.len() && 0 <= j < self.entries@.len() && i != j
                ==> #[trigger] self.entries@[i].ack.message_chunk.id
                != #[trigger] self.entries@[j].ack.message_chunk.id
    }

    fn empty() -> (table: Self)
        ensures
            table.wf(),
            table.pending@ == Map::<FragmentIdentifier, PendingView>::empty(),
    {
        PendingTable { entries: Vec::new(), pending: Ghost(Map::empty()) }
    }

    proof fn lemma_dom_is_ids(&self)
        requires
            self.wf(),
        ensures
            self.pending@.dom() == self.entries@.map_values(
                |e: PendingEntry| e.ack.message_chunk.id,
            ).to_set(),
            self.pending@.dom().finite(),
            self.pending@.len() == self.entries@.len(),
    {
        let ids = self.entries@.map_values(|e: PendingEntry| e.ack.message_chunk.id);
        assert forall|k| self.pending@.dom().contains(k) <==> ids.to_set().contains(k) by {
            if self.pending@.dom().contains(k) {
                let i = choose|i: int|
                    0 <= i < self.entries@.len() && #[trigger] self.entries@[i].ack.message_chunk.id
                        == k;
                assert(ids[i] == k);
            }
            if ids.to_set().contains(k) {
                let i = choose|i: int| 0 <= i < ids.len() && ids[i] == k;
                assert(self.entries@[i].ack.message_chunk.id == k);
            }
        }
        assert(self.pending@.dom() =~= ids.to_set());
        assert(ids.no_duplicates()) by {
            assert forall|i: int, j: int|
                0 <= i < ids.len() && 0 <= j < ids.len() && i != j implies ids[i] != ids[j] by {
                assert(self.entries@[i].ack.message_chunk.id
                    != self.entries@[j].ack.message_chunk.id);
            }
        }
        ids.unique_seq_to_set();
    }

    /// Position of the entry for `id`, if any.
    fn find(&self, id: FragmentIdentifier) -> (pos: Option<usize>)
        requires
            self.wf(),
        ensures
            match pos {
                Some(i) => i < self.entries@.len() && self.entries@[i as int].ack.message_chunk.id
                    == id,
                None => !self.pending@.contains_key(id),
            },
    {
        let mut i: usize = 0;
        while i < self.entries.len()
            invariant
                self.wf(),
                i <= self.entries@.len(),
                forall|j: int| 0 <= j < i ==> #[trigger] self.entries@[j].ack.message_chunk.id != id,
            decreases self.entries@.len() - i,
        {
            if self.entries[i].ack.message_chunk.id == id {
                return Some(i);
            }
            i = i + 1;
        }
        None
    }

    /// Inserts or replaces the entry for `ack`'s fragment.
    fn store(&mut self, ack: PendingAcknowledgement, deadline_ms: u64)
        requires
            old(self).wf(),
        ensures
            final(self).wf(),
            final(self).pending@ == old(self).pending@.insert(
                ack.message_chunk.id,
                pending_view(ack, deadline_ms),
            ),
    {
        let id = ack.message_chunk.id;
        let ghost v = pending_view(ack, deadline_ms);
        let ghost old_entries = self.entries@;
        match self.find(id) {
            Some(i) => {
                self.entries.set(i, PendingEntry { ack, deadline_ms });
                self.pending = Ghost(self.pending@.insert(id, v));
                assert forall|k: FragmentIdentifier| #[trigger]
                    self.pending@.contains_key(k) implies exists|j: int|
                    0 <= j < self.entries@.len() && #[trigger] self.entries@[j].ack.message_chunk.id
                        == k by {
                    if k == id {
                        assert(self.entries@[i as int].ack.message_chunk.id == k);
                    } else {
                        let j = choose|j: int|
                            0 <= j < old_entries.len() && #[trigger] old_entries[j].ack.message_chunk.id
                                == k;
                        assert(self.entries@[j].ack.message_chunk.id == k);
                    }
                }
            },
            None => {
                self.entries.push(PendingEntry { ack, deadline_ms });
                self.pending = Ghost(self.pending@.insert(id, v));
                assert forall|k: FragmentIdentifier| #[trigger]
                    self.pending@.contains_key(k) implies exists|j: int|
                    0 <= j < self.entries@.len() && #[trigger] self.entries@[j].ack.message_chunk.id
                        == k by {
                    if k == id {
                        assert(self.entries@[old_entries.len() as int].ack.message_chunk.id == k);
                    } else {
                        let j = choose|j: int|
                            0 <= j < old_entries.len() && #[trigger] old_entries[j].ack.message_chunk.id
                                == k;
                        assert(self.entries@[j].ack.message_chunk.id == k);
                    }
                }
            },
        }
    }

    /// Removes and returns the entry for `id`, if any.
    fn take(&mut self, id: FragmentIdentifier) -> (removed: Option<PendingEntry>)
        requires
            old(self).wf(),
        ensures
            final(self).wf(),
            final(self).pending@ == old(self).pending@.remove(id),
            match removed {
                Some(e) => old(self).pending@.contains_key(id) && e.ack.message_chunk.id == id
                    && old(self).pending@[id] == pending_view(e.ack, e.deadline_ms),
                None => !old(self).pending@.contains_key(id),
            },
    {
        match self.find(id) {
            None => {
                assert(self.pending@.remove(id) =~= self.pending@);
                None
            },
            Some(i) => {
                let ghost old_entries = self.entries@;
                let last: usize = self.entries.len() - 1;
                let entry = self.entries.swap_remove(i);
                self.pending = Ghost(self.pending@.remove(id));
                assert(self.entries@.len() == last);
                assert forall|j: int| 0 <= j < self.entries@.len() implies
                    #[trigger] self.entries@[j] == (if j == i { old_entries[last as int] } else {
                    old_entries[j] }) by {}
                assert forall|k: FragmentIdentifier| #[trigger]
                    self.pending@.contains_key(k) implies exists|j: int|
                    0 <= j < self.entries@.len() && #[trigger] self.entries@[j].ack.message_chunk.id
                        == k by {
                    let j = choose|j: int|
                        0 <= j < old_entries.len() && #[trigger] old_entries[j].ack.message_chunk.id
                            == k;
                    if j == last {
                        assert(self.entries@[i as int].ack.message_chunk.id == k);
                    } else {
                        assert(j != i);
                        assert(self.entries@[j].ack.message_chunk.id == k);
                    }
                }
                Some(entry)
            },
        }
    }
}

impl AckController {
    #[verifier::type_invariant]
    spec fn inv(&self) -> bool {
        self.table.wf()
    }

    /// The fixed margin added to each expected delay.
    pub closed spec fn margin(&self) -> u64 {
        self.ack_wait_margin_ms
    }

    pub fn new(ack_wait_margin_ms: u64) -> (controller: Self)
        ensures
            controller@ == Map::<FragmentIdentifier, PendingView>::empty(),
            controller.margin() == ack_wait_margin_ms,
    {
        AckController { table: PendingTable::empty(), ack_wait_margin_ms }
    }

    /// Number of in-flight fragments.
    pub fn len(&self) -> (n: usize)
        ensures
            n == self@.len(),
            self@.dom().finite(),
    {
        proof {
            use_type_invariant(self);
            self.table.lemma_dom_is_ids();
        }
        self.table.entries.len()
    }

    /// Starts tracking `pending_acks`, all sent at `now_ms`: each is keyed by
    /// its fragment identifier and armed to expire after its expected delay
    /// plus the margin.
    pub fn insert_pending(&mut self, pending_acks: Vec<PendingAcknowledgement>, now_ms: u64)
        ensures
            final(self).margin() == old(self).margin(),
            final(self)@ == with_inserted(old(self)@, pending_acks@, now_ms, old(self).margin()),
    {
        proof {
            use_type_invariant(&*self);
        }
        let ghost start = self@;
        let ghost acks = pending_acks@;
        let margin = self.ack_wait_margin_ms;
        let mut table = PendingTable::empty();
        std::mem::swap(&mut table, &mut self.table);
        for ack in it: pending_acks
            invariant
                table.wf(),
                it.seq() == acks,
                table.pending@ == with_inserted(start, acks.take(it.index() as int), now_ms, margin),
        {
            proof {
                assert(acks.take(it.index() as int + 1).drop_last() =~= acks.take(it.index() as int));
            }
            let deadline = deadline_after(now_ms, ack.delay_ms, margin);
            table.store(ack, deadline);
        }
        assert(acks.take(acks.len() as int) =~= acks);
        self.table = table;
    }

    /// An acknowledgement for `id` arrived: stop tracking it. Returns whether
    /// it was tracked; a late or repeated acknowledgement changes nothing.
    pub fn remove_acknowledged(&mut self, id: FragmentIdentifier) -> (was_pending: bool)
        ensures
            final(self).margin() == old(self).margin(),
            was_pending == old(self)@.contains_key(id),
            final(self)@ == old(self)@.remove(id),
    {
        proof {
            use_type_invariant(&*self);
        }
        let mut table = PendingTable::empty();
        std::mem::swap(&mut table, &mut self.table);
        let removed = table.take(id);
        self.table = table;
        removed.is_some()
    }

    /// Whether `id` is in flight.
    pub fn is_pending(&self, id: FragmentIdentifier) -> (pending: bool)
        ensures
            pending == self@.contains_key(id),
    {
        proof {
            use_type_invariant(self);
        }
        self.table.find(id).is_some()
    }

    /// The identifiers of the in-flight fragments whose deadline is at or
    /// before `now_ms`, each once.
    pub fn expired(&self, now_ms: u64) -> (ids: Vec<FragmentIdentifier>)
        ensures
            ids@.no_duplicates(),
            forall|k: FragmentIdentifier|
                ids@.contains(k) <==> (self@.contains_key(k) && self@[k].deadline_ms <= now_ms),
    {
        proof {
            use_type_invariant(self);
        }
        let mut ids: Vec<FragmentIdentifier> = Vec::new();
        let mut i: usize = 0;
        while i < self.table.entries.len()
            invariant
                self.table.wf(),
                i <= self.table.entries@.len(),
                ids@.no_duplicates(),
                forall|k: FragmentIdentifier|
                    ids@.contains(k) <==> exists|j: int|
                        0 <= j < i && #[trigger] self.table.entries@[j].ack.message_chunk.id == k
                            && self.table.entries@[j].deadline_ms <= now_ms,
            decreases self.table.entries@.len() - i,
        {
            let e = &self.table.entries[i];
            if e.deadline_ms <= now_ms {
                let ghost before = ids@;
                let id = e.ack.message_chunk.id;
                assert(!before.contains(id)) by {
                    if before.contains(id) {
                        let j = choose|j: int|
                            0 <= j < i && #[trigger] self.table.entries@[j].ack.message_chunk.id == id
                                && self.table.entries@[j].deadline_ms <= now_ms;
                        assert(self.table.entries@[j].ack.message_chunk.id
                            != self.table.entries@[i as int].ack.message_chunk.id);
                    }
                }
                ids.push(id);
                assert forall|k: FragmentIdentifier|
                    ids@.contains(k) <==> (before.contains(k) || k == id) by {
                    if before.contains(k) {
                        let x = choose|x: int| 0 <= x < before.len() && before[x] == k;
                        assert(ids@[x] == k);
                    }
                    if k == id {
                        assert(ids@[before.len() as int] == k);
                    }
                    if ids@.contains(k) {
                        let x = choose|x: int| 0 <= x < ids@.len() && ids@[x] == k;
                        if x < before.len() {
                            assert(before[x] == k);
                        }
                    }
                }
                assert forall|k: FragmentIdentifier|
                    ids@.contains(k) <==> exists|j: int|
                        0 <= j < i + 1 && #[trigger] self.table.entries@[j].ack.message_chunk.id == k
                            && self.table.entries@[j].deadline_ms <= now_ms by {
                    if k == id {
                        assert(self.table.entries@[i as int].ack.message_chunk.id == k);
                    }
                    if exists|j: int|
                        0 <= j < i + 1 && #[trigger] self.table.entries@[j].ack.message_chunk.id == k
                            && self.table.entries@[j].deadline_ms <= now_ms {
                        let j = choose|j: int|
                            0 <= j < i + 1 && #[trigger] self.table.entries@[j].ack.message_chunk.id == k
                                && self.table.entries@[j].deadline_ms <= now_ms;
                        if j < i {
                            assert(before.contains(k));
                        }
                    }
                    if before.contains(k) {
                        let j = choose|j: int|
                            0 <= j < i && #[trigger] self.table.entries@[j].ack.message_chunk.id == k
                                && self.table.entries@[j].deadline_ms <= now_ms;
                        assert(0 <= j < i + 1);
                    }
                }
            }
            i = i + 1;
        }
        assert forall|k: FragmentIdentifier|
            ids@.contains(k) <==> (self@.contains_key(k) && self@[k].deadline_ms <= now_ms) by {
            if self@.contains_key(k) {
                let entries = self.table.entries@;
                let j = choose|j: int|
                    0 <= j < entries.len() && #[trigger] entries[j].ack.message_chunk.id == k;
                assert(self@[k] == pending_view(entries[j].ack, entries[j].deadline_ms));
            }
        }
        ids
    }

    /// The earliest deadline among the in-flight fragments, if any: the
    /// instant at which the next retransmission timer fires.
    pub fn next_deadline(&self) -> (next: Option<u64>)
        ensures
            next is None <==> self@.is_empty(),
            next matches Some(d) ==> {
                &&& exists|k: FragmentIdentifier| self@.contains_key(k) && self@[k].deadline_ms == d
                &&& forall|k: FragmentIdentifier| self@.contains_key(k) ==> d <= self@[k].deadline_ms
            },
    {
        proof {
            use_type_invariant(self);
            self.table.lemma_dom_is_ids();
        }
        let mut next: Option<u64> = None;
        let mut i: usize = 0;
        while i < self.table.entries.len()
            invariant
                self.table.wf(),
                i <= self.table.entries@.len(),
                next is None <==> i == 0,
                next matches Some(d) ==> {
                    &&& exists|j: int| 0 <= j < i && #[trigger] self.table.entries@[j].deadline_ms == d
                    &&& forall|j: int| 0 <= j < i ==> d <= #[trigger] self.table.entries@[j].deadline_ms
                },
            decreases self.table.entries@.len() - i,
        {
            let d = self.table.entries[i].deadline_ms;
            next = match next {
                Some(best) if best <= d => Some(best),
                _ => Some(d),
            };
            i = i + 1;
        }
        if self.table.entries.len() == 0 {
            assert(self@.dom() =~= Set::<FragmentIdentifier>::empty());
        } else {
            assert(self@.contains_key(self.table.entries@[0].ack.message_chunk.id));
        }
        if let Some(d) = next {
            let ghost entries = self.table.entries@;
            let ghost j = choose|j: int| 0 <= j < entries.len() && #[trigger] entries[j].deadline_ms == d;
            assert(self@.contains_key(entries[j].ack.message_chunk.id));
            assert forall|k: FragmentIdentifier| self@.contains_key(k) implies d
                <= self@[k].deadline_ms by {
                let x = choose|x: int|
                    0 <= x < entries.len() && #[trigger] entries[x].ack.message_chunk.id == k;
                assert(d <= entries[x].deadline_ms);
            }
        }
        next
    }

    /// Applies one command. An insertion starts tracking its entries, armed
    /// at `now_ms`; an acknowledgement removes its entry if present. A fired
    /// timer changes nothing here: its identifier is returned when it is
    /// still in flight, for the caller to resend it.
    pub fn apply(&mut self, action: Action, now_ms: u64) -> (to_resend: Option<FragmentIdentifier>)
        ensures
            final(self).margin() == old(self).margin(),
            match action {
                Action::InsertPending(acks) => to_resend is None && final(self)@ == with_inserted(
                    old(self)@,
                    acks@,
                    now_ms,
                    old(self).margin(),
                ),
                Action::RemoveAcknowledged(id) => to_resend is None && final(self)@ == old(
                    self,
                )@.remove(id),
                Action::RetransmitExpired(id) => final(self)@ == old(self)@ && (to_resend is Some
                    <==> old(self)@.contains_key(id)) && (to_resend matches Some(r) ==> r == id),
            },
    {
        match action {
            Action::InsertPending(acks) => {
                self.insert_pending(acks, now_ms);
                None
            },
            Action::RemoveAcknowledged(id) => {
                self.remove_acknowledged(id);
                None
            },
            Action::RetransmitExpired(id) => {
                if self.is_pending(id) {
                    Some(id)
                } else {
                    None
                }
            },
        }
    }

    /// First half of a retransmission: the timer of `id` fired. When `id` is
    /// still in flight and the identifier it would be resent under,
    /// `resent_id(id, new_set_id)`, is not, returns a copy of its chunk
    /// relabelled with that identifier and the recipient, to be prepared
    /// anew. Otherwise (already acknowledged, or the new identifier taken)
    /// returns `None`.
    pub fn begin_retransmission(&self, id: FragmentIdentifier, new_set_id: u64) -> (resend:
        Option<(MessageChunk, Recipient)>)
        ensures
            resend is Some <==> (self@.contains_key(id) && !self@.contains_key(
                resent_id(id, new_set_id),
            )),
            resend matches Some((chunk, recipient)) ==> {
                &&& chunk@.id == resent_id(id, new_set_id)
                &&& chunk@.payload == self@[id].chunk.payload
                &&& recipient == self@[id].recipient
            },
    {
        proof {
            use_type_invariant(self);
        }
        let new_id = FragmentIdentifier { set_id: new_set_id, ..id };
        match self.table.find(id) {
            None => None,
            Some(i) => {
                if self.table.find(new_id).is_some() {
                    return None;
                }
                let e = &self.table.entries[i];
                let payload = slice_to_vec(e.ack.message_chunk.payload.as_slice());
                Some((MessageChunk { id: new_id, payload }, e.ack.recipient))
            },
        }
    }

    /// Second half of a retransmission: `chunk` was prepared again as
    /// `prepared` and is sent at `now_ms`. When `expired_id` is still in
    /// flight and `chunk`'s identifier is not, the entry of `expired_id` is
    /// replaced by one for `chunk` in a single step, and the message to send
    /// is returned. Otherwise (an acknowledgement won the race) nothing
    /// changes and nothing is sent.
    pub fn complete_retransmission(
        &mut self,
        expired_id: FragmentIdentifier,
        chunk: MessageChunk,
        recipient: Recipient,
        prepared: PreparedFragment,
        now_ms: u64,
    ) -> (resent: Option<RealMessage>)
        ensures
            final(self).margin() == old(self).margin(),
            resent is Some <==> (old(self)@.contains_key(expired_id) && !old(self)@.contains_key(
                chunk.id,
            )),
            resent matches Some(m) ==> {
                &&& m.fragment_id == chunk.id
                &&& m.mix_packet == prepared.mix_packet
                &&& final(self)@ == old(self)@.remove(expired_id).insert(
                    chunk.id,
                    PendingView {
                        chunk: chunk@,
                        delay_ms: prepared.total_delay_ms,
                        recipient,
                        deadline_ms: retransmission_deadline(
                            now_ms,
                            prepared.total_delay_ms,
                            old(self).margin(),
                        ),
                    },
                )
            },
            resent is None ==> final(self)@ == old(self)@,
    {
        proof {
            use_type_invariant(&*self);
        }
        if self.table.find(expired_id).is_none() || self.table.find(chunk.id).is_some() {
            return None;
        }
        let new_id = chunk.id;
        let deadline = deadline_after(now_ms, prepared.total_delay_ms, self.ack_wait_margin_ms);
        let mut table = PendingTable::empty();
        std::mem::swap(&mut table, &mut self.table);
        let _ = table.take(expired_id);
        let ack = PendingAcknowledgement::new(chunk, prepared.total_delay_ms, recipient);
        table.store(ack, deadline);
        self.table = table;
        Some(RealMessage::new(prepared.mix_packet, new_id))
    }
}


/// Removing an identifier that is not pending leaves the pending map as it
/// was; removing any identifier leaves every other entry untouched, and
/// removing it a second time changes nothing more.
pub proof fn lemma_acknowledgement_idempotent(
    pending: Map<FragmentIdentifier, PendingView>,
    id: FragmentIdentifier,
)
    ensures
        !pending.contains_key(id) ==> pending.remove(id) == pending,
        pending.remove(id).remove(id) == pending.remove(id),
        forall|k: FragmentIdentifier|
            k != id ==> (#[trigger] pending.remove(id).contains_key(k) == pending.contains_key(k)
                && (pending.contains_key(k) ==> pending.remove(id)[k] == pending[k])),
{
    if !pending.contains_key(id) {
        assert(pending.remove(id) =~= pending);
    }
    assert(pending.remove(id).remove(id) =~= pending.remove(id));
}

/// A retransmission replaces the expired entry by the entry for the resent
/// fragment: afterwards the old identifier is gone, the new one is present,
/// the number of in-flight fragments is unchanged and every other entry is
/// untouched; the two are never both present.
pub proof fn lemma_retransmission_replaces(
    pending: Map<FragmentIdentifier, PendingView>,
    expired_id: FragmentIdentifier,
    new_id: FragmentIdentifier,
    entry: PendingView,
)
    requires
        pending.dom().finite(),
        pending.contains_key(expired_id),
        !pending.contains_key(new_id),
    ensures
        ({
            let after = pending.remove(expired_id).insert(new_id, entry);
            &&& !after.contains_key(expired_id)
            &&& after.contains_key(new_id)
            &&& after[new_id] == entry
            &&& after.len() == pending.len()
            &&& forall|k: FragmentIdentifier|
                k != expired_id && k != new_id ==> (#[trigger] after.contains_key(k)
                    == pending.contains_key(k) && (pending.contains_key(k) ==> after[k]
                    == pending[k]))
        }),
{
    let removed = pending.remove(expired_id);
    assert(removed.len() == pending.len() - 1);
    assert(!removed.contains_key(new_id));
}

/// The pending map after the acknowledgements for `ids` arrived one after
/// another.
pub open spec fn with_removed(
    pending: Map<FragmentIdentifier, PendingView>,
    ids: Seq<FragmentIdentifier>,
) -> Map<FragmentIdentifier, PendingView>
    decreases ids.len(),
{
    if ids.len() == 0 {
        pending
    } else {
        with_removed(pending, ids.drop_last()).remove(ids.last())
    }
}

/// The fragment identifiers of `acks`, in order.
pub open spec fn ack_ids(acks: Seq<PendingAcknowledgement>) -> Seq<FragmentIdentifier> {
    acks.map_values(|a: PendingAcknowledgement| a.message_chunk.id)
}

proof fn lemma_with_inserted_keys(
    pending: Map<FragmentIdentifier, PendingView>,
    acks: Seq<PendingAcknowledgement>,
    now_ms: u64,
    margin_ms: u64,
)
    ensures
        forall|k: FragmentIdentifier|
            #[trigger] with_inserted(pending, acks, now_ms, margin_ms).contains_key(k) <==> (
            pending.contains_key(k) || ack_ids(acks).contains(k)),
        forall|k: FragmentIdentifier|
            !ack_ids(acks).contains(k) && pending.contains_key(k) ==> #[trigger] with_inserted(
                pending,
                acks,
                now_ms,
                margin_ms,
            )[k] == pending[k],
    decreases acks.len(),
{
    if acks.len() == 0 {
        assert(ack_ids(acks) =~= Seq::<FragmentIdentifier>::empty());
    } else {
        let init = acks.drop_last();
        lemma_with_inserted_keys(pending, init, now_ms, margin_ms);
        let last = acks.last();
        assert(with_inserted(pending, acks, now_ms, margin_ms) == with_inserted(
            pending,
            init,
            now_ms,
            margin_ms,
        ).insert(
            last.message_chunk.id,
            pending_view(last, retransmission_deadline(now_ms, last.delay_ms, margin_ms)),
        ));
        assert(ack_ids(acks) =~= ack_ids(init).push(acks.last().message_chunk.id));
        assert forall|k: FragmentIdentifier| ack_ids(init).contains(k) implies ack_ids(
            acks,
        ).contains(k) by {
            let i = choose|i: int| 0 <= i < ack_ids(init).len() && ack_ids(init)[i] == k;
            assert(ack_ids(acks)[i] == k);
        }
        assert forall|k: FragmentIdentifier| ack_ids(acks).contains(k) implies (ack_ids(
            init,
        ).contains(k) || k == acks.last().message_chunk.id) by {
            let i = choose|i: int| 0 <= i < ack_ids(acks).len() && ack_ids(acks)[i] == k;
            if i < init.len() {
                assert(ack_ids(init)[i] == k);
            }
        }
        assert(ack_ids(acks)[acks.len() - 1] == acks.last().message_chunk.id);
    }
}

proof fn lemma_with_removed_keys(
    pending: Map<FragmentIdentifier, PendingView>,
    ids: Seq<FragmentIdentifier>,
)
    ensures
        forall|k: FragmentIdentifier|
            #[trigger] with_removed(pending, ids).contains_key(k) <==> (pending.contains_key(k)
                && !ids.contains(k)),
        forall|k: FragmentIdentifier|
            #[trigger] with_removed(pending, ids).contains_key(k) ==> with_removed(pending, ids)[k]
                == pending[k],
    decreases ids.len(),
{
    if ids.len() == 0 {
        assert(ids =~= Seq::<FragmentIdentifier>::empty());
    } else {
        let init = ids.drop_last();
        lemma_with_removed_keys(pending, init);
        assert(with_removed(pending, ids) == with_removed(pending, init).remove(ids.last()));
        assert forall|k: FragmentIdentifier| ids.contains(k) <==> (init.contains(k) || k
            == ids.last()) by {
            if ids.contains(k) {
                let i = choose|i: int| 0 <= i < ids.len() && ids[i] == k;
                if i < init.len() {
                    assert(init[i] == k);
                }
            }
            if init.contains(k) {
                let i = choose|i: int| 0 <= i < init.len() && init[i] == k;
                assert(ids[i] == k);
            }
            if k == ids.last() {
                assert(ids[ids.len() - 1] == k);
            }
        }
    }
}

/// Registering the fragments of a sent message adds exactly one entry per
/// fragment, keyed by its identifier, when their identifiers are pairwise
/// distinct and none is already in flight; once an acknowledgement has
/// arrived for each of them, the pending map is what it was before.
pub proof fn lemma_send_then_acknowledge_all(
    pending: Map<FragmentIdentifier, PendingView>,
    acks: Seq<PendingAcknowledgement>,
    now_ms: u64,
    margin_ms: u64,
)
    requires
        pending.dom().finite(),
        ack_ids(acks).no_duplicates(),
        forall|i: int| 0 <= i < acks.len() ==> !pending.contains_key(#[trigger] acks[i].message_chunk.id),
    ensures
        with_inserted(pending, acks, now_ms, margin_ms).dom() == pending.dom().union(
            ack_ids(acks).to_set(),
        ),
        with_inserted(pending, acks, now_ms, margin_ms).len() == pending.len() + acks.len(),
        with_removed(with_inserted(pending, acks, now_ms, margin_ms), ack_ids(acks)) == pending,
{
    let after = with_inserted(pending, acks, now_ms, margin_ms);
    lemma_with_inserted_keys(pending, acks, now_ms, margin_ms);
    lemma_with_removed_keys(after, ack_ids(acks));
    assert(after.dom() =~= pending.dom().union(ack_ids(acks).to_set()));
    assert forall|k: FragmentIdentifier| ack_ids(acks).contains(k) implies !pending.contains_key(k) by {
        let i = choose|i: int| 0 <= i < ack_ids(acks).len() && ack_ids(acks)[i] == k;
        assert(acks[i].message_chunk.id == k);
    }
    assert(pending.dom().disjoint(ack_ids(acks).to_set()));
    ack_ids(acks).unique_seq_to_set();
    vstd::set_lib::lemma_set_disjoint_lens(pending.dom(), ack_ids(acks).to_set());
    assert(with_removed(after, ack_ids(acks)) =~= pending);
}

/// A message of one fragment, sent while nothing else is in flight and
/// never acknowledged, is resent under a new identifier: afterwards exactly
/// the resent fragment is pending and the original identifier is not.
pub proof fn lemma_single_fragment_retransmitted(
    ack: PendingAcknowledgement,
    sent_ms: u64,
    margin_ms: u64,
    new_set_id: u64,
    entry: PendingView,
)
    requires
        new_set_id != ack.message_chunk.id.set_id,
    ensures
        ({
            let id = ack.message_chunk.id;
            let sent = with_inserted(Map::empty(), seq![ack], sent_ms, margin_ms);
            let resent = sent.remove(id).insert(resent_id(id, new_set_id), entry);
            &&& sent.dom() == set![id]
            &&& resent.dom() == set![resent_id(id, new_set_id)]
            &&& resent_id(id, new_set_id) != id
        }),
{
    let id = ack.message_chunk.id;
    let acks = seq![ack];
    assert(acks.drop_last() =~= Seq::<PendingAcknowledgement>::empty());
    let sent = with_inserted(Map::empty(), acks, sent_ms, margin_ms);
    assert(sent == with_inserted(Map::empty(), acks.drop_last(), sent_ms, margin_ms).insert(
        id,
        pending_view(ack, retransmission_deadline(sent_ms, ack.delay_ms, margin_ms)),
    ));
    assert(sent.dom() =~= set![id]);
    assert(sent.remove(id).insert(resent_id(id, new_set_id), entry).dom() =~= set![
        resent_id(id, new_set_id),
    ]);
}

} // verus!
