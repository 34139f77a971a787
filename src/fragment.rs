use vstd::prelude::*;
use vstd::slice::{slice_subrange, slice_to_vec};

verus! {

/// Identifies one fragment of a split message: the message (set) it belongs
/// to, how many fragments that message was split into, and its position.
#[derive(Clone, Copy, Debug, PartialEq, Eq, Structural)]
pub struct FragmentIdentifier {
    pub set_id: u64,
    pub total_fragments: u64,
    pub current_fragment: u64,
}

/// One fragment of a split payload, kept in plaintext so that it can be
/// re-encrypted for a retransmission.
#[derive(Debug)]
pub struct MessageChunk {
    pub id: FragmentIdentifier,
    pub payload: Vec<u8>,
}

/// Mathematical value of a [`MessageChunk`].
pub struct ChunkView {
    pub id: FragmentIdentifier,
    pub payload: Seq<u8>,
}

impl View for MessageChunk {
    type V = ChunkView;

    open spec fn view(&self) -> ChunkView {
        ChunkView { id: self.id, payload: self.payload@ }
    }
}

/// Number of fragments a payload of `len` bytes is split into when each
/// fragment holds at most `cap` bytes.
pub open spec fn fragment_count(len: nat, cap: nat) -> nat {
    if len == 0 {
        0
    } else {
        ((len - 1) as nat / cap + 1) as nat
    }
}

/// Window `i` of `size` consecutive items, cut short at the end: the bytes
/// carried by fragment `i`, or the messages of batch `i`.
pub open spec fn window<T>(items: Seq<T>, size: nat, i: int) -> Seq<T> {
    let start = i * size;
    let end = if start + size <= items.len() {
        start + size
    } else {
        items.len() as int
    };
    items.subrange(start, end)
}

/// The fragments of `payload` under message id `set_id`, in index order.
pub open spec fn fragments_of(set_id: u64, payload: Seq<u8>, cap: nat) -> Seq<ChunkView> {
    let total = fragment_count(payload.len(), cap);
    Seq::new(
        total,
        |i: int|
            ChunkView {
                id: FragmentIdentifier {
                    set_id,
                    total_fragments: total as u64,
                    current_fragment: i as u64,
                },
                payload: window(payload, cap, i),
            },
    )
}

/// The payloads of `chunks` concatenated in sequence order.
pub open spec fn joined_payloads(chunks: Seq<ChunkView>) -> Seq<u8>
    decreases chunks.len(),
{
    if chunks.len() == 0 {
        Seq::empty()
    } else {
        joined_payloads(chunks.drop_last()) + chunks.last().payload
    }
}

/// The bytes that are split for a fresh message: the reply SURB, when one
/// is attached, followed by the content.
pub open spec fn outgoing_bytes(content: Seq<u8>, reply_surb: Option<Seq<u8>>) -> Seq<u8> {
    match reply_surb {
        Some(surb) => surb + content,
        None => content,
    }
}

/// The mathematical values of `chunks`, in order.
pub open spec fn chunk_views(chunks: Seq<MessageChunk>) -> Seq<ChunkView> {
    chunks.map_values(|c: MessageChunk| c@)
}

proof fn lemma_fragment_window(len: nat, cap: nat, i: int)
    requires
        cap > 0,
        0 <= i < fragment_count(len, cap),
    ensures
        i * cap < len,
        i + 1 < fragment_count(len, cap) ==> (i + 1) * cap < len,
        i + 1 == fragment_count(len, cap) ==> (i + 1) * cap >= len,
        fragment_count(len, cap) <= len,
{
    let q = (len - 1) as nat / cap;
    let r = (len - 1) as nat % cap;
    vstd::arithmetic::div_mod::lemma_fundamental_div_mod((len - 1) as int, cap as int);
    assert(0 <= r < cap);
    assert(len - 1 == cap * q + r);
    assert(i <= q);
    assert(i * cap <= q * cap) by (nonlinear_arith)
        requires
            i <= q,
            cap > 0,
    ;
    assert(q * cap == cap * q) by (nonlinear_arith);
    if i + 1 < fragment_count(len, cap) {
        assert((i + 1) * cap <= q * cap) by (nonlinear_arith)
            requires
                i + 1 <= q,
                cap > 0,
        ;
    }
    if i + 1 == fragment_count(len, cap) {
        assert((i + 1) * cap == q * cap + cap) by (nonlinear_arith)
            requires
                i == q,
        ;
    }
    assert(q <= q * cap) by (nonlinear_arith)
        requires
            cap >= 1,
            q >= 0,
    ;
}

/// Splits `payload` into fragments of at most `capacity` bytes, all labelled
/// with message id `set_id`, in fragment-index order.
pub fn split_into_fragments(set_id: u64, payload: &Vec<u8>, capacity: usize) -> (chunks: Vec<
    MessageChunk,
>)
    requires
        capacity > 0,
    ensures
        chunk_views(chunks@) == fragments_of(set_id, payload@, capacity as nat),
{
    let len = payload.len();
    let total: usize = if len == 0 {
        0
    } else {
        (len - 1) / capacity + 1
    };
    proof {
        if total > 0 {
            lemma_fragment_window(len as nat, capacity as nat, 0);
        }
    }
    let ghost spec_chunks = fragments_of(set_id, payload@, capacity as nat);
    let mut chunks: Vec<MessageChunk> = Vec::new();
    let mut i: usize = 0;
    while i < total
        invariant
            capacity > 0,
            len == payload@.len(),
            total == fragment_count(len as nat, capacity as nat),
            total <= len,
            i <= total,
            spec_chunks == fragments_of(set_id, payload@, capacity as nat),
            chunks@.len() == i,
            forall|k: int| 0 <= k < i ==> #[trigger] chunks@[k]@ == spec_chunks[k],
        decreases total - i,
    {
        proof {
            lemma_fragment_window(len as nat, capacity as nat, i as int);
        }
        let start: usize = i * capacity;
        let end: usize = if len - start > capacity {
            start + capacity
        } else {
            len
        };
        let bytes = slice_to_vec(slice_subrange(payload.as_slice(), start, end));
        let id = FragmentIdentifier {
            set_id,
            total_fragments: total as u64,
            current_fragment: i as u64,
        };
        chunks.push(MessageChunk { id, payload: bytes });
        i = i + 1;
    }
    assert(chunk_views(chunks@) =~= spec_chunks);
    chunks
}

proof fn lemma_joined_prefix(set_id: u64, payload: Seq<u8>, cap: nat, k: int)
    requires
        cap > 0,
        0 <= k <= fragment_count(payload.len(), cap),
    ensures
        joined_payloads(fragments_of(set_id, payload, cap).take(k)) == payload.subrange(
            0,
            if k < fragment_count(payload.len(), cap) {
                k * cap
            } else {
                payload.len() as int
            },
        ),
    decreases k,
{
    let frags = fragments_of(set_id, payload, cap);
    let n = fragment_count(payload.len(), cap);
    if k == 0 {
        assert(frags.take(0) =~= Seq::empty());
        if n == 0 {
            assert(payload.subrange(0, payload.len() as int) =~= Seq::empty());
        } else {
            assert(payload.subrange(0, 0) =~= Seq::empty());
        }
    } else {
        lemma_joined_prefix(set_id, payload, cap, k - 1);
        lemma_fragment_window(payload.len(), cap, k - 1);
        assert(frags.take(k).drop_last() =~= frags.take(k - 1));
        let start = (k - 1) * cap;
        assert(k * cap == (k - 1) * cap + cap) by (nonlinear_arith);
        let end = if start + cap <= payload.len() {
            start + cap
        } else {
            payload.len() as int
        };
        assert(frags.take(k).last().payload == payload.subrange(start, end));
        assert(payload.subrange(0, start) + payload.subrange(start, end) =~= payload.subrange(
            0,
            end,
        ));
    }
}

/// Splitting a payload and concatenating the fragments' plaintext in
/// fragment-index order gives back the payload; fragment `i` carries index
/// `i`, the common message id and the common fragment count.
pub proof fn lemma_fragmentation_round_trip(set_id: u64, payload: Seq<u8>, cap: nat)
    requires
        cap > 0,
        payload.len() <= usize::MAX,
    ensures
        joined_payloads(fragments_of(set_id, payload, cap)) == payload,
        forall|i: int|
            0 <= i < fragments_of(set_id, payload, cap).len() ==> {
                let id = #[trigger] fragments_of(set_id, payload, cap)[i].id;
                &&& id.current_fragment == i
                &&& id.set_id == set_id
                &&& id.total_fragments == fragments_of(set_id, payload, cap).len()
            },
{
    let frags = fragments_of(set_id, payload, cap);
    let n = fragment_count(payload.len(), cap);
    lemma_joined_prefix(set_id, payload, cap, n as int);
    assert(frags.take(n as int) =~= frags);
    assert(payload.subrange(0, payload.len() as int) =~= payload);
    if n > 0 {
        lemma_fragment_window(payload.len(), cap, 0);
    }
    assert forall|i: int| 0 <= i < frags.len() implies #[trigger] frags[i].id.current_fragment
        == i by {
        lemma_fragment_window(payload.len(), cap, i);
    }
    assert(n <= u64::MAX);
}

/// The fragments of one split carry pairwise distinct identifiers.
pub proof fn lemma_fragment_ids_distinct(set_id: u64, payload: Seq<u8>, cap: nat)
    requires
        cap > 0,
        payload.len() <= usize::MAX,
    ensures
        forall|i: int, j: int|
            0 <= i < fragments_of(set_id, payload, cap).len() && 0 <= j < fragments_of(
                set_id,
                payload,
                cap,
            ).len() && i != j ==> #[trigger] fragments_of(set_id, payload, cap)[i].id
                != #[trigger] fragments_of(set_id, payload, cap)[j].id,
{
    lemma_fragmentation_round_trip(set_id, payload, cap);
}

/// Concatenates the plaintext of `chunks` in the order given.
pub fn join_fragments(chunks: &Vec<MessageChunk>) -> (joined: Vec<u8>)
    ensures
        joined@ == joined_payloads(chunk_views(chunks@)),
{
    let mut joined: Vec<u8> = Vec::new();
    let mut i: usize = 0;
    while i < chunks.len()
        invariant
            i <= chunks@.len(),
            joined@ == joined_payloads(chunk_views(chunks@).take(i as int)),
        decreases chunks@.len() - i,
    {
        proof {
            assert(chunk_views(chunks@).take(i as int + 1).drop_last() =~= chunk_views(
                chunks@,
            ).take(i as int));
        }
        append_bytes(&mut joined, &chunks[i].payload);
        i = i + 1;
    }
    assert(chunk_views(chunks@).take(i as int) =~= chunk_views(chunks@));
    joined
}

/// Appends a copy of `src` to `dst`.
fn append_bytes(dst: &mut Vec<u8>, src: &Vec<u8>)
    ensures
        final(dst)@ == old(dst)@ + src@,
{
    let ghost start = dst@;
    let mut i: usize = 0;
    while i < src.len()
        invariant
            i <= src@.len(),
            dst@ == start + src@.take(i as int),
        decreases src@.len() - i,
    {
        dst.push(src[i]);
        i = i + 1;
        assert(dst@ =~= start + src@.take(i as int));
    }
    assert(src@.take(i as int) =~= src@);
}

/// The bytes to split for a message that carries a reply SURB: the SURB,
/// then `content`.
pub fn attach_reply_surb(content: &Vec<u8>, reply_surb: &Vec<u8>) -> (framed: Vec<u8>)
    ensures
        framed@ == outgoing_bytes(content@, Some(reply_surb@)),
{
    let mut framed: Vec<u8> = Vec::new();
    append_bytes(&mut framed, reply_surb);
    append_bytes(&mut framed, content);
    assert(framed@ =~= reply_surb@ + content@);
    framed
}

} // verus!
