use std::collections::HashMap;
use std::hash::Hash;
use rand::{IsaacRng, Rng, SeedableRng, ThreadRng};
use vstd::prelude::*;
use vstd::std_specs::hash::{group_hash_axioms, obeys_key_model};
use crate::net::rfc6298::RetransmissionTimerAlgorithm;

verus! {

broadcast use group_hash_axioms;

/// How many times an unanswered request is sent again before it is given up.
pub const MAX_RETRANSMISSIONS: usize = 3;

/// Request ids are 31-bit: the top bit of the header word marks responses.
pub const REQUEST_ID_MASK: u32 = 0x7fff_ffff;

#[verifier::external_type_specification]
#[verifier::external_body]
pub struct ExIsaacRng(IsaacRng);

/// The next number of the generator.
///
/// Calls `rand::Rng::next_u32` on an ISAAC generator. Nothing is claimed of
/// the number: it is pseudo-random.
#[verifier::external_body]
fn isaac_next_u32(rng: &mut IsaacRng) -> u32 {
    rng.next_u32()
}

#[verifier::external_type_specification]
#[verifier::external_body]
pub struct ExThreadRng(ThreadRng);

/// The thread-local generator.
///
/// Calls `rand::thread_rng`. Nothing is claimed of the generator, whose
/// state is opaque.
#[verifier::external_body]
fn thread_rng() -> ThreadRng {
    rand::thread_rng()
}

/// The next number of the thread-local generator.
///
/// Calls `rand::Rng::next_u32` on the thread-local generator. Nothing is
/// claimed of the number: it is random.
#[verifier::external_body]
fn thread_rng_next_u32(rng: &mut ThreadRng) -> u32 {
    rng.next_u32()
}

/// The ISAAC generator that the seed `seed` gives. A seeded generator is a
/// function of its seed alone.
pub uninterp spec fn isaac_seeded(seed: Seq<u32>) -> IsaacRng;

/// An ISAAC generator seeded with `seed`.
///
/// Calls `rand::SeedableRng::from_seed` for `IsaacRng`, which fills the
/// generator's state from the seed words alone; the contract names that
/// generator `isaac_seeded(seed)` and claims nothing else of it.
#[verifier::external_body]
fn isaac_from_seed(seed: &[u32]) -> (rng: IsaacRng)
    ensures
        rng == isaac_seeded(seed@),
{
    IsaacRng::from_seed(seed)
}

/// The generator of request ids, seeded with two words drawn from the
/// thread-local generator.
pub fn new_request_id_rng() -> (rng: IsaacRng)
    ensures
        exists|a: u32, b: u32| rng == isaac_seeded(seq![a, b]),
{
    let mut seed: [u32; 2] = [0u32, 32];
    let mut rng = thread_rng();
    let mut i: usize = 0;
    while i < 2
        invariant
            i <= 2,
        decreases 2 - i,
    {
        seed[i] = thread_rng_next_u32(&mut rng);
        i = i + 1;
    }
    let r = isaac_from_seed(seed.as_slice());
    assert(seed@ =~= seq![seed[0], seed[1]]);
    r
}

/// The id that a draw `raw` from the generator gives: its low 31 bits, when
/// no inquiry awaiting a response uses that id; otherwise `None`, and
/// another draw is needed.
pub fn request_id_from_draw<V>(raw: u32, waiting: &HashMap<u32, V>) -> (id: Option<u32>)
    ensures
        id == if waiting@.contains_key((raw % 0x8000_0000) as u32) {
            None::<u32>
        } else {
            Some((raw % 0x8000_0000) as u32)
        },
{
    let id = raw & REQUEST_ID_MASK;
    assert(raw & 0x7fff_ffffu32 == raw % 0x8000_0000) by (bit_vector);
    if waiting.contains_key(&id) {
        None
    } else {
        Some(id)
    }
}

/// Picks an id for a new request that no request awaiting its response
/// uses: random 31-bit numbers are drawn until a free one comes up (and,
/// should `u32::MAX` draws in a row all be taken, the ids are tried in
/// order, so that a free id is always found).
pub fn choose_request_id<V>(rng: &mut IsaacRng, waiting: &HashMap<u32, V>) -> (id: u32)
    requires
        exists|i: u32| i <= REQUEST_ID_MASK && !waiting@.contains_key(i),
    ensures
        id <= REQUEST_ID_MASK,
        !waiting@.contains_key(id),
{
    let mut attempts: u32 = 0;
    while attempts < u32::MAX
        invariant
            attempts <= u32::MAX,
        decreases u32::MAX - attempts,
    {
        let raw = isaac_next_u32(rng);
        if let Some(id) = request_id_from_draw(raw, waiting) {
            return id;
        }
        attempts = attempts + 1;
    }
    let mut i: u32 = 0;
    while i < REQUEST_ID_MASK
        invariant
            i <= REQUEST_ID_MASK,
            forall|j: u32| j < i ==> waiting@.contains_key(j),
        decreases REQUEST_ID_MASK - i,
    {
        if !waiting.contains_key(&i) {
            return i;
        }
        i = i + 1;
    }
    if !waiting.contains_key(&i) {
        return i;
    }
    assert(forall|j: u32| j <= REQUEST_ID_MASK ==> waiting@.contains_key(j));
    i
}

/// The timeout before the next retransmission of a request to `key` that
/// has been sent `retransmit_count` times after the first, or `None` when
/// it is to be given up.
pub fn retransmission_timeout<K, A: RetransmissionTimerAlgorithm<K>>(
    rto: &A,
    key: &K,
    retransmit_count: usize,
) -> (timeout: Option<u32>)
    requires
        retransmit_count < MAX_RETRANSMISSIONS ==> rto.timeout_defined(*key, (retransmit_count + 1) as u32),
    ensures
        retransmit_count >= MAX_RETRANSMISSIONS ==> timeout is None,
        retransmit_count < MAX_RETRANSMISSIONS ==> (timeout matches Some(t) && t == rto.timeout(
            *key,
            (retransmit_count + 1) as u32,
        )),
{
    if retransmit_count < MAX_RETRANSMISSIONS {
        let attempt = (retransmit_count + 1) as u32;
        Some(rto.get_rto(key, attempt))
    } else {
        None
    }
}

/// The round-trip time, in ms, of a request sent at `transmit_time` and
/// answered at `now` (ms on a monotonic clock), cut to 32 bits.
pub fn round_trip_ms(transmit_time: u64, now: u64) -> (rtt: u32)
    requires
        transmit_time <= now,
    ensures
        rtt == (now - transmit_time) as u32,
{
    (now - transmit_time) as u32
}

/// An inquiry awaiting its response: the destination `key` by which round
/// trips are estimated, what the caller keeps with it (the request bytes and
/// the callback), when it was first sent (ms on a monotonic clock) and how
/// many times it has been sent again.
pub struct Pending<K, E> {
    pub key: K,
    pub entry: E,
    pub transmit_time: u64,
    pub retransmit_count: usize,
}

/// What to do when the timer of inquiry `id` fires.
pub enum TimeoutStep<K, E> {
    /// The inquiry is answered or given up already: stop the timer.
    Finished,
    /// Send the request again and wait `timeout` ms more.
    Resend { timeout: u32 },
    /// Give up: the inquiry, taken out of the table, gets no response.
    GiveUp(Pending<K, E>),
}

/// The inquiries awaiting their responses, by request id. Each one leaves
/// the table once: taken out for its response, for giving up, or because its
/// request could not be sent; so its callback is handed out at most once.
pub struct PendingInquiries<K, E> {
    waiting: HashMap<u32, Pending<K, E>>,
}

impl<K, E> PendingInquiries<K, E> {
    /// The inquiries awaiting a response, by request id.
    pub closed spec fn waiting(&self) -> Map<u32, Pending<K, E>> {
        self.waiting@
    }

    /// A table with no inquiry.
    pub fn new() -> (t: PendingInquiries<K, E>)
        ensures
            t.waiting() == Map::<u32, Pending<K, E>>::empty(),
    {
        PendingInquiries { waiting: HashMap::new() }
    }

    /// How many inquiries await a response.
    pub fn len(&self) -> (n: usize)
        ensures
            n == self.waiting().len(),
    {
        self.waiting.len()
    }

    /// An id for a new request, used by no inquiry awaiting a response (see
    /// `choose_request_id`).
    pub fn fresh_id(&self, rng: &mut IsaacRng) -> (id: u32)
        requires
            self.waiting().len() <= REQUEST_ID_MASK,
        ensures
            id <= REQUEST_ID_MASK,
            !self.waiting().contains_key(id),
    {
        proof {
            lemma_free_id_exists(self.waiting@.dom());
        }
        choose_request_id(rng, &self.waiting)
    }

    /// Records inquiry `id` to `key`, first sent at `transmit_time`.
    pub fn insert(&mut self, id: u32, key: K, entry: E, transmit_time: u64)
        requires
            !old(self).waiting().contains_key(id),
        ensures
            final(self).waiting() == old(self).waiting().insert(
                id,
                Pending { key, entry, transmit_time, retransmit_count: 0 },
            ),
    {
        self.waiting.insert(id, Pending { key, entry, transmit_time, retransmit_count: 0 });
    }

    /// The inquiry `id`, if it still awaits a response.
    pub fn get(&self, id: u32) -> (p: Option<&Pending<K, E>>)
        ensures
            match p {
                Some(q) => self.waiting().contains_key(id) && *q == self.waiting()[id],
                None => !self.waiting().contains_key(id),
            },
    {
        self.waiting.get(&id)
    }

    /// Takes inquiry `id` out of the table, if it is there: for its
    /// response, for giving up on it, or because it could not be sent.
    /// Afterwards the table no longer holds it, so it is taken at most once.
    pub fn take(&mut self, id: u32) -> (p: Option<Pending<K, E>>)
        ensures
            final(self).waiting() == old(self).waiting().remove(id),
            !final(self).waiting().contains_key(id),
            match p {
                Some(q) => old(self).waiting().contains_key(id) && q == old(self).waiting()[id],
                None => !old(self).waiting().contains_key(id),
            },
    {
        let p = self.waiting.remove(&id);
        assert(self.waiting@ =~= old(self).waiting@.remove(id));
        p
    }

    /// Counts one more retransmission of inquiry `id` and returns how many
    /// there were before, or `None` when it no longer awaits a response.
    /// The count wraps around, as an atomic counter does.
    pub fn count_retransmission(&mut self, id: u32) -> (before: Option<usize>)
        ensures
            match before {
                Some(c) => {
                    &&& old(self).waiting().contains_key(id)
                    &&& c == old(self).waiting()[id].retransmit_count
                    &&& final(self).waiting() == old(self).waiting().insert(
                        id,
                        Pending {
                            key: old(self).waiting()[id].key,
                            entry: old(self).waiting()[id].entry,
                            transmit_time: old(self).waiting()[id].transmit_time,
                            retransmit_count: c.wrapping_add(1),
                        },
                    )
                },
                None => !old(self).waiting().contains_key(id) && final(self).waiting() == old(self).waiting(),
            },
    {
        match self.waiting.remove(&id) {
            Some(p) => {
                let c = p.retransmit_count;
                self.waiting.insert(
                    id,
                    Pending {
                        key: p.key,
                        entry: p.entry,
                        transmit_time: p.transmit_time,
                        retransmit_count: c.wrapping_add(1),
                    },
                );
                assert(self.waiting@ =~= old(self).waiting@.insert(
                    id,
                    Pending {
                        key: old(self).waiting@[id].key,
                        entry: old(self).waiting@[id].entry,
                        transmit_time: old(self).waiting@[id].transmit_time,
                        retransmit_count: c.wrapping_add(1),
                    },
                ));
                Some(c)
            },
            None => None,
        }
    }

    /// The response to request `id` arrived at `now`: takes the inquiry out
    /// of the table and records its round trip, with its retransmission
    /// count, in `rto`; returns the inquiry, whose callback gets the
    /// response. A response to no awaited inquiry changes nothing.
    pub fn answer<A: RetransmissionTimerAlgorithm<K>>(&mut self, rto: &mut A, id: u32, now: u64) -> (p: Option<
        Pending<K, E>,
    >)
        requires
            old(self).waiting().contains_key(id) ==> {
                let q = old(self).waiting()[id];
                &&& q.transmit_time <= now
                &&& old(rto).accepts_sample(
                    q.key,
                    (now - q.transmit_time) as u32,
                    q.retransmit_count as u32,
                )
            },
        ensures
            final(self).waiting() == old(self).waiting().remove(id),
            match p {
                Some(q) => {
                    &&& old(self).waiting().contains_key(id)
                    &&& q == old(self).waiting()[id]
                    &&& final(rto).records_sample(
                        *old(rto),
                        q.key,
                        (now - q.transmit_time) as u32,
                        q.retransmit_count as u32,
                    )
                },
                None => !old(self).waiting().contains_key(id) && *final(rto) == *old(rto),
            },
    {
        let p = self.take(id);
        match p {
            Some(q) => {
                let rtt = round_trip_ms(q.transmit_time, now);
                rto.add_sample(&q.key, q.transmit_time, rtt, q.retransmit_count as u32);
                Some(q)
            },
            None => None,
        }
    }

    /// The timer of inquiry `id` fired: counts a retransmission and, while
    /// fewer than `MAX_RETRANSMISSIONS` were made, asks for the request to be
    /// sent again with the backed-off timeout; after that, takes the inquiry
    /// out to give up on it. An inquiry no longer awaited stops the timer.
    pub fn on_timeout<A: RetransmissionTimerAlgorithm<K>>(&mut self, rto: &A, id: u32) -> (step: TimeoutStep<K, E>)
        requires
            old(self).waiting().contains_key(id) && old(self).waiting()[id].retransmit_count
                < MAX_RETRANSMISSIONS ==> rto.timeout_defined(
                old(self).waiting()[id].key,
                (old(self).waiting()[id].retransmit_count + 1) as u32,
            ),
        ensures
            ({
                let w = old(self).waiting();
                if !w.contains_key(id) {
                    &&& step is Finished
                    &&& final(self).waiting() == w
                } else if w[id].retransmit_count < MAX_RETRANSMISSIONS {
                    &&& step matches TimeoutStep::Resend { timeout } && timeout == rto.timeout(
                        w[id].key,
                        (w[id].retransmit_count + 1) as u32,
                    )
                    &&& final(self).waiting().contains_key(id)
                    &&& final(self).waiting()[id].retransmit_count == w[id].retransmit_count + 1
                    &&& final(self).waiting()[id].entry == w[id].entry
                    &&& final(self).waiting().remove(id) == w.remove(id)
                } else {
                    &&& step matches TimeoutStep::GiveUp(q) && q.entry == w[id].entry
                    &&& final(self).waiting() == w.remove(id)
                }
            }),
    {
        let count = match self.count_retransmission(id) {
            None => return TimeoutStep::Finished,
            Some(c) => c,
        };
        if count < MAX_RETRANSMISSIONS {
            let q = self.get(id).unwrap();
            let timeout = retransmission_timeout(rto, &q.key, count).unwrap();
            proof {
                assert(self.waiting@.remove(id) =~= old(self).waiting@.remove(id));
            }
            TimeoutStep::Resend { timeout }
        } else {
            let q = self.take(id).unwrap();
            proof {
                assert(self.waiting@ =~= old(self).waiting@.remove(id));
            }
            TimeoutStep::GiveUp(q)
        }
    }
}

/// With fewer than 2^31 ids taken, some 31-bit id is free.
proof fn lemma_free_id_exists(taken: Set<u32>)
    requires
        taken.finite(),
        taken.len() <= REQUEST_ID_MASK,
    ensures
        exists|i: u32| i <= REQUEST_ID_MASK && !taken.contains(i),
{
    if forall|i: u32| i <= REQUEST_ID_MASK ==> taken.contains(i) {
        let all = Set::new(|i: u32| i <= REQUEST_ID_MASK);
        assert(all.subset_of(taken));
        lemma_u32_prefix_len(REQUEST_ID_MASK as nat);
        vstd::set_lib::lemma_len_subset(all, taken);
    }
}

/// The set of `u32` values up to `n` has `n + 1` elements.
proof fn lemma_u32_prefix_len(n: nat)
    requires
        n <= u32::MAX,
    ensures
        Set::new(|i: u32| i <= n).finite(),
        Set::new(|i: u32| i <= n).len() == n + 1,
    decreases n,
{
    let s = Set::new(|i: u32| i <= n);
    if n == 0 {
        assert(s =~= Set::empty().insert(0u32));
    } else {
        lemma_u32_prefix_len((n - 1) as nat);
        let t = Set::new(|i: u32| i <= (n - 1) as nat);
        assert(s =~= t.insert(n as u32));
    }
}

/// A registered request handler, with the types of request and response it
/// serves.
pub struct HandlerEntry<K, H> {
    pub handler: H,
    pub req_type: K,
    pub res_type: K,
}

/// The request handlers of a socket, by request-type id, and the id under
/// which each request type is registered (with its response type).
pub struct HandlerRegistry<K: Hash + Eq, H> {
    handler_types: HashMap<K, (u32, K)>,
    handlers: HashMap<u32, HandlerEntry<K, H>>,
}

impl<K: Hash + Eq, H> HandlerRegistry<K, H> {
    /// The request types hash and compare as the model of hash maps expects.
    #[verifier::type_invariant]
    spec fn keys_behave(self) -> bool {
        obeys_key_model::<K>()
    }
}

impl<K: Copy + Hash + Eq, H> HandlerRegistry<K, H> {
    /// For each registered request type: its id and its response type.
    pub closed spec fn types(&self) -> Map<K, (u32, K)> {
        self.handler_types@
    }

    /// The handler registered under each id.
    pub closed spec fn handlers(&self) -> Map<u32, HandlerEntry<K, H>> {
        self.handlers@
    }

    /// A registry with nothing registered.
    pub fn new() -> (r: HandlerRegistry<K, H>)
        requires
            obeys_key_model::<K>(),
        ensures
            r.types() == Map::<K, (u32, K)>::empty(),
            r.handlers() == Map::<u32, HandlerEntry<K, H>>::empty(),
    {
        HandlerRegistry { handler_types: HashMap::new(), handlers: HashMap::new() }
    }

    /// Registers `handler` under `id` for requests of type `req_type`
    /// answered with `res_type`. Refused, changing nothing, when the request
    /// type or the id is already registered.
    pub fn register(&mut self, id: u32, req_type: K, res_type: K, handler: H) -> (ok: bool)
        ensures
            ok == (!old(self).types().contains_key(req_type) && !old(self).handlers().contains_key(id)),
            ok ==> final(self).types() == old(self).types().insert(req_type, (id, res_type)),
            ok ==> final(self).handlers() == old(self).handlers().insert(
                id,
                HandlerEntry { handler, req_type, res_type },
            ),
            !ok ==> final(self).types() == old(self).types(),
            !ok ==> final(self).handlers() == old(self).handlers(),
    {
        proof {
            use_type_invariant(&*self);
        }
        if self.handler_types.contains_key(&req_type) {
            return false;
        }
        let mut types = HashMap::new();
        std::mem::swap(&mut types, &mut self.handler_types);
        types.insert(req_type, (id, res_type));
        if self.handlers.contains_key(&id) {
            types.remove(&req_type);
            assert(types@ =~= old(self).handler_types@);
            self.handler_types = types;
            return false;
        }
        self.handler_types = types;
        let mut handlers = HashMap::new();
        std::mem::swap(&mut handlers, &mut self.handlers);
        handlers.insert(id, HandlerEntry { handler, req_type, res_type });
        self.handlers = handlers;
        true
    }

    /// The id under which requests of type `req_type` are sent, if that type
    /// is registered.
    pub fn request_type_id(&self, req_type: &K) -> (id: Option<u32>)
        ensures
            match id {
                Some(i) => self.types().contains_key(*req_type) && self.types()[*req_type].0 == i,
                None => !self.types().contains_key(*req_type),
            },
    {
        proof {
            use_type_invariant(self);
        }
        match self.handler_types.get(req_type) {
            Some(entry) => Some(entry.0),
            None => None,
        }
    }

    /// The handler for requests sent under `type_id`, if one is registered.
    pub fn handler(&self, type_id: u32) -> (h: Option<&H>)
        ensures
            match h {
                Some(f) => self.handlers().contains_key(type_id) && *f == self.handlers()[type_id].handler,
                None => !self.handlers().contains_key(type_id),
            },
    {
        match self.handlers.get(&type_id) {
            Some(entry) => Some(&entry.handler),
            None => None,
        }
    }
}

} // verus!
