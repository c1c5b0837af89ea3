//! The outbox store: a durable FIFO-ish queue of pending entries.
//!
//! Presence in the store is the pending state. Entries are claimed oldest
//! first, removed by the claim, and can be put back by rolling the claim back.

use vstd::prelude::*;

verus! {

/// One pending unit of work, immutable once created.
#[derive(Debug)]
pub struct OutboxEntry {
    /// Identifier assigned by the store at insert time.
    pub id: u128,
    /// Destination channel name.
    pub topic: String,
    /// Ordering/sharding key at the broker; absent means the broker's default.
    pub partition_key: Option<String>,
    /// Out-of-band metadata as name/value pairs.
    pub headers: Option<Vec<(String, String)>>,
    /// Serialized body; absent for a payload-less notification.
    pub payload: Option<String>,
    /// Creation time in microseconds since the epoch; the claim ordering key.
    pub created: i64,
}

/// What a producer hands the store to create an entry.
#[derive(Debug)]
pub struct CreateOutboxEntry {
    pub topic: String,
    pub partition_key: Option<String>,
    pub headers: Option<Vec<(String, String)>>,
    pub payload: Option<String>,
}

/// Why a write to the store failed.
#[derive(Debug, PartialEq, Eq, Structural, Clone, Copy)]
pub enum StoreError {
    /// Every identifier has been handed out; the insert is refused.
    IdsExhausted,
    /// Two headers of the entry share a name; headers map names to values.
    DuplicateHeader,
}

/// No two pairs share a name.
pub open spec fn names_unique(h: Seq<(String, String)>) -> bool {
    forall|i: int, j: int| 0 <= i < j < h.len() ==> h[i].0@ != h[j].0@
}

/// The headers of `c`, if any, repeat a name.
pub open spec fn repeats_header(c: CreateOutboxEntry) -> bool {
    match c.headers {
        Some(h) => !names_unique(h@),
        None => false,
    }
}

/// Whether two pairs of `h` share a name.
pub fn has_duplicate_names(h: &Vec<(String, String)>) -> (r: bool)
    ensures
        r == !names_unique(h@),
{
    let mut j: usize = 1;
    while j < h.len()
        invariant
            1 <= j,
            forall|a: int, b: int| 0 <= a < b < j && b < h@.len() ==> h@[a].0@ != h@[b].0@,
        decreases h@.len() - j,
    {
        let mut i: usize = 0;
        while i < j
            invariant
                j < h@.len(),
                i <= j,
                forall|a: int| 0 <= a < i ==> h@[a].0@ != h@[j as int].0@,
            decreases j - i,
        {
            if h[i].0 == h[j].0 {
                return true;
            }
            i = i + 1;
        }
        j = j + 1;
    }
    false
}

/// Entries in claim order: identifiers strictly increase and creation times
/// never decrease along the sequence.
pub open spec fn ordered(s: Seq<OutboxEntry>) -> bool {
    forall|i: int, j: int|
        0 <= i < j < s.len() ==> s[i].id < s[j].id && s[i].created <= s[j].created
}

/// How many entries a claim of at most `max_n` takes from `s`.
pub open spec fn claim_len(s: Seq<OutboxEntry>, max_n: nat) -> nat {
    if max_n < s.len() {
        max_n
    } else {
        s.len()
    }
}

/// The entry that the store records for `c`.
pub open spec fn entry_of(c: CreateOutboxEntry, id: u128, created: i64) -> OutboxEntry {
    OutboxEntry {
        id,
        topic: c.topic,
        partition_key: c.partition_key,
        headers: c.headers,
        payload: c.payload,
        created,
    }
}

/// The headers of an entry as a sequence of pairs, if any.
pub open spec fn headers_seq(h: Option<Vec<(String, String)>>) -> Option<Seq<(String, String)>> {
    match h {
        Some(v) => Some(v@),
        None => None,
    }
}

/// Two entries hold the same data.
pub open spec fn same_entry(a: OutboxEntry, b: OutboxEntry) -> bool {
    &&& a.id == b.id
    &&& a.topic == b.topic
    &&& a.partition_key == b.partition_key
    &&& headers_seq(a.headers) == headers_seq(b.headers)
    &&& a.payload == b.payload
    &&& a.created == b.created
}

/// An in-memory outbox table.
pub struct OutboxStore {
    entries: Vec<OutboxEntry>,
    next_id: u128,
    last_created: i64,
}

impl View for OutboxStore {
    type V = Seq<OutboxEntry>;

    closed spec fn view(&self) -> Seq<OutboxEntry> {
        self.entries@
    }
}

impl OutboxStore {
    /// The identifier the next insert receives.
    pub closed spec fn next_id(&self) -> u128 {
        self.next_id
    }

    /// The latest creation time handed out so far.
    pub closed spec fn last_created(&self) -> i64 {
        self.last_created
    }

    /// Pending entries are ordered, and every identifier and creation time
    /// in the table was handed out already.
    pub closed spec fn wf(&self) -> bool {
        &&& ordered(self.entries@)
        &&& forall|i: int|
            0 <= i < self.entries@.len() ==> #[trigger] self.entries@[i].id < self.next_id
                && self.entries@[i].created <= self.last_created
    }

    /// A batch can go back in front of the table: it was taken from it.
    pub open spec fn can_restore(&self, batch: Seq<OutboxEntry>) -> bool {
        &&& ordered(batch + self@)
        &&& forall|i: int|
            0 <= i < batch.len() ==> #[trigger] batch[i].id < self.next_id()
                && batch[i].created <= self.last_created()
    }

    /// A well-formed store holds its entries in claim order.
    pub proof fn lemma_wf_ordered(&self)
        requires
            self.wf(),
        ensures
            ordered(self@),
    {
    }

    /// An empty table.
    pub fn new() -> (r: OutboxStore)
        ensures
            r.wf(),
            r@ == Seq::<OutboxEntry>::empty(),
            r.next_id() == 0,
            r.last_created() == i64::MIN,
    {
        OutboxStore { entries: Vec::new(), next_id: 0, last_created: i64::MIN }
    }

    /// The pending entries, oldest first.
    pub fn entries(&self) -> (r: &Vec<OutboxEntry>)
        ensures
            r@ == self@,
    {
        &self.entries
    }

    /// Number of pending entries.
    pub fn len(&self) -> (r: usize)
        ensures
            r == self@.len(),
    {
        self.entries.len()
    }

    /// Whether no entry is pending.
    pub fn is_empty(&self) -> (r: bool)
        ensures
            r == (self@.len() == 0),
    {
        self.entries.len() == 0
    }

    /// Puts a claimed batch back in front of the table, undoing the claim.
    pub fn restore_batch(&mut self, batch: Vec<OutboxEntry>)
        requires
            old(self).wf(),
            old(self).can_restore(batch@),
        ensures
            final(self).wf(),
            final(self)@ == batch@ + old(self)@,
            final(self).next_id() == old(self).next_id(),
            final(self).last_created() == old(self).last_created(),
    {
        let mut batch = batch;
        let ghost b = batch@;
        let ghost s = self.entries@;
        batch.append(&mut self.entries);
        self.entries = batch;
        assert forall|i: int| 0 <= i < self.entries@.len() implies #[trigger] self.entries@[i].id
            < self.next_id && self.entries@[i].created <= self.last_created by {
            if i >= b.len() {
                assert(self.entries@[i] == s[i - b.len()]);
            } else {
                assert(self.entries@[i] == b[i]);
            }
        }
    }
}

/// A copy of an optional string.
pub fn copy_opt_string(s: &Option<String>) -> (r: Option<String>)
    ensures
        r == *s,
{
    match s {
        Some(v) => Some(v.clone()),
        None => None,
    }
}

/// A copy of a list of name/value pairs.
pub fn copy_pairs(v: &Vec<(String, String)>) -> (r: Vec<(String, String)>)
    ensures
        r@ == v@,
{
    let mut r: Vec<(String, String)> = Vec::new();
    let mut i: usize = 0;
    while i < v.len()
        invariant
            i <= v@.len(),
            r@ == v@.take(i as int),
        decreases v@.len() - i,
    {
        let k = v[i].0.clone();
        let x = v[i].1.clone();
        r.push((k, x));
        assert(v@.take(i as int + 1) == v@.take(i as int).push(v@[i as int]));
        i = i + 1;
    }
    assert(v@.take(v@.len() as int) == v@);
    r
}

impl OutboxEntry {
    /// A field-by-field copy of the entry.
    pub fn copy(&self) -> (r: OutboxEntry)
        ensures
            same_entry(r, *self),
    {
        let headers = match &self.headers {
            Some(h) => Some(copy_pairs(h)),
            None => None,
        };
        OutboxEntry {
            id: self.id,
            topic: self.topic.clone(),
            partition_key: copy_opt_string(&self.partition_key),
            headers,
            payload: copy_opt_string(&self.payload),
            created: self.created,
        }
    }
}

/// Inserts a new entry built from `entry`, stamped with `now` or, if the
/// clock went backwards, with the latest creation time already handed out.
/// Refused, leaving the store as it was, when identifiers have run out or
/// when a header name repeats.
pub fn create_outbox_entry(store: &mut OutboxStore, entry: CreateOutboxEntry, now: i64) -> (r:
    Result<OutboxEntry, StoreError>)
    requires
        old(store).wf(),
    ensures
        final(store).wf(),
        r is Err <==> old(store).next_id() == u128::MAX || repeats_header(entry),
        r is Err ==> *final(store) == *old(store),
        old(store).next_id() == u128::MAX ==> r == Err::<OutboxEntry, StoreError>(
            StoreError::IdsExhausted,
        ),
        old(store).next_id() != u128::MAX && repeats_header(entry) ==> r == Err::<
            OutboxEntry,
            StoreError,
        >(StoreError::DuplicateHeader),
        r is Ok ==> {
            let created = if now > old(store).last_created() {
                now
            } else {
                old(store).last_created()
            };
            &&& same_entry(r->Ok_0, entry_of(entry, old(store).next_id(), created))
            &&& final(store)@ == old(store)@.push(entry_of(entry, old(store).next_id(), created))
            &&& final(store).next_id() == old(store).next_id() + 1
            &&& final(store).last_created() == created
        },
{
    if store.next_id == u128::MAX {
        return Err(StoreError::IdsExhausted);
    }
    let repeated = match &entry.headers {
        Some(h) => has_duplicate_names(h),
        None => false,
    };
    if repeated {
        return Err(StoreError::DuplicateHeader);
    }
    let created = if now > store.last_created {
        now
    } else {
        store.last_created
    };
    let e = OutboxEntry {
        id: store.next_id,
        topic: entry.topic,
        partition_key: entry.partition_key,
        headers: entry.headers,
        payload: entry.payload,
        created,
    };
    let out = e.copy();
    let ghost s = store.entries@;
    store.entries.push(e);
    store.next_id = store.next_id + 1;
    store.last_created = created;
    assert forall|i: int| 0 <= i < store.entries@.len() implies #[trigger] store.entries@[i].id
        < store.next_id && store.entries@[i].created <= store.last_created by {
        if i < s.len() {
            assert(store.entries@[i] == s[i]);
        }
    }
    Ok(out)
}

/// Atomically claims up to `batch_size` of the oldest entries: they leave the
/// table and are returned in claim order.
pub fn query_outbox_entry_batch(store: &mut OutboxStore, batch_size: u64) -> (r: Vec<OutboxEntry>)
    requires
        old(store).wf(),
    ensures
        final(store).wf(),
        r@ == old(store)@.take(claim_len(old(store)@, batch_size as nat) as int),
        final(store)@ == old(store)@.skip(claim_len(old(store)@, batch_size as nat) as int),
        final(store).next_id() == old(store).next_id(),
        final(store).last_created() == old(store).last_created(),
        ordered(r@),
        final(store).can_restore(r@),
{
    let n = store.entries.len();
    let k: usize = if (batch_size as u128) < (n as u128) {
        batch_size as usize
    } else {
        n
    };
    let ghost s = store.entries@;
    let mut batch = store.entries.split_off(k);
    std::mem::swap(&mut batch, &mut store.entries);
    assert(batch@ + store.entries@ =~= s);
    assert forall|i: int| 0 <= i < store.entries@.len() implies #[trigger] store.entries@[i].id
        < store.next_id && store.entries@[i].created <= store.last_created by {
        assert(store.entries@[i] == s[i + k]);
    }
    batch
}

/// The batches that claims of at most `sizes[0]`, `sizes[1]`, ... entries
/// return, one after the other, from a store holding `s`.
pub open spec fn successive_claims(s: Seq<OutboxEntry>, sizes: Seq<nat>) -> Seq<Seq<OutboxEntry>>
    decreases sizes.len(),
{
    if sizes.len() == 0 {
        Seq::empty()
    } else {
        let k = claim_len(s, sizes[0]);
        seq![s.take(k as int)] + successive_claims(s.skip(k as int), sizes.skip(1))
    }
}

/// The batches that claims of at most `b` entries return until the store
/// holding `s` is empty.
pub open spec fn drain(s: Seq<OutboxEntry>, b: nat) -> Seq<Seq<OutboxEntry>>
    decreases s.len(),
{
    if s.len() == 0 || b == 0 {
        Seq::empty()
    } else {
        let k = claim_len(s, b);
        seq![s.take(k as int)] + drain(s.skip(k as int), b)
    }
}

/// The batches laid end to end.
pub open spec fn concat_all(ss: Seq<Seq<OutboxEntry>>) -> Seq<OutboxEntry>
    decreases ss.len(),
{
    if ss.len() == 0 {
        Seq::empty()
    } else {
        ss[0] + concat_all(ss.skip(1))
    }
}

proof fn lemma_claims_come_from(s: Seq<OutboxEntry>, sizes: Seq<nat>, i: int, a: int) -> (p: int)
    requires
        0 <= i < successive_claims(s, sizes).len(),
        0 <= a < successive_claims(s, sizes)[i].len(),
    ensures
        0 <= p < s.len(),
        successive_claims(s, sizes)[i][a] == s[p],
        i > 0 ==> p >= claim_len(s, sizes[0]),
    decreases sizes.len(),
{
    let k = claim_len(s, sizes[0]);
    let rest = successive_claims(s.skip(k as int), sizes.skip(1));
    assert(successive_claims(s, sizes) == seq![s.take(k as int)] + rest);
    if i == 0 {
        a
    } else {
        assert(successive_claims(s, sizes)[i] == rest[i - 1]);
        let q = lemma_claims_come_from(s.skip(k as int), sizes.skip(1), i - 1, a);
        q + k
    }
}

/// No double claim: however many claims the store serves one after another,
/// on behalf of any number of workers, no entry is returned twice. Every
/// entry of an earlier batch comes before every entry of a later one.
pub proof fn lemma_no_double_claim(s: Seq<OutboxEntry>, sizes: Seq<nat>, i: int, j: int, a: int, b: int)
    requires
        ordered(s),
        0 <= i < successive_claims(s, sizes).len(),
        0 <= j < successive_claims(s, sizes).len(),
        0 <= a < successive_claims(s, sizes)[i].len(),
        0 <= b < successive_claims(s, sizes)[j].len(),
        i != j || a != b,
    ensures
        successive_claims(s, sizes)[i][a].id != successive_claims(s, sizes)[j][b].id,
        i < j ==> successive_claims(s, sizes)[i][a].id < successive_claims(s, sizes)[j][b].id
            && successive_claims(s, sizes)[i][a].created <= successive_claims(s, sizes)[j][b].created,
    decreases sizes.len(),
{
    let k = claim_len(s, sizes[0]);
    let t = s.skip(k as int);
    let rest = successive_claims(t, sizes.skip(1));
    let all = successive_claims(s, sizes);
    assert(all == seq![s.take(k as int)] + rest);
    if i == 0 && j == 0 {
        assert(all[0] == s.take(k as int));
    } else if i == 0 {
        let q = lemma_claims_come_from(s, sizes, j, b);
        assert(all[0][a] == s[a]);
    } else if j == 0 {
        let q = lemma_claims_come_from(s, sizes, i, a);
        assert(all[0][b] == s[b]);
    } else {
        assert(ordered(t));
        assert(all[i] == rest[i - 1]);
        assert(all[j] == rest[j - 1]);
        lemma_no_double_claim(t, sizes.skip(1), i - 1, j - 1, a, b);
    }
}

/// FIFO order: when `s[j]` is claimed, every entry created strictly before
/// it is claimed in the same batch, ahead of it.
pub proof fn lemma_fifo_claim(s: Seq<OutboxEntry>, n: nat, i: int, j: int)
    requires
        ordered(s),
        0 <= i < s.len(),
        0 <= j < claim_len(s, n),
        s[i].created < s[j].created,
    ensures
        i < j,
        s.take(claim_len(s, n) as int)[i] == s[i],
        s.take(claim_len(s, n) as int)[j] == s[j],
{
}

/// Round trip: claiming in batches of `b` until the store is empty returns
/// every pending entry exactly once, in claim order.
pub proof fn lemma_drain_round_trip(s: Seq<OutboxEntry>, b: nat)
    requires
        b > 0,
        ordered(s),
    ensures
        concat_all(drain(s, b)) == s,
        forall|x: int, y: int|
            0 <= x < y < s.len() ==> #[trigger] concat_all(drain(s, b))[x].id != #[trigger] concat_all(
                drain(s, b),
            )[y].id,
    decreases s.len(),
{
    if s.len() > 0 {
        let k = claim_len(s, b);
        let t = s.skip(k as int);
        let d = drain(s, b);
        assert(d == seq![s.take(k as int)] + drain(t, b));
        assert(d.skip(1) == drain(t, b));
        assert(ordered(t));
        lemma_drain_round_trip(t, b);
        assert(concat_all(d) == s.take(k as int) + concat_all(drain(t, b)));
        assert(s.take(k as int) + t =~= s);
    }
}

} // verus!
