//! The per-channel message cache: a `BoundedVecDeque` of messages, which
//! drops its oldest message when a new one arrives and it is full.

use crate::obj::{Message, MessageView};
use bounded_vec_deque::BoundedVecDeque;
use std::collections::HashMap;
use vstd::prelude::*;

verus! {

broadcast use vstd::std_specs::hash::group_hash_axioms;

/// How many messages are cached per channel.
pub const MESSAGE_CACHE_PER_CHANNEL: usize = 1000;

/// `bounded_vec_deque::BoundedVecDeque`.
#[verifier::external_type_specification]
#[verifier::external_body]
#[verifier::reject_recursive_types(T)]
pub struct ExBoundedVecDeque<T>(BoundedVecDeque<T>);

/// The messages a cache holds, oldest first.
pub uninterp spec fn cached_items(q: BoundedVecDeque<Message>) -> Seq<MessageView>;

/// The most messages a cache keeps (the limit it was made with).
pub uninterp spec fn cache_limit(q: BoundedVecDeque<Message>) -> nat;

/// The messages after a push onto a cache holding `items` with limit `limit`:
/// nothing is kept with limit 0; a full cache drops its oldest message.
pub open spec fn bounded_push(items: Seq<MessageView>, limit: nat, m: MessageView) -> Seq<
    MessageView,
> {
    if limit == 0 {
        items
    } else if items.len() >= limit {
        items.skip(1).push(m)
    } else {
        items.push(m)
    }
}

/// A push never takes a cache past its limit, and (unless the limit is 0) the
/// pushed message is then the newest.
pub proof fn lemma_bounded_push(items: Seq<MessageView>, limit: nat, m: MessageView)
    requires
        items.len() <= limit,
    ensures
        bounded_push(items, limit, m).len() <= limit,
        limit > 0 ==> bounded_push(items, limit, m).last() == m,
{
}

/// Messages in strictly increasing order of id, so that no two share one.
pub open spec fn strictly_sorted_by_id(items: Seq<MessageView>) -> bool {
    forall|i: int, j: int| 0 <= i < j < items.len() ==> items[i].id < items[j].id
}

/// Messages ordered by id, oldest first.
pub open spec fn sorted_by_id(items: Seq<MessageView>) -> bool {
    forall|i: int, j: int| 0 <= i < j < items.len() ==> items[i].id <= items[j].id
}

/// `BoundedVecDeque::new`: an empty cache with the given limit.
#[verifier::external_body]
pub(crate) fn cache_new(max_len: usize) -> (q: BoundedVecDeque<Message>)
    ensures
        cached_items(q) == Seq::<MessageView>::empty(),
        cache_limit(q) == max_len,
{
    BoundedVecDeque::new(max_len)
}

/// `BoundedVecDeque::push_back`: as its source shows, with limit 0 the message
/// is handed back and nothing kept; when full, the oldest message is removed
/// (and handed back) before the new one is appended. The limit stays.
#[verifier::external_body]
pub(crate) fn cache_push(q: &mut BoundedVecDeque<Message>, m: Message) -> (r: Option<Message>)
    ensures
        cached_items(*final(q)) == bounded_push(cached_items(*old(q)), cache_limit(*old(q)), m@),
        cache_limit(*final(q)) == cache_limit(*old(q)),
{
    q.push_back(m)
}

/// The number of messages in a cache (`len`, through `Deref` to `VecDeque`).
#[verifier::external_body]
pub(crate) fn cache_len(q: &BoundedVecDeque<Message>) -> (r: usize)
    ensures
        r == cached_items(*q).len(),
{
    q.len()
}

/// The message at position `i` (`Index`).
#[verifier::external_body]
pub(crate) fn cache_get(q: &BoundedVecDeque<Message>, i: usize) -> (r: &Message)
    requires
        i < cached_items(*q).len(),
    ensures
        r@ == cached_items(*q)[i as int],
{
    &q[i]
}

/// The id of the message at position `i`.
pub open spec fn id_at(items: Seq<MessageView>, i: usize) -> u64 {
    items[i as int].id
}

/// Three-way comparison of two numbers.
pub fn compare_u64(a: u64, b: u64) -> (r: core::cmp::Ordering)
    ensures
        (r is Less) == (a < b),
        (r is Equal) == (a == b),
        (r is Greater) == (a > b),
{
    if a < b {
        core::cmp::Ordering::Less
    } else if a == b {
        core::cmp::Ordering::Equal
    } else {
        core::cmp::Ordering::Greater
    }
}

/// `VecDeque::binary_search_by` on message ids. As its documentation says:
/// `Ok` is the position of a message with the id; on a cache sorted by id, `Err`
/// means no message has it. Which position, and the answer on a cache not
/// sorted by id, depend on how the deque lays out its storage and are not
/// stated.
#[verifier::external_body]
pub(crate) fn cache_search(q: &BoundedVecDeque<Message>, wanted: u64) -> (r: Result<usize, usize>)
    ensures
        r matches Ok(i) ==> i < cached_items(*q).len() && id_at(cached_items(*q), i) == wanted,
        (r is Err && sorted_by_id(cached_items(*q))) ==> forall|i: int|
            0 <= i < cached_items(*q).len() ==> cached_items(*q)[i].id != wanted,
{
    q.binary_search_by(|m| compare_u64(m.id, wanted))
}

} // verus!

verus! {

/// `slice::sort_by` on `(id, count)` pairs, comparing counts. As its
/// documentation says: the result is a permutation of the pairs, ordered by
/// count.
#[verifier::external_body]
pub(crate) fn sort_by_count(v: &mut Vec<(u64, u64)>)
    ensures
        final(v)@.to_multiset() == old(v)@.to_multiset(),
        forall|i: int, j: int| 0 <= i < j < final(v)@.len() ==> final(v)@[i].1 <= final(v)@[j].1,
{
    v.sort_by(|a, b| compare_u64(a.1, b.1))
}

/// The message caches of all channels. Every channel's cache is made with
/// the limit [`MESSAGE_CACHE_PER_CHANNEL`], and so never holds more.
pub struct ChannelCaches {
    caches: HashMap<u64, BoundedVecDeque<Message>>,
}

impl ChannelCaches {
    /// Every cache has the per-channel limit and is within it.
    #[verifier::type_invariant]
    pub closed spec fn within_limits(self) -> bool {
        forall|ch: u64|
            #[trigger] self.caches@.contains_key(ch) ==> cache_limit(self.caches@[ch])
                == MESSAGE_CACHE_PER_CHANNEL as nat && cached_items(self.caches@[ch]).len()
                <= MESSAGE_CACHE_PER_CHANNEL
    }

    /// The messages cached for each channel, oldest first.
    pub closed spec fn items(self) -> Map<u64, Seq<MessageView>> {
        self.caches@.map_values(|q: BoundedVecDeque<Message>| cached_items(q))
    }

    /// The limit of each channel's cache.
    pub closed spec fn limits(self) -> Map<u64, nat> {
        self.caches@.map_values(|q: BoundedVecDeque<Message>| cache_limit(q))
    }

    /// What the invariant says of the caches' contents and limits.
    pub proof fn lemma_within_limits(self)
        requires
            self.within_limits(),
        ensures
            self.items().dom() == self.limits().dom(),
            forall|ch: u64|
                #[trigger] self.items().contains_key(ch) ==> self.limits()[ch]
                    == MESSAGE_CACHE_PER_CHANNEL as nat && self.items()[ch].len() <= self.limits()[ch],
    {
        assert(self.items().dom() =~= self.limits().dom());
    }

    /// No channel cached yet.
    pub fn new() -> (r: ChannelCaches)
        ensures
            r.items() == Map::<u64, Seq<MessageView>>::empty(),
            r.limits() == Map::<u64, nat>::empty(),
    {
        let r = ChannelCaches { caches: HashMap::new() };
        assert(r.items() =~= Map::<u64, Seq<MessageView>>::empty());
        assert(r.limits() =~= Map::<u64, nat>::empty());
        r
    }

    /// The cache of a channel, if it has one.
    pub fn get(&self, ch: u64) -> (r: Option<&BoundedVecDeque<Message>>)
        ensures
            r is Some <==> self.items().contains_key(ch),
            r matches Some(q) ==> cached_items(*q) == self.items()[ch] && cache_limit(*q)
                == self.limits()[ch],
    {
        self.caches.get(&ch)
    }

    /// The number of channels with a cache.
    pub fn len(&self) -> (r: usize)
        ensures
            r == self.items().dom().len(),
    {
        assert(self.items().dom() =~= self.caches@.dom());
        self.caches.len()
    }

    /// The caches, by channel.
    pub fn map(&self) -> (r: &HashMap<u64, BoundedVecDeque<Message>>)
        ensures
            r@.map_values(|q: BoundedVecDeque<Message>| cached_items(q)) == self.items(),
    {
        &self.caches
    }

    /// Caches a message in its channel's cache, a new cache (holding
    /// [`MESSAGE_CACHE_PER_CHANNEL`] messages) when the channel has none: a
    /// full cache drops its oldest message.
    pub fn push(&mut self, m: Message)
        ensures
            final(self).items() == old(self).items().insert(
                m@.channel_id,
                bounded_push(
                    if old(self).items().contains_key(m@.channel_id) {
                        old(self).items()[m@.channel_id]
                    } else {
                        Seq::empty()
                    },
                    if old(self).limits().contains_key(m@.channel_id) {
                        old(self).limits()[m@.channel_id]
                    } else {
                        MESSAGE_CACHE_PER_CHANNEL as nat
                    },
                    m@,
                ),
            ),
            final(self).limits() == old(self).limits().insert(
                m@.channel_id,
                if old(self).limits().contains_key(m@.channel_id) {
                    old(self).limits()[m@.channel_id]
                } else {
                    MESSAGE_CACHE_PER_CHANNEL as nat
                },
            ),
    {
        proof {
            use_type_invariant(&*self);
        }
        let ghost s_items = self.items();
        let ghost s_limits = self.limits();
        let ghost mv = m@;
        let ch = m.channel_id;
        let mut caches: HashMap<u64, BoundedVecDeque<Message>> = HashMap::new();
        std::mem::swap(&mut caches, &mut self.caches);
        let ghost old_caches = caches@;
        let mut q = match caches.remove(&ch) {
            Some(q) => q,
            None => cache_new(MESSAGE_CACHE_PER_CHANNEL),
        };
        let ghost items0 = cached_items(q);
        proof {
            lemma_bounded_push(items0, cache_limit(q), mv);
        }
        cache_push(&mut q, m);
        caches.insert(ch, q);
        proof {
            assert forall|c: u64| #[trigger] caches@.contains_key(c) implies cache_limit(caches@[c])
                == MESSAGE_CACHE_PER_CHANNEL as nat && cached_items(caches@[c]).len()
                <= MESSAGE_CACHE_PER_CHANNEL by {
                if c != ch {
                    assert(old_caches.contains_key(c));
                }
            }
        }
        self.caches = caches;
        assert(self.items() =~= s_items.insert(ch, cached_items(q)));
        assert(self.limits() =~= s_limits.insert(ch, cache_limit(q)));
    }
}

} // verus!
