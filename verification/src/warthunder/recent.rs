//! What was seen lately, so that nothing is handled twice.

use vstd::prelude::*;
use crate::text;
use crate::time::{Duration, Instant};

verus! {

/// No text occurs twice.
pub open spec fn distinct(s: Seq<Seq<char>>) -> bool {
    forall|i: int, j: int| 0 <= i < j < s.len() ==> #[trigger] s[i] != #[trigger] s[j]
}

/// The last messages, at most `max_len` of them, the oldest first.
#[derive(Debug)]
pub struct RecentMessageCache {
    pub max_len: usize,
    pub queue: Vec<String>,
}

impl View for RecentMessageCache {
    type V = Seq<Seq<char>>;

    open spec fn view(&self) -> Seq<Seq<char>> {
        text::texts(self.queue@)
    }
}

/// `keys` with `key` behind them, and without the oldest where that is more
/// than `max_len`; as it was where `key` is there already.
pub open spec fn remembered(keys: Seq<Seq<char>>, max_len: int, key: Seq<char>) -> Seq<Seq<char>> {
    if max_len == 0 || keys.contains(key) {
        keys
    } else if keys.len() < max_len {
        keys.push(key)
    } else {
        keys.push(key).drop_first()
    }
}

impl RecentMessageCache {
    pub open spec fn wf(self) -> bool {
        &&& self@.len() <= self.max_len
        &&& distinct(self@)
    }

    pub fn new(max_len: usize) -> (r: Self)
        ensures
            r.wf(),
            r.max_len == max_len,
            r@ == Seq::<Seq<char>>::empty(),
    {
        let r = RecentMessageCache { max_len, queue: Vec::new() };
        assert(r@ == Seq::<Seq<char>>::empty());
        r
    }

    pub fn contains(&self, key: &str) -> (r: bool)
        ensures
            r == self@.contains(key@),
    {
        text::holds_text(&self.queue, key)
    }

    pub fn insert(&mut self, key: String)
        requires
            old(self).wf(),
        ensures
            final(self).wf(),
            final(self).max_len == old(self).max_len,
            final(self)@ == remembered(old(self)@, old(self).max_len as int, key@),
    {
        if self.max_len == 0 || text::holds_text(&self.queue, key.as_str()) {
            return;
        }
        let ghost before = self@;
        self.queue.push(key);
        assert(self@ == before.push(key@));
        assert(distinct(self@)) by {
            assert forall|i: int, j: int| 0 <= i < j < self@.len() implies #[trigger] self@[i]
                != #[trigger] self@[j] by {
                if j == before.len() {
                    assert(before.contains(before[i]));
                } else {
                    assert(before[i] != before[j]);
                }
            }
        }
        if self.queue.len() > self.max_len {
            let ghost full = self@;
            self.queue.remove(0);
            assert(self@ == full.drop_first());
            assert(distinct(self@)) by {
                assert forall|i: int, j: int| 0 <= i < j < self@.len() implies #[trigger] self@[i]
                    != #[trigger] self@[j] by {
                    assert(full[i + 1] != full[j + 1]);
                }
            }
        }
    }

    pub fn len(&self) -> (r: usize)
        ensures
            r == self@.len(),
    {
        self.queue.len()
    }
}

/// A message is known right after it was remembered, as long as the cache
/// holds anything at all.
pub proof fn lemma_remembered_is_known(keys: Seq<Seq<char>>, max_len: int, key: Seq<char>)
    requires
        max_len >= 1,
        keys.len() <= max_len,
    ensures
        remembered(keys, max_len, key).contains(key),
{
    let after = remembered(keys, max_len, key);
    if !keys.contains(key) {
        assert(after.last() == key);
    }
}

/// A message stays known until `max_len` further messages were remembered.
pub proof fn lemma_remembering_forgets_only_the_oldest(
    keys: Seq<Seq<char>>,
    max_len: int,
    key: Seq<char>,
    i: int,
)
    requires
        keys.len() <= max_len,
        0 < i < keys.len(),
    ensures
        remembered(keys, max_len, key).contains(keys[i]),
{
    let after = remembered(keys, max_len, key);
    if max_len == 0 || keys.contains(key) {
        assert(after[i] == keys[i]);
    } else if keys.len() < max_len {
        assert(after[i] == keys[i]);
    } else {
        assert(after[i - 1] == keys[i]);
    }
}

/// The events seen within the last `ttl`, in the order in which they came.
#[derive(Debug)]
pub struct RecentEventCache {
    pub ttl: Duration,
    pub queue: Vec<(String, Instant)>,
}

pub open spec fn seen_keys(s: Seq<(Seq<char>, Instant)>) -> Seq<Seq<char>> {
    s.map_values(|e: (Seq<char>, Instant)| e.0)
}

impl View for RecentEventCache {
    type V = Seq<(Seq<char>, Instant)>;

    open spec fn view(&self) -> Seq<(Seq<char>, Instant)> {
        self.queue@.map_values(|e: (String, Instant)| (e.0@, e.1))
    }
}

/// What is left once the oldest entries that were seen more than `ttl` ago
/// are dropped, up to the first that was not.
pub open spec fn pruned(s: Seq<(Seq<char>, Instant)>, ttl: Duration, now: Instant) -> Seq<
    (Seq<char>, Instant),
>
    decreases s.len(),
{
    if s.len() > 0 && now.since(s[0].1) > ttl.nanos {
        pruned(s.drop_first(), ttl, now)
    } else {
        s
    }
}

/// `s` with `key` seen at `now`, unless it is there already.
pub open spec fn noted(s: Seq<(Seq<char>, Instant)>, key: Seq<char>, now: Instant) -> Seq<
    (Seq<char>, Instant),
> {
    if seen_keys(s).contains(key) {
        s
    } else {
        s.push((key, now))
    }
}

proof fn lemma_pruned_is_suffix(s: Seq<(Seq<char>, Instant)>, ttl: Duration, now: Instant)
    ensures
        pruned(s, ttl, now).len() <= s.len(),
        pruned(s, ttl, now) == s.subrange(s.len() - pruned(s, ttl, now).len(), s.len() as int),
    decreases s.len(),
{
    if s.len() > 0 && now.since(s[0].1) > ttl.nanos {
        let t = s.drop_first();
        lemma_pruned_is_suffix(t, ttl, now);
        let n = pruned(t, ttl, now).len();
        assert(t.subrange(t.len() - n, t.len() as int) == s.subrange(s.len() - n, s.len() as int));
    } else {
        assert(s.subrange(0, s.len() as int) == s);
    }
}

impl RecentEventCache {
    pub open spec fn wf(self) -> bool {
        distinct(seen_keys(self@))
    }

    pub fn new(ttl: Duration) -> (r: Self)
        ensures
            r.wf(),
            r.ttl == ttl,
            r@ == Seq::<(Seq<char>, Instant)>::empty(),
    {
        let r = RecentEventCache { ttl, queue: Vec::new() };
        assert(r@ == Seq::<(Seq<char>, Instant)>::empty());
        r
    }

    fn prune(&mut self, now: Instant)
        requires
            old(self).wf(),
        ensures
            final(self).wf(),
            final(self).ttl == old(self).ttl,
            final(self)@ == pruned(old(self)@, old(self).ttl, now),
    {
        let ghost start = self@;
        while self.queue.len() > 0 && now.duration_since(self.queue[0].1).nanos > self.ttl.nanos
            invariant
                self.wf(),
                self.ttl == old(self).ttl,
                pruned(self@, self.ttl, now) == pruned(start, self.ttl, now),
            decreases self.queue.len(),
        {
            let ghost full = self@;
            self.queue.remove(0);
            assert(self@ == full.drop_first());
            assert(distinct(seen_keys(self@))) by {
                assert forall|i: int, j: int|
                    0 <= i < j < seen_keys(self@).len() implies #[trigger] seen_keys(self@)[i]
                    != #[trigger] seen_keys(self@)[j] by {
                    assert(seen_keys(full)[i + 1] != seen_keys(full)[j + 1]);
                }
            }
        }
    }

    fn holds_key(&self, key: &str) -> (r: bool)
        ensures
            r == seen_keys(self@).contains(key@),
    {
        let mut i: usize = 0;
        while i < self.queue.len()
            invariant
                i <= self.queue.len(),
                forall|j: int| 0 <= j < i ==> #[trigger] seen_keys(self@)[j] != key@,
            decreases self.queue.len() - i,
        {
            if text::same(self.queue[i].0.as_str(), key) {
                assert(seen_keys(self@)[i as int] == key@);
                return true;
            }
            i = i + 1;
        }
        false
    }

    pub fn contains(&mut self, key: &str, now: Instant) -> (r: bool)
        requires
            old(self).wf(),
        ensures
            final(self).wf(),
            final(self).ttl == old(self).ttl,
            final(self)@ == pruned(old(self)@, old(self).ttl, now),
            r == seen_keys(final(self)@).contains(key@),
    {
        self.prune(now);
        self.holds_key(key)
    }

    pub fn insert(&mut self, key: String, now: Instant)
        requires
            old(self).wf(),
        ensures
            final(self).wf(),
            final(self).ttl == old(self).ttl,
            final(self)@ == noted(pruned(old(self)@, old(self).ttl, now), key@, now),
    {
        self.prune(now);
        if self.holds_key(key.as_str()) {
            return;
        }
        let ghost before = self@;
        self.queue.push((key, now));
        assert(self@ == before.push((key@, now)));
        assert(distinct(seen_keys(self@))) by {
            assert forall|i: int, j: int|
                0 <= i < j < seen_keys(self@).len() implies #[trigger] seen_keys(self@)[i]
                != #[trigger] seen_keys(self@)[j] by {
                if j == before.len() {
                    assert(seen_keys(before)[i] == seen_keys(self@)[i]);
                } else {
                    assert(seen_keys(before)[i] != seen_keys(before)[j]);
                }
            }
        }
    }

    /// Notes the event; says whether it was new.
    pub fn insert_new(&mut self, key: String, now: Instant) -> (r: bool)
        requires
            old(self).wf(),
        ensures
            final(self).wf(),
            final(self).ttl == old(self).ttl,
            r == !seen_keys(pruned(old(self)@, old(self).ttl, now)).contains(key@),
            final(self)@ == noted(pruned(old(self)@, old(self).ttl, now), key@, now),
    {
        if self.contains(key.as_str(), now) {
            false
        } else {
            proof {
                lemma_pruned_twice(old(self)@, self.ttl, now);
            }
            self.insert(key, now);
            true
        }
    }

    pub fn len(&mut self, now: Instant) -> (r: usize)
        requires
            old(self).wf(),
        ensures
            final(self).wf(),
            final(self).ttl == old(self).ttl,
            final(self)@ == pruned(old(self)@, old(self).ttl, now),
            r == final(self)@.len(),
    {
        self.prune(now);
        self.queue.len()
    }
}

/// Dropping what is too old once more at the same time changes nothing.
pub proof fn lemma_pruned_twice(s: Seq<(Seq<char>, Instant)>, ttl: Duration, now: Instant)
    ensures
        pruned(pruned(s, ttl, now), ttl, now) == pruned(s, ttl, now),
    decreases s.len(),
{
    if s.len() > 0 && now.since(s[0].1) > ttl.nanos {
        lemma_pruned_twice(s.drop_first(), ttl, now);
    }
}

/// An event noted as new at `seen` is still known at any later time up to
/// `ttl` after it.
pub proof fn lemma_new_event_is_known_for_its_ttl(
    s: Seq<(Seq<char>, Instant)>,
    ttl: Duration,
    key: Seq<char>,
    seen: Instant,
    later: Instant,
)
    requires
        !seen_keys(s).contains(key),
        later.since(seen) <= ttl.nanos,
    ensures
        seen_keys(pruned(noted(s, key, seen), ttl, later)).contains(key),
{
    let full = noted(s, key, seen);
    let left = pruned(full, ttl, later);
    assert(full == s.push((key, seen)));
    lemma_prune_keeps_last(full, ttl, later);
    assert(seen_keys(left).last() == key);
}

proof fn lemma_prune_keeps_last(s: Seq<(Seq<char>, Instant)>, ttl: Duration, now: Instant)
    requires
        s.len() > 0,
        now.since(s.last().1) <= ttl.nanos,
    ensures
        pruned(s, ttl, now).len() > 0,
        pruned(s, ttl, now).last() == s.last(),
    decreases s.len(),
{
    if now.since(s[0].1) > ttl.nanos {
        assert(s.drop_first().last() == s.last());
        lemma_prune_keeps_last(s.drop_first(), ttl, now);
    }
}

/// On a clock that does not go back, an event is new again once more than
/// `ttl` has passed since it was noted.
pub proof fn lemma_event_is_new_after_its_ttl(
    s: Seq<(Seq<char>, Instant)>,
    ttl: Duration,
    key: Seq<char>,
    seen: Instant,
    later: Instant,
)
    requires
        !seen_keys(s).contains(key),
        forall|i: int| 0 <= i < s.len() ==> (#[trigger] s[i]).1.nanos <= seen.nanos,
        later.since(seen) > ttl.nanos,
    ensures
        pruned(noted(s, key, seen), ttl, later).len() == 0,
{
    let full = noted(s, key, seen);
    assert(full == s.push((key, seen)));
    assert forall|i: int| 0 <= i < full.len() implies later.since((#[trigger] full[i]).1)
        > ttl.nanos by {
        if i < s.len() {
            assert(full[i] == s[i]);
        }
    }
    lemma_prune_drops_all(full, ttl, later);
}

proof fn lemma_prune_drops_all(s: Seq<(Seq<char>, Instant)>, ttl: Duration, now: Instant)
    requires
        forall|i: int| 0 <= i < s.len() ==> now.since((#[trigger] s[i]).1) > ttl.nanos,
    ensures
        pruned(s, ttl, now).len() == 0,
    decreases s.len(),
{
    if s.len() > 0 {
        assert forall|i: int| 0 <= i < s.drop_first().len() implies now.since(
            (#[trigger] s.drop_first()[i]).1,
        ) > ttl.nanos by {
            assert(s[i + 1] == s.drop_first()[i]);
        }
        lemma_prune_drops_all(s.drop_first(), ttl, now);
    }
}

/// An event that is known stays known until more than `ttl` has passed since it
/// was seen, whatever else is noted.
pub proof fn lemma_known_event_stays_known(
    s: Seq<(Seq<char>, Instant)>,
    ttl: Duration,
    i: int,
    other: Seq<char>,
    now: Instant,
)
    requires
        0 <= i < s.len(),
        now.since(s[i].1) <= ttl.nanos,
    ensures
        noted(pruned(s, ttl, now), other, now).contains(s[i]),
        seen_keys(noted(pruned(s, ttl, now), other, now)).contains(s[i].0),
{
    lemma_prune_keeps(s, ttl, i, now);
    let left = pruned(s, ttl, now);
    let after = noted(left, other, now);
    let k = choose|k: int| 0 <= k < left.len() && left[k] == s[i];
    assert(after[k] == s[i]);
    assert(seen_keys(after)[k] == s[i].0);
}

proof fn lemma_prune_keeps(s: Seq<(Seq<char>, Instant)>, ttl: Duration, i: int, now: Instant)
    requires
        0 <= i < s.len(),
        now.since(s[i].1) <= ttl.nanos,
    ensures
        pruned(s, ttl, now).contains(s[i]),
    decreases s.len(),
{
    if now.since(s[0].1) > ttl.nanos {
        assert(s.drop_first()[i - 1] == s[i]);
        lemma_prune_keeps(s.drop_first(), ttl, i - 1, now);
    } else {
        assert(s.contains(s[i]));
    }
}

/// What is kept was there.
pub proof fn lemma_pruned_is_part(s: Seq<(Seq<char>, Instant)>, ttl: Duration, now: Instant)
    ensures
        forall|i: int|
            0 <= i < pruned(s, ttl, now).len() ==> s.contains(#[trigger] pruned(s, ttl, now)[i]),
{
    lemma_pruned_is_suffix(s, ttl, now);
    let kept = pruned(s, ttl, now);
    assert forall|i: int| 0 <= i < kept.len() implies s.contains(#[trigger] kept[i]) by {
        assert(s[s.len() - kept.len() + i] == kept[i]);
    }
}

}
