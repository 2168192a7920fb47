use vstd::prelude::*;

verus! {

/// The key under which a rumor waits to be spread: its kind and the id of
/// its subject.
pub struct RumorKey {
    pub kind: String,
    pub id: String,
}

/// The mathematical value of a `RumorKey`.
pub struct RumorKeyView {
    pub kind: Seq<char>,
    pub id: Seq<char>,
}

impl View for RumorKey {
    type V = RumorKeyView;

    open spec fn view(&self) -> RumorKeyView {
        RumorKeyView { kind: self.kind@, id: self.id@ }
    }
}

impl RumorKey {
    pub fn new(kind: &str, id: &str) -> (r: RumorKey)
        ensures
            r@.kind == kind@,
            r@.id == id@,
    {
        RumorKey { kind: kind.to_owned(), id: id.to_owned() }
    }

    fn same(&self, other: &RumorKey) -> (r: bool)
        ensures
            r == (self@ == other@),
    {
        self.kind == other.kind && self.id == other.id
    }
}

struct Waiting {
    key: RumorKey,
    sends: u64,
}

/// Rumors waiting to be spread, in the order they arrived, each with the
/// number of times it was sent.
pub struct RumorLog {
    waiting: Vec<Waiting>,
}

/// No key waits twice.
pub open spec fn keys_unique(s: Seq<(RumorKeyView, u64)>) -> bool {
    forall|i: int, j: int| 0 <= i < j < s.len() ==> s[i].0 != s[j].0
}

/// The log `s` after `k` was queued: a waiting key keeps its place and is
/// owed all its sends again; a new one joins at the back.
pub open spec fn after_push(s: Seq<(RumorKeyView, u64)>, k: RumorKeyView) -> Seq<(RumorKeyView, u64)> {
    if exists|i: int| 0 <= i < s.len() && s[i].0 == k {
        s.update(choose|i: int| 0 <= i < s.len() && s[i].0 == k, (k, 0u64))
    } else {
        s.push((k, 0u64))
    }
}

/// Position `i` holds the first of the keys sent least often.
pub open spec fn is_first_least(s: Seq<(RumorKeyView, u64)>, i: int) -> bool {
    &&& 0 <= i < s.len()
    &&& forall|j: int| 0 <= j < s.len() ==> s[i].1 <= s[j].1
    &&& forall|j: int| 0 <= j < i ==> s[j].1 > s[i].1
}

/// The log `s` after the key at `i` was sent once more: it goes to the back
/// while it has been sent fewer than `budget` times, and leaves otherwise.
pub open spec fn after_send(s: Seq<(RumorKeyView, u64)>, i: int, budget: u64) -> Seq<(RumorKeyView, u64)> {
    let sent = s[i].1 + 1;
    if sent < budget {
        s.remove(i).push((s[i].0, sent as u64))
    } else {
        s.remove(i)
    }
}

impl View for RumorLog {
    type V = Seq<(RumorKeyView, u64)>;

    closed spec fn view(&self) -> Seq<(RumorKeyView, u64)> {
        self.waiting@.map_values(|w: Waiting| (w.key@, w.sends))
    }
}

impl RumorLog {
    /// Keys are unique, and no count is at the top of its range.
    pub closed spec fn wf(&self) -> bool {
        &&& keys_unique(self@)
        &&& forall|i: int| 0 <= i < self.waiting@.len() ==> #[trigger] self.waiting@[i].sends < u64::MAX
    }

    /// An empty log.
    pub fn new() -> (r: RumorLog)
        ensures
            r.wf(),
            r@ == Seq::<(RumorKeyView, u64)>::empty(),
    {
        let r = RumorLog { waiting: Vec::new() };
        assert(r@ =~= Seq::<(RumorKeyView, u64)>::empty());
        r
    }

    /// The number of keys waiting.
    pub fn len(&self) -> (r: usize)
        ensures
            r == self@.len(),
    {
        self.waiting.len()
    }

    /// Queues `key`, or, when it already waits, leaves it in place with its
    /// send count set back to zero.
    pub fn push(&mut self, key: RumorKey)
        requires
            old(self).wf(),
        ensures
            final(self).wf(),
            final(self)@ == after_push(old(self)@, key@),
    {
        let ghost k = key@;
        let mut i: usize = 0;
        while i < self.waiting.len()
            invariant
                self.wf(),
                self.waiting@ == old(self).waiting@,
                i <= self.waiting@.len(),
                k == key@,
                forall|j: int| 0 <= j < i ==> self@[j].0 != k,
            decreases self.waiting@.len() - i,
        {
            if self.waiting[i].key.same(&key) {
                self.waiting.set(i, Waiting { key, sends: 0 });
                proof {
                    let s = old(self)@;
                    assert(s[i as int].0 == k);
                    let c = choose|c: int| 0 <= c < s.len() && s[c].0 == k;
                    assert(c == i);
                    assert(self@ =~= s.update(i as int, (k, 0u64)));
                }
                return;
            }
            i += 1;
        }
        self.waiting.push(Waiting { key, sends: 0 });
        assert(self@ =~= old(self)@.push((k, 0u64)));
    }

    /// Takes the first of the keys sent least often and counts one more send
    /// of it; the key goes back to the end of the queue while it has been
    /// sent fewer than `budget` times. `None` when nothing waits.
    pub fn next(&mut self, budget: u64) -> (r: Option<RumorKey>)
        requires
            old(self).wf(),
        ensures
            final(self).wf(),
            old(self)@.len() == 0 ==> r is None && final(self)@ == old(self)@,
            old(self)@.len() > 0 ==> r is Some && exists|i: int|
                is_first_least(old(self)@, i) && r->0@ == old(self)@[i].0 && final(self)@
                    == after_send(old(self)@, i, budget),
    {
        if self.waiting.len() == 0 {
            return None;
        }
        let mut least: usize = 0;
        let mut j: usize = 1;
        while j < self.waiting.len()
            invariant
                self.waiting@ == old(self).waiting@,
                self.waiting@.len() > 0,
                least < j <= self.waiting@.len(),
                forall|x: int| 0 <= x < j ==> self@[least as int].1 <= self@[x].1,
                forall|x: int| 0 <= x < least ==> self@[x].1 > self@[least as int].1,
            decreases self.waiting@.len() - j,
        {
            if self.waiting[j].sends < self.waiting[least].sends {
                least = j;
            }
            j += 1;
        }
        let w = self.waiting.remove(least);
        let sent = w.sends + 1;
        let ghost s = old(self)@;
        proof {
            assert(self@ =~= s.remove(least as int));
        }
        let key = RumorKey { kind: w.key.kind.clone(), id: w.key.id.clone() };
        if sent < budget {
            self.waiting.push(Waiting { key: w.key, sends: sent });
            proof {
                assert(self@ =~= s.remove(least as int).push((s[least as int].0, sent)));
                assert forall|a: int, b: int| 0 <= a < b < self@.len() implies self@[a].0 != self@[b].0 by {
                    if b == self@.len() - 1 {
                        if a < least {
                            assert(s[a].0 != s[least as int].0);
                        } else {
                            assert(s[a + 1].0 != s[least as int].0);
                        }
                    } else {
                        if a < least && b >= least {
                            assert(s[a].0 != s[b + 1].0);
                        } else if a >= least {
                            assert(s[a + 1].0 != s[b + 1].0);
                        }
                    }
                }
            }
        } else {
            proof {
                assert forall|a: int, b: int| 0 <= a < b < self@.len() implies self@[a].0 != self@[b].0 by {
                    if a < least && b >= least {
                        assert(s[a].0 != s[b + 1].0);
                    } else if a >= least {
                        assert(s[a + 1].0 != s[b + 1].0);
                    }
                }
            }
        }
        proof {
            assert(is_first_least(s, least as int));
        }
        Some(key)
    }
}

} // verus!
