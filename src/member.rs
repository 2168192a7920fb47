use vstd::prelude::*;

use crate::rumor::RumorKey;

verus! {

/// A member's health as seen by one observer.
#[derive(Clone, Copy, Debug, PartialEq, Eq, Structural)]
pub enum Health {
    Alive,
    Suspect,
    Confirmed,
}

/// Position of a health in the lattice Alive < Suspect < Confirmed.
pub open spec fn rank(h: Health) -> int {
    match h {
        Health::Alive => 0,
        Health::Suspect => 1,
        Health::Confirmed => 2,
    }
}

impl Health {
    /// The health's name, as it is shown to people.
    pub fn name(&self) -> (r: String)
        ensures
            r@ == health_name(*self),
    {
        match self {
            Health::Alive => {
                proof {
                    reveal_strlit("Alive");
                }
                String::from_str("Alive")
            },
            Health::Suspect => {
                proof {
                    reveal_strlit("Suspect");
                }
                String::from_str("Suspect")
            },
            Health::Confirmed => {
                proof {
                    reveal_strlit("Confirmed");
                }
                String::from_str("Confirmed")
            },
        }
    }
}

/// The name of a health.
pub open spec fn health_name(h: Health) -> Seq<char> {
    match h {
        Health::Alive => seq!['A', 'l', 'i', 'v', 'e'],
        Health::Suspect => seq!['S', 'u', 's', 'p', 'e', 'c', 't'],
        Health::Confirmed => seq!['C', 'o', 'n', 'f', 'i', 'r', 'm', 'e', 'd'],
    }
}

/// Whether `c` is a digit of lower-case hexadecimal.
pub open spec fn is_lower_hex_digit(c: char) -> bool {
    ('0' <= c && c <= '9') || ('a' <= c && c <= 'f')
}

/// Whether `s` is a 128-bit identifier written as 32 lower-case hex digits.
pub open spec fn is_simple_uuid(s: Seq<char>) -> bool {
    s.len() == 32 && forall|i: int| 0 <= i < s.len() ==> is_lower_hex_digit(#[trigger] s[i])
}

/// Relies on uuid's `Uuid::new_v4` and the `Display` of `Uuid::simple`:
/// a random identifier written as 32 lower-case hex digits.
#[verifier::external_body]
fn new_simple_uuid() -> (r: String)
    ensures
        is_simple_uuid(r@),
{
    uuid::Uuid::new_v4().simple().to_string()
}

/// One process of the cluster: its identity, incarnation and address.
#[derive(Debug)]
pub struct Member {
    pub id: String,
    pub incarnation: u64,
    pub address: String,
    pub persistent: bool,
}

/// The mathematical value of a `Member`.
pub struct MemberView {
    pub id: Seq<char>,
    pub incarnation: u64,
    pub address: Seq<char>,
    pub persistent: bool,
}

impl View for Member {
    type V = MemberView;

    open spec fn view(&self) -> MemberView {
        MemberView {
            id: self.id@,
            incarnation: self.incarnation,
            address: self.address@,
            persistent: self.persistent,
        }
    }
}

impl Clone for Member {
    fn clone(&self) -> (r: Self)
        ensures
            r == *self,
    {
        Member {
            id: self.id.clone(),
            incarnation: self.incarnation,
            address: self.address.clone(),
            persistent: self.persistent,
        }
    }
}

impl PartialEq for Member {
    fn eq(&self, other: &Member) -> (r: bool)
        ensures
            r == (self@ == other@),
    {
        self.id == other.id && self.incarnation == other.incarnation && self.address
            == other.address && self.persistent == other.persistent
    }
}

impl vstd::std_specs::cmp::PartialEqSpecImpl for Member {
    open spec fn obeys_eq_spec() -> bool {
        true
    }

    open spec fn eq_spec(&self, other: &Member) -> bool {
        self@ == other@
    }
}

impl Member {
    /// A member with a fresh random id, incarnation 0, no address, not persistent.
    pub fn new() -> (r: Member)
        ensures
            is_simple_uuid(r@.id),
            r@.incarnation == 0,
            r@.address.len() == 0,
            !r@.persistent,
    {
        Member { id: new_simple_uuid(), incarnation: 0, address: String::new(), persistent: false }
    }

    pub fn get_id(&self) -> (r: &str)
        ensures
            r@ == self@.id,
    {
        self.id.as_str()
    }

    pub fn set_id(&mut self, id: String)
        ensures
            final(self)@ == (MemberView { id: id@, ..old(self)@ }),
    {
        self.id = id;
    }

    pub fn get_incarnation(&self) -> (r: u64)
        ensures
            r == self@.incarnation,
    {
        self.incarnation
    }

    pub fn set_incarnation(&mut self, incarnation: u64)
        ensures
            final(self)@ == (MemberView { incarnation, ..old(self)@ }),
    {
        self.incarnation = incarnation;
    }

    pub fn get_address(&self) -> (r: &str)
        ensures
            r@ == self@.address,
    {
        self.address.as_str()
    }

    pub fn set_address(&mut self, address: String)
        ensures
            final(self)@ == (MemberView { address: address@, ..old(self)@ }),
    {
        self.address = address;
    }

    pub fn get_persistent(&self) -> (r: bool)
        ensures
            r == self@.persistent,
    {
        self.persistent
    }

    pub fn set_persistent(&mut self, persistent: bool)
        ensures
            final(self)@ == (MemberView { persistent, ..old(self)@ }),
    {
        self.persistent = persistent;
    }
}


impl Member {
    /// The key of the membership rumor about this member.
    pub fn rumor_key(&self) -> (r: RumorKey)
        ensures
            r.kind@ == seq!['m', 'e', 'm', 'b', 'e', 'r'],
            r.id@ == self@.id,
    {
        proof {
            reveal_strlit("member");
        }
        RumorKey { kind: String::from_str("member"), id: self.id.clone() }
    }
}

/// The number of relays asked to probe a target indirectly.
pub const PINGREQ_TARGETS: usize = 5;

/// Whether `incoming` lies strictly above `current` in the health lattice.
pub fn refines(current: Health, incoming: Health) -> (r: bool)
    ensures
        r == (rank(current) < rank(incoming)),
{
    match (current, incoming) {
        (Health::Alive, Health::Suspect) => true,
        (Health::Alive, Health::Confirmed) => true,
        (Health::Alive, Health::Alive) => false,
        (Health::Suspect, Health::Alive) => false,
        (Health::Suspect, Health::Suspect) => false,
        (Health::Suspect, Health::Confirmed) => true,
        (Health::Confirmed, _) => false,
    }
}

/// Relies on rand's `SliceRandom::shuffle` driven by `thread_rng`: the
/// elements are permuted in place, in an order drawn at random.
#[verifier::external_body]
fn shuffle(v: &mut Vec<usize>)
    ensures
        final(v)@.to_multiset() == old(v)@.to_multiset(),
{
    rand::seq::SliceRandom::shuffle(v.as_mut_slice(), &mut rand::thread_rng());
}

/// A member and its health, as sent to peers.
pub struct Membership {
    pub member: Member,
    pub health: Health,
}

struct HealthEntry {
    id: String,
    health: Health,
}

/// The members known to one observer, each with the health it believes.
pub struct MemberList {
    owner: Option<String>,
    members: Vec<Member>,
    health: Vec<HealthEntry>,
    members_g: Ghost<Map<Seq<char>, MemberView>>,
    health_g: Ghost<Map<Seq<char>, Health>>,
}

/// The mathematical value of a `MemberList`: member records and healths by
/// id, and the id of the member that holds the list, if it is one.
pub struct MemberListView {
    pub members: Map<Seq<char>, MemberView>,
    pub health: Map<Seq<char>, Health>,
    pub owner: Option<Seq<char>>,
}

/// Every stored record sits under its own id and has a health.
pub open spec fn valid(v: MemberListView) -> bool {
    &&& v.members.dom().finite()
    &&& forall|k: Seq<char>| #[trigger]
        v.members.contains_key(k) ==> v.members[k].id == k && v.health.contains_key(k)
}

/// Whether a rumor that `m` has health `h` is new to `v` and is to be spread.
pub open spec fn is_news(v: MemberListView, m: MemberView, h: Health) -> bool {
    ||| !v.members.contains_key(m.id)
    ||| v.members[m.id].incarnation < m.incarnation
    ||| (v.members[m.id].incarnation == m.incarnation && rank(v.health[m.id]) < rank(h))
}

/// `v` with `m` stored at health `h`.
pub open spec fn stored(v: MemberListView, m: MemberView, h: Health) -> MemberListView {
    MemberListView { members: v.members.insert(m.id, m), health: v.health.insert(m.id, h), ..v }
}

/// Whether the rumor that `m` has `h` declares the owner of `v` unwell and
/// is at least as new as what `v` holds of it, so that the owner must deny it.
pub open spec fn must_refute(v: MemberListView, m: MemberView, h: Health) -> bool {
    &&& v.owner == Some(m.id)
    &&& h != Health::Alive
    &&& (!v.members.contains_key(m.id) || v.members[m.id].incarnation <= m.incarnation)
}

/// The record by which the owner denies the rumor about `m`: the record held
/// for it (or `m` when none is), at the incarnation after `m`'s.
pub open spec fn refutation(v: MemberListView, m: MemberView) -> MemberView {
    let base = if v.members.contains_key(m.id) {
        v.members[m.id]
    } else {
        m
    };
    MemberView { incarnation: (m.incarnation + 1) as u64, ..base }
}

/// Whether merging the rumor that `m` has `h` into `v` is to be spread.
pub open spec fn insert_spreads(v: MemberListView, m: MemberView, h: Health) -> bool {
    must_refute(v, m, h) || is_news(v, m, h)
}

/// The list after the rumor that `m` has health `h` was merged into `v`: a
/// rumor of the owner's ill health is answered by holding the owner Alive at
/// the next incarnation; any other rumor is stored when it is news.
pub open spec fn after_insert(v: MemberListView, m: MemberView, h: Health) -> MemberListView {
    if must_refute(v, m, h) {
        stored(v, refutation(v, m), Health::Alive)
    } else if is_news(v, m, h) {
        stored(v, m, h)
    } else {
        v
    }
}

/// `r` is a choice of relays for an indirect probe from `a` to `b`: at most
/// `PINGREQ_TARGETS` distinct members of `v` other than `a` and `b`, and all
/// of those when fewer are to be had.
pub open spec fn relay_choice(v: MemberListView, a: Seq<char>, b: Seq<char>, r: Seq<MemberView>) -> bool {
    &&& r.len() <= PINGREQ_TARGETS
    &&& forall|i: int|
        0 <= i < r.len() ==> #[trigger] r[i].id != a && r[i].id != b && v.members.contains_key(r[i].id)
            && v.members[r[i].id] == r[i]
    &&& forall|i: int, j: int| 0 <= i < j < r.len() ==> r[i].id != r[j].id
    &&& (r.len() == PINGREQ_TARGETS || forall|k: Seq<char>| #[trigger]
        v.members.contains_key(k) && k != a && k != b ==> exists|i: int| 0 <= i < r.len() && r[i].id == k)
}

impl View for MemberList {
    type V = MemberListView;

    closed spec fn view(&self) -> MemberListView {
        MemberListView {
            members: self.members_g@,
            health: self.health_g@,
            owner: match self.owner {
                Some(o) => Some(o@),
                None => None,
            },
        }
    }
}

impl MemberList {
    /// The vectors hold each id at most once and agree with the view.
    pub closed spec fn wf(&self) -> bool {
        &&& forall|i: int, j: int|
            0 <= i < j < self.members@.len() ==> self.members@[i]@.id != self.members@[j]@.id
        &&& forall|k: Seq<char>| #[trigger]
            self.members_g@.contains_key(k) <==> exists|i: int|
                0 <= i < self.members@.len() && self.members@[i]@.id == k
        &&& forall|i: int|
            0 <= i < self.members@.len() ==> #[trigger] self.members_g@[self.members@[i]@.id]
                == self.members@[i]@
        &&& forall|i: int, j: int|
            0 <= i < j < self.health@.len() ==> self.health@[i].id@ != self.health@[j].id@
        &&& forall|k: Seq<char>| #[trigger]
            self.health_g@.contains_key(k) <==> exists|i: int|
                0 <= i < self.health@.len() && self.health@[i].id@ == k
        &&& forall|i: int|
            0 <= i < self.health@.len() ==> #[trigger] self.health_g@[self.health@[i].id@]
                == self.health@[i].health
        &&& forall|k: Seq<char>| self.members_g@.contains_key(k) ==> #[trigger]
            self.health_g@.contains_key(k)
    }

    /// A well-formed list has a valid view.
    pub proof fn lemma_valid(&self)
        requires
            self.wf(),
        ensures
            valid(self@),
    {
        self.lemma_wf();
    }

    proof fn lemma_wf(&self)
        requires
            self.wf(),
        ensures
            valid(self@),
            self@.members.dom().len() == self.members@.len(),
    {
        let ids = self.members@.map_values(|m: Member| m@.id);
        assert(ids.no_duplicates()) by {
            assert forall|i: int, j: int| 0 <= i < ids.len() && 0 <= j < ids.len() && i != j
                implies ids[i] != ids[j] by {}
        }
        assert(ids.to_set() =~= self@.members.dom()) by {
            assert forall|k: Seq<char>| ids.to_set().contains(k) implies self@.members.contains_key(k) by {
                let i = choose|i: int| 0 <= i < ids.len() && ids[i] == k;
                assert(self.members@[i]@.id == k);
            }
            assert forall|k: Seq<char>| self@.members.contains_key(k) implies ids.to_set().contains(k) by {
                let i = choose|i: int| 0 <= i < self.members@.len() && self.members@[i]@.id == k;
                assert(ids[i] == k);
            }
        }
        ids.unique_seq_to_set();
        assert forall|k: Seq<char>| #[trigger] self@.members.contains_key(k) implies self@.members[k].id == k
            && self@.health.contains_key(k) by {
            let i = choose|i: int| 0 <= i < self.members@.len() && self.members@[i]@.id == k;
            assert(self.members_g@[self.members@[i]@.id] == self.members@[i]@);
        }
    }

    /// An empty list that belongs to no member.
    pub fn new() -> (r: MemberList)
        ensures
            r.wf(),
            r@.members == Map::<Seq<char>, MemberView>::empty(),
            r@.health == Map::<Seq<char>, Health>::empty(),
            r@.owner == None::<Seq<char>>,
    {
        MemberList {
            owner: None,
            members: Vec::new(),
            health: Vec::new(),
            members_g: Ghost(Map::empty()),
            health_g: Ghost(Map::empty()),
        }
    }

    /// An empty list held by the member under `owner_id`, which denies any
    /// rumor of its own ill health.
    pub fn with_owner(owner_id: &str) -> (r: MemberList)
        ensures
            r.wf(),
            r@.members == Map::<Seq<char>, MemberView>::empty(),
            r@.health == Map::<Seq<char>, Health>::empty(),
            r@.owner == Some(owner_id@),
    {
        MemberList {
            owner: Some(owner_id.to_owned()),
            members: Vec::new(),
            health: Vec::new(),
            members_g: Ghost(Map::empty()),
            health_g: Ghost(Map::empty()),
        }
    }

    fn member_index(&self, id: &String) -> (r: Option<usize>)
        requires
            self.wf(),
        ensures
            match r {
                Some(i) => i < self.members@.len() && self.members@[i as int]@.id == id@
                    && self@.members.contains_key(id@) && self@.members[id@] == self.members@[i as int]@,
                None => !self@.members.contains_key(id@),
            },
    {
        let mut i: usize = 0;
        while i < self.members.len()
            invariant
                self.wf(),
                i <= self.members@.len(),
                forall|j: int| 0 <= j < i ==> self.members@[j]@.id != id@,
            decreases self.members@.len() - i,
        {
            if self.members[i].id == *id {
                return Some(i);
            }
            i += 1;
        }
        None
    }

    fn health_index(&self, id: &String) -> (r: Option<usize>)
        requires
            self.wf(),
        ensures
            match r {
                Some(i) => i < self.health@.len() && self.health@[i as int].id@ == id@
                    && self@.health.contains_key(id@) && self@.health[id@] == self.health@[i as int].health,
                None => !self@.health.contains_key(id@),
            },
    {
        let mut i: usize = 0;
        while i < self.health.len()
            invariant
                self.wf(),
                i <= self.health@.len(),
                forall|j: int| 0 <= j < i ==> self.health@[j].id@ != id@,
            decreases self.health@.len() - i,
        {
            if self.health[i].id == *id {
                return Some(i);
            }
            i += 1;
        }
        None
    }

    fn store_health(&mut self, id: String, health: Health)
        requires
            old(self).wf(),
        ensures
            final(self).wf(),
            final(self)@ == (MemberListView { health: old(self)@.health.insert(id@, health), ..old(self)@ }),
    {
        let ghost key = id@;
        let ghost mut pos: int = 0;
        match self.health_index(&id) {
            Some(i) => {
                self.health.set(i, HealthEntry { id, health });
                proof {
                    pos = i as int;
                }
            },
            None => {
                self.health.push(HealthEntry { id, health });
                proof {
                    pos = old(self).health@.len() as int;
                }
            },
        }
        self.health_g = Ghost(self.health_g@.insert(key, health));
        assert(self.health@[pos].id@ == key);
        assert forall|k: Seq<char>| #[trigger] self.members_g@.contains_key(k) implies exists|i: int|
            0 <= i < self.members@.len() && self.members@[i]@.id == k by {
            assert(old(self).members_g@.contains_key(k));
            let i = choose|i: int| 0 <= i < old(self).members@.len() && old(self).members@[i]@.id == k;
            assert(self.members@[i]@.id == k);
        }
        assert forall|k: Seq<char>| #[trigger]
            self.health_g@.contains_key(k) <==> exists|i: int|
                0 <= i < self.health@.len() && self.health@[i].id@ == k by {
            if self.health_g@.contains_key(k) && k != key {
                let i = choose|i: int| 0 <= i < old(self).health@.len() && old(self).health@[i].id@ == k;
                assert(self.health@[i].id@ == k);
            }
            if exists|i: int| 0 <= i < self.health@.len() && self.health@[i].id@ == k {
                let i = choose|i: int| 0 <= i < self.health@.len() && self.health@[i].id@ == k;
                if i != pos {
                    assert(old(self).health@[i].id@ == k);
                }
            }
        }
        assert forall|i: int|
            0 <= i < self.health@.len() implies #[trigger] self.health_g@[self.health@[i].id@]
                == self.health@[i].health by {
            if i != pos {
                assert(old(self).health@[i] == self.health@[i]);
            }
        }
        assert forall|i: int, j: int|
            0 <= i < j < self.health@.len() implies self.health@[i].id@ != self.health@[j].id@ by {
            if i != pos && j != pos {
                assert(old(self).health@[i] == self.health@[i]);
                assert(old(self).health@[j] == self.health@[j]);
            } else if i == pos {
                assert(old(self).health@[j] == self.health@[j]);
                if pos < old(self).health@.len() {
                    assert(old(self).health@[i].id@ == key);
                }
            } else {
                assert(old(self).health@[i] == self.health@[i]);
                if pos < old(self).health@.len() {
                    assert(old(self).health@[j].id@ == key);
                } else {
                    assert(old(self).health_g@.contains_key(old(self).health@[i].id@));
                }
            }
        }
    }

    fn store(&mut self, member: Member, health: Health)
        requires
            old(self).wf(),
        ensures
            final(self).wf(),
            final(self)@ == stored(old(self)@, member@, health),
    {
        let ghost m = member@;
        let id = member.id.clone();
        self.store_health(id, health);
        let ghost mid = *self;
        let ghost mut pos: int = 0;
        match self.member_index(&member.id) {
            Some(i) => {
                self.members.set(i, member);
                proof {
                    pos = i as int;
                }
            },
            None => {
                self.members.push(member);
                proof {
                    pos = mid.members@.len() as int;
                }
            },
        }
        self.members_g = Ghost(self.members_g@.insert(m.id, m));
        assert(self.members@[pos]@ == m);
        assert forall|i: int, j: int|
            0 <= i < j < self.members@.len() implies self.members@[i]@.id != self.members@[j]@.id by {
            if i != pos && j != pos {
                assert(mid.members@[i] == self.members@[i]);
                assert(mid.members@[j] == self.members@[j]);
            } else if i == pos {
                assert(mid.members@[j] == self.members@[j]);
            } else {
                assert(mid.members@[i] == self.members@[i]);
                if pos == mid.members@.len() {
                    assert(mid.members_g@.contains_key(mid.members@[i]@.id));
                }
            }
        }
        assert forall|k: Seq<char>| #[trigger]
            self.members_g@.contains_key(k) <==> exists|i: int|
                0 <= i < self.members@.len() && self.members@[i]@.id == k by {
            if self.members_g@.contains_key(k) && k != m.id {
                let i = choose|i: int| 0 <= i < mid.members@.len() && mid.members@[i]@.id == k;
                assert(self.members@[i]@.id == k);
            }
            if exists|i: int| 0 <= i < self.members@.len() && self.members@[i]@.id == k {
                let i = choose|i: int| 0 <= i < self.members@.len() && self.members@[i]@.id == k;
                if i != pos {
                    assert(mid.members@[i]@.id == k);
                }
            }
        }
        assert forall|i: int|
            0 <= i < self.members@.len() implies #[trigger] self.members_g@[self.members@[i]@.id]
                == self.members@[i]@ by {
            if i != pos {
                assert(mid.members@[i] == self.members@[i]);
            }
        }
    }

    /// Merges the rumor that `member` has `health`, and tells whether it is
    /// to be spread further. A rumor that calls the owner Suspect or
    /// Confirmed, at an incarnation no lower than the one held for it, is
    /// answered by holding the owner Alive at the next incarnation. Any other
    /// rumor is taken when its id is unknown, when it carries a higher
    /// incarnation, or when at an equal incarnation it moves the health up
    /// the lattice.
    pub fn insert(&mut self, member: Member, health: Health) -> (r: bool)
        requires
            old(self).wf(),
            must_refute(old(self)@, member@, health) ==> member@.incarnation < u64::MAX,
        ensures
            final(self).wf(),
            r == insert_spreads(old(self)@, member@, health),
            final(self)@ == after_insert(old(self)@, member@, health),
    {
        let about_owner = match &self.owner {
            Some(o) => member.id == *o,
            None => false,
        };
        let found = self.member_index(&member.id);
        if about_owner && health != Health::Alive {
            let stale = match found {
                Some(i) => self.members[i].incarnation > member.incarnation,
                None => false,
            };
            if !stale {
                let incarnation = member.incarnation + 1;
                let mut me = match found {
                    Some(i) => self.members[i].clone(),
                    None => member,
                };
                me.incarnation = incarnation;
                proof {
                    self.lemma_valid();
                }
                self.store(me, Health::Alive);
                return true;
            }
        }
        let share_rumor: bool;
        match found {
            Some(i) => {
                let current_incarnation = self.members[i].incarnation;
                if current_incarnation > member.incarnation {
                    share_rumor = false;
                } else if member.incarnation > current_incarnation {
                    share_rumor = true;
                } else {
                    proof {
                        self.lemma_valid();
                    }
                    let k = self.health_index(&member.id).unwrap();
                    share_rumor = refines(self.health[k].health, health);
                }
            },
            None => {
                share_rumor = true;
            },
        }
        if share_rumor {
            self.store(member, health);
        }
        share_rumor
    }

    /// The number of members held.
    pub fn len(&self) -> (r: usize)
        requires
            self.wf(),
        ensures
            r == self@.members.dom().len(),
    {
        proof {
            self.lemma_wf();
        }
        self.members.len()
    }

    /// The record held under `id`, if any.
    pub fn get(&self, id: &str) -> (r: Option<&Member>)
        requires
            self.wf(),
        ensures
            match r {
                Some(m) => self@.members.contains_key(id@) && m@ == self@.members[id@],
                None => !self@.members.contains_key(id@),
            },
    {
        let key = id.to_owned();
        match self.member_index(&key) {
            Some(i) => Some(&self.members[i]),
            None => None,
        }
    }

    /// The health believed of `member`, if any.
    pub fn health_of(&self, member: &Member) -> (r: Option<&Health>)
        requires
            self.wf(),
        ensures
            match r {
                Some(h) => self@.health.contains_key(member@.id) && *h == self@.health[member@.id],
                None => !self@.health.contains_key(member@.id),
            },
    {
        match self.health_index(&member.id) {
            Some(i) => Some(&self.health[i].health),
            None => None,
        }
    }

    /// Sets the health of `member` from the local failure detector, and tells
    /// whether it differs from the one held before.
    pub fn insert_health(&mut self, member: &Member, health: Health) -> (r: bool)
        requires
            old(self).wf(),
        ensures
            final(self).wf(),
            r == !(old(self)@.health.contains_key(member@.id) && old(self)@.health[member@.id]
                == health),
            final(self)@ == (MemberListView {
                health: old(self)@.health.insert(member@.id, health),
                ..old(self)@
            }),
    {
        match self.health_index(&member.id) {
            Some(i) => {
                if self.health[i].health == health {
                    proof {
                        assert(old(self)@.health.insert(member@.id, health) =~= old(self)@.health);
                    }
                    return false;
                }
            },
            None => {},
        }
        self.store_health(member.id.clone(), health);
        true
    }

    /// The record and health held for `member_id`, to be sent to peers.
    pub fn membership_for(&self, member_id: &str) -> (r: Membership)
        requires
            self.wf(),
            self@.members.contains_key(member_id@),
        ensures
            r.member@ == self@.members[member_id@],
            r.health == self@.health[member_id@],
    {
        proof {
            self.lemma_valid();
        }
        let key = member_id.to_owned();
        let k = self.health_index(&key).unwrap();
        let i = self.member_index(&key).unwrap();
        Membership { member: self.members[i].clone(), health: self.health[k].health }
    }

    /// Every member held, each once.
    pub fn members(&self) -> (r: Vec<&Member>)
        requires
            self.wf(),
        ensures
            r@.len() == self@.members.dom().len(),
            forall|i: int|
                0 <= i < r@.len() ==> self@.members.contains_key(#[trigger] r@[i]@.id)
                    && self@.members[r@[i]@.id] == r@[i]@,
            forall|i: int, j: int| 0 <= i < j < r@.len() ==> r@[i]@.id != r@[j]@.id,
            forall|k: Seq<char>| #[trigger]
                self@.members.contains_key(k) ==> exists|i: int| 0 <= i < r@.len() && r@[i]@.id == k,
    {
        proof {
            self.lemma_wf();
        }
        let mut r: Vec<&Member> = Vec::new();
        let mut i: usize = 0;
        while i < self.members.len()
            invariant
                self.wf(),
                i <= self.members@.len(),
                r@.len() == i,
                forall|j: int| 0 <= j < i ==> r@[j] == self.members@[j],
            decreases self.members@.len() - i,
        {
            r.push(&self.members[i]);
            i += 1;
        }
        assert forall|k: Seq<char>| #[trigger]
            self@.members.contains_key(k) implies exists|i: int| 0 <= i < r@.len() && r@[i]@.id == k by {
            let i = choose|i: int| 0 <= i < self.members@.len() && self.members@[i]@.id == k;
            assert(r@[i]@.id == k);
        }
        r
    }

    /// The positions of the members whose id is neither `a` nor `b`, each
    /// once, in an order drawn at random.
    fn shuffled_others(&self, a: &String, b: &String) -> (r: Vec<usize>)
        requires
            self.wf(),
        ensures
            r@.no_duplicates(),
            forall|i: int|
                0 <= i < r@.len() ==> r@[i] < self.members@.len()
                    && self.members@[r@[i] as int]@.id != a@ && self.members@[r@[i] as int]@.id != b@,
            forall|x: usize|
                x < self.members@.len() && self.members@[x as int]@.id != a@
                    && self.members@[x as int]@.id != b@ ==> #[trigger] r@.contains(x),
    {
        let mut r: Vec<usize> = Vec::new();
        let mut j: usize = 0;
        while j < self.members.len()
            invariant
                self.wf(),
                j <= self.members@.len(),
                forall|i: int, i2: int| 0 <= i < i2 < r@.len() ==> r@[i] < r@[i2],
                forall|i: int|
                    0 <= i < r@.len() ==> r@[i] < j && self.members@[r@[i] as int]@.id != a@
                        && self.members@[r@[i] as int]@.id != b@,
                forall|x: usize|
                    x < j && self.members@[x as int]@.id != a@ && self.members@[x as int]@.id != b@
                        ==> #[trigger] r@.contains(x),
            decreases self.members@.len() - j,
        {
            if self.members[j].id != *a && self.members[j].id != *b {
                let ghost prev = r@;
                r.push(j);
                proof {
                    assert(r@[r@.len() - 1] == j);
                    assert forall|x: usize|
                        x < j + 1 && self.members@[x as int]@.id != a@ && self.members@[x as int]@.id != b@
                        implies #[trigger] r@.contains(x) by {
                        if x < j {
                            assert(prev.contains(x));
                            let p = choose|p: int| 0 <= p < prev.len() && prev[p] == x;
                            assert(r@[p] == x);
                        }
                    }
                }
            }
            j += 1;
        }
        let ghost before = r@;
        proof {
            before.lemma_multiset_has_no_duplicates();
        }
        shuffle(&mut r);
        proof {
            broadcast use vstd::seq_lib::group_to_multiset_ensures;

            r@.lemma_multiset_has_no_duplicates_conv();
            assert forall|i: int| 0 <= i < r@.len() implies before.contains(r@[i]) by {
                assert(r@.contains(r@[i]));
                assert(r@.to_multiset().count(r@[i]) > 0);
                assert(before.to_multiset().count(r@[i]) > 0);
            }
            assert forall|x: usize|
                x < self.members@.len() && self.members@[x as int]@.id != a@
                    && self.members@[x as int]@.id != b@ implies #[trigger] r@.contains(x) by {
                assert(before.contains(x));
                assert(before.to_multiset().count(x) > 0);
                assert(r@.to_multiset().count(x) > 0);
            }
        }
        r
    }

    /// Every member but the one under `exclude_id`, each once, in an order
    /// drawn at random on each call.
    pub fn check_list(&self, exclude_id: &str) -> (r: Vec<Member>)
        requires
            self.wf(),
        ensures
            forall|i: int|
                0 <= i < r@.len() ==> #[trigger] r@[i]@.id != exclude_id@
                    && self@.members.contains_key(r@[i]@.id) && self@.members[r@[i]@.id] == r@[i]@,
            forall|i: int, j: int| 0 <= i < j < r@.len() ==> r@[i]@.id != r@[j]@.id,
            forall|k: Seq<char>| #[trigger]
                self@.members.contains_key(k) && k != exclude_id@ ==> exists|i: int|
                    0 <= i < r@.len() && r@[i]@.id == k,
    {
        let exclude = exclude_id.to_owned();
        let order = self.shuffled_others(&exclude, &exclude);
        let n: usize = self.members.len();
        let mut r: Vec<Member> = Vec::new();
        let mut j: usize = 0;
        while j < order.len()
            invariant
                self.wf(),
                n == self.members@.len(),
                j <= order@.len(),
                r@.len() == j,
                forall|i: int|
                    0 <= i < order@.len() ==> order@[i] < self.members@.len(),
                forall|i: int| 0 <= i < j ==> r@[i]@ == self.members@[order@[i] as int]@,
            decreases order@.len() - j,
        {
            r.push(self.members[order[j]].clone());
            j += 1;
        }
        proof {
            assert forall|i: int|
                0 <= i < r@.len() implies #[trigger] r@[i]@.id != exclude_id@
                    && self@.members.contains_key(r@[i]@.id) && self@.members[r@[i]@.id] == r@[i]@ by {
                assert(self.members_g@.contains_key(self.members@[order@[i] as int]@.id));
            }
            assert forall|i: int, i2: int| 0 <= i < i2 < r@.len() implies r@[i]@.id != r@[i2]@.id by {
                assert(order@[i] != order@[i2]);
            }
            assert forall|k: Seq<char>| #[trigger]
                self@.members.contains_key(k) && k != exclude_id@ implies exists|i: int|
                    0 <= i < r@.len() && r@[i]@.id == k by {
                let x = choose|x: int| 0 <= x < self.members@.len() && self.members@[x]@.id == k;
                let xu = x as usize;
                assert(self.members@[xu as int]@.id == k);
                assert(order@.contains(xu));
                let p = choose|p: int| 0 <= p < order@.len() && order@[p] == xu;
                assert(r@[p]@.id == k);
            }
        }
        r
    }

    /// Up to `PINGREQ_TARGETS` members, drawn at random, that may relay a
    /// probe from `sending_member` to `target_member`; neither of the two is
    /// among them.
    pub fn pingreq_targets(&self, sending_member: &Member, target_member: &Member) -> (r: Vec<&Member>)
        requires
            self.wf(),
        ensures
            relay_choice(self@, sending_member@.id, target_member@.id, r@.map_values(|m: &Member| m@)),
    {
        let order = self.shuffled_others(&sending_member.id, &target_member.id);
        let n: usize = self.members.len();
        let mut r: Vec<&Member> = Vec::new();
        let mut j: usize = 0;
        while j < order.len() && j < PINGREQ_TARGETS
            invariant
                self.wf(),
                n == self.members@.len(),
                j <= order@.len(),
                j <= PINGREQ_TARGETS,
                r@.len() == j,
                forall|i: int|
                    0 <= i < order@.len() ==> order@[i] < self.members@.len(),
                forall|i: int| 0 <= i < j ==> r@[i] == self.members@[order@[i] as int],
            decreases order@.len() - j,
        {
            r.push(&self.members[order[j]]);
            j += 1;
        }
        let ghost rv = r@.map_values(|m: &Member| m@);
        let ghost a = sending_member@.id;
        let ghost b = target_member@.id;
        proof {
            assert forall|i: int|
                0 <= i < rv.len() implies #[trigger] rv[i].id != a && rv[i].id != b
                    && self@.members.contains_key(rv[i].id) && self@.members[rv[i].id] == rv[i] by {
                assert(self.members_g@.contains_key(self.members@[order@[i] as int]@.id));
            }
            assert forall|i: int, i2: int| 0 <= i < i2 < rv.len() implies rv[i].id != rv[i2].id by {
                assert(order@[i] != order@[i2]);
            }
            if rv.len() != PINGREQ_TARGETS {
                assert forall|k: Seq<char>| #[trigger]
                    self@.members.contains_key(k) && k != a && k != b implies exists|i: int|
                        0 <= i < rv.len() && rv[i].id == k by {
                    let x = choose|x: int| 0 <= x < self.members@.len() && self.members@[x]@.id == k;
                    let xu = x as usize;
                    assert(self.members@[xu as int]@.id == k);
                    assert(order@.contains(xu));
                    let p = choose|p: int| 0 <= p < order@.len() && order@[p] == xu;
                    assert(rv[p].id == k);
                }
            }
        }
        r
    }
}

/// Stored incarnations never go down: a merge or a local health update
/// keeps every id that was held, at an incarnation at least as high as before.
pub proof fn lemma_incarnation_monotonic(v: MemberListView, m: MemberView, h: Health, id: Seq<char>)
    requires
        valid(v),
        must_refute(v, m, h) ==> m.incarnation < u64::MAX,
    ensures
        forall|k: Seq<char>| #[trigger]
            v.members.contains_key(k) ==> after_insert(v, m, h).members.contains_key(k)
                && after_insert(v, m, h).members[k].incarnation >= v.members[k].incarnation,
        (MemberListView { health: v.health.insert(id, h), ..v }).members == v.members,
{
    if must_refute(v, m, h) {
        assert(refutation(v, m).id == m.id);
    }
}

/// A Confirmed verdict absorbs every rumor at its incarnation or below: after
/// such a merge the member is still Confirmed, unless it is the owner, which
/// then holds itself at a strictly higher incarnation; a rumor at a strictly
/// higher incarnation about another member replaces the verdict.
pub proof fn lemma_confirmed_absorbs(v: MemberListView, m: MemberView, h: Health)
    requires
        valid(v),
        v.members.contains_key(m.id),
        v.health[m.id] == Health::Confirmed,
        must_refute(v, m, h) ==> m.incarnation < u64::MAX,
    ensures
        m.incarnation <= v.members[m.id].incarnation ==> after_insert(v, m, h).health[m.id]
            == Health::Confirmed || after_insert(v, m, h).members[m.id].incarnation
            > v.members[m.id].incarnation,
        m.incarnation <= v.members[m.id].incarnation && v.owner != Some(m.id) ==> after_insert(
            v,
            m,
            h,
        ) == v,
        m.incarnation > v.members[m.id].incarnation && !must_refute(v, m, h) ==> after_insert(
            v,
            m,
            h,
        ).members[m.id] == m && after_insert(v, m, h).health[m.id] == h,
{
}

/// A merge is to be spread exactly when it changes the stored incarnation or
/// health of a known id, and always when the id was unknown.
pub proof fn lemma_news_iff_changed(v: MemberListView, m: MemberView, h: Health)
    requires
        valid(v),
        must_refute(v, m, h) ==> m.incarnation < u64::MAX,
    ensures
        !v.members.contains_key(m.id) ==> insert_spreads(v, m, h),
        v.members.contains_key(m.id) ==> (insert_spreads(v, m, h) <==> (after_insert(
            v,
            m,
            h,
        ).members[m.id].incarnation != v.members[m.id].incarnation || after_insert(v, m, h).health[m.id]
            != v.health[m.id])),
{
}

/// After a rumor that calls the owner Suspect or Confirmed, the owner is held
/// Alive at an incarnation above the rumor's, and the rumor is spread when
/// it was not stale; this holds provided the owner was held Alive before or
/// the rumor is no older than what was held.
pub proof fn lemma_self_refutation(v: MemberListView, m: MemberView, h: Health)
    requires
        valid(v),
        v.owner == Some(m.id),
        h != Health::Alive,
        m.incarnation < u64::MAX,
        !v.members.contains_key(m.id) || v.members[m.id].incarnation <= m.incarnation
            || v.health[m.id] == Health::Alive,
    ensures
        after_insert(v, m, h).members.contains_key(m.id),
        after_insert(v, m, h).members[m.id].incarnation > m.incarnation,
        after_insert(v, m, h).health[m.id] == Health::Alive,
        !v.members.contains_key(m.id) || v.members[m.id].incarnation <= m.incarnation ==> insert_spreads(
            v,
            m,
            h,
        ) && after_insert(v, m, h).members[m.id].incarnation == m.incarnation + 1,
{
}

/// A choice of relays from `a` to `b` holds `min(PINGREQ_TARGETS, n)`
/// members, `n` being the number of members other than `a` and `b`.
pub proof fn lemma_relay_count(v: MemberListView, a: Seq<char>, b: Seq<char>, r: Seq<MemberView>)
    requires
        valid(v),
        relay_choice(v, a, b, r),
    ensures
        r.len() == vstd::math::min(
            PINGREQ_TARGETS as int,
            v.members.dom().filter(|k: Seq<char>| k != a && k != b).len() as int,
        ),
{
    let others = v.members.dom().filter(|k: Seq<char>| k != a && k != b);
    let ids = r.map_values(|m: MemberView| m.id);
    assert(ids.no_duplicates()) by {
        assert forall|i: int, j: int| 0 <= i < ids.len() && 0 <= j < ids.len() && i != j implies ids[i]
            != ids[j] by {}
    }
    ids.unique_seq_to_set();
    assert(ids.to_set().subset_of(others)) by {
        assert forall|k: Seq<char>| ids.to_set().contains(k) implies others.contains(k) by {
            let i = choose|i: int| 0 <= i < ids.len() && ids[i] == k;
            assert(r[i].id == k);
        }
    }
    vstd::set_lib::lemma_len_subset(ids.to_set(), others);
    if r.len() != PINGREQ_TARGETS {
        assert(ids.to_set() =~= others) by {
            assert forall|k: Seq<char>| others.contains(k) implies ids.to_set().contains(k) by {
                assert(v.members.contains_key(k) && k != a && k != b);
                let i = choose|i: int| 0 <= i < r.len() && r[i].id == k;
                assert(ids[i] == k);
            }
        }
    }
}

} // verus!
