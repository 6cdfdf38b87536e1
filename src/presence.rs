//! The presence registry: who is connected, keyed by connection id.

use crate::shared::User;
use vstd::prelude::*;

verus! {

/// The id to name map described by a sequence of users, later entries winning.
pub open spec fn presence_of(users: Seq<User>) -> Map<Seq<char>, Seq<char>>
    decreases users.len(),
{
    if users.len() == 0 {
        Map::empty()
    } else {
        presence_of(users.drop_last()).insert(users.last().id@, users.last().name@)
    }
}

/// No two users of the sequence share an id.
pub open spec fn ids_distinct(users: Seq<User>) -> bool {
    forall|i: int, j: int|
        0 <= i < users.len() && 0 <= j < users.len() && i != j ==> #[trigger] users[i].id@
            != #[trigger] users[j].id@
}

/// Two sequences of users that agree on every id and name.
pub open spec fn same_identities(a: Seq<User>, b: Seq<User>) -> bool {
    &&& a.len() == b.len()
    &&& forall|i: int|
        0 <= i < a.len() ==> #[trigger] a[i].id@ == b[i].id@ && a[i].name@ == b[i].name@
}

/// With distinct ids, the map holds exactly the users' ids, each with its
/// user's name, and has one entry per user.
proof fn lemma_presence_of(users: Seq<User>)
    requires
        ids_distinct(users),
    ensures
        forall|k: Seq<char>|
            #[trigger] presence_of(users).dom().contains(k) <==> exists|i: int|
                0 <= i < users.len() && users[i].id@ == k,
        forall|i: int|
            0 <= i < users.len() ==> #[trigger] presence_of(users)[users[i].id@] == users[i].name@,
        presence_of(users).dom().finite(),
        presence_of(users).dom().len() == users.len(),
    decreases users.len(),
{
    if users.len() > 0 {
        let prefix = users.drop_last();
        let last = users.last();
        let n = users.len() - 1;
        assert forall|i: int, j: int|
            0 <= i < prefix.len() && 0 <= j < prefix.len() && i != j implies #[trigger] prefix[i].id@
            != #[trigger] prefix[j].id@ by {
            assert(prefix[i] == users[i] && prefix[j] == users[j]);
        }
        lemma_presence_of(prefix);
        assert(!presence_of(prefix).dom().contains(last.id@)) by {
            if presence_of(prefix).dom().contains(last.id@) {
                let i = choose|i: int| 0 <= i < prefix.len() && prefix[i].id@ == last.id@;
                assert(users[i].id@ == users[n].id@);
            }
        }
        assert forall|k: Seq<char>|
            #[trigger] presence_of(users).dom().contains(k) <==> exists|i: int|
                0 <= i < users.len() && users[i].id@ == k by {
            if presence_of(users).dom().contains(k) {
                if k == last.id@ {
                    assert(users[n].id@ == k);
                } else {
                    assert(presence_of(prefix).dom().contains(k));
                    let i = choose|i: int| 0 <= i < prefix.len() && prefix[i].id@ == k;
                    assert(users[i].id@ == k);
                }
            }
            if exists|i: int| 0 <= i < users.len() && users[i].id@ == k {
                let i = choose|i: int| 0 <= i < users.len() && users[i].id@ == k;
                if i < n {
                    assert(prefix[i].id@ == k);
                    assert(presence_of(prefix).dom().contains(k));
                }
            }
        }
        assert forall|i: int| 0 <= i < users.len() implies #[trigger] presence_of(users)[users[i].id@]
            == users[i].name@ by {
            if i < n {
                assert(users[i].id@ != users[n].id@);
                assert(prefix[i] == users[i]);
                assert(presence_of(prefix)[prefix[i].id@] == prefix[i].name@);
            }
        }
    }
}

/// Sequences that agree on every id and name describe the same map.
proof fn lemma_presence_same_identities(a: Seq<User>, b: Seq<User>)
    requires
        same_identities(a, b),
    ensures
        presence_of(a) == presence_of(b),
    decreases a.len(),
{
    if a.len() > 0 {
        let (pa, pb) = (a.drop_last(), b.drop_last());
        assert(same_identities(pa, pb)) by {
            assert forall|i: int| 0 <= i < pa.len() implies #[trigger] pa[i].id@ == pb[i].id@
                && pa[i].name@ == pb[i].name@ by {
                assert(pa[i] == a[i] && pb[i] == b[i]);
            }
        }
        lemma_presence_same_identities(pa, pb);
        assert(a.last().id@ == b.last().id@ && a.last().name@ == b.last().name@) by {
            assert(a[a.len() - 1] == a.last() && b[b.len() - 1] == b.last());
        }
    }
}

/// The connected users, at most one per connection id.
pub struct PresenceRegistry {
    users: Vec<User>,
}

impl View for PresenceRegistry {
    type V = Map<Seq<char>, Seq<char>>;

    /// Connection id to display name.
    closed spec fn view(&self) -> Map<Seq<char>, Seq<char>> {
        presence_of(self.users@)
    }
}

impl PresenceRegistry {
    #[verifier::type_invariant]
    spec fn one_entry_per_id(&self) -> bool {
        ids_distinct(self.users@)
    }

    /// No user connected.
    pub fn new() -> (r: PresenceRegistry)
        ensures
            r@ == Map::<Seq<char>, Seq<char>>::empty(),
    {
        PresenceRegistry { users: Vec::new() }
    }

    /// The position of the user with connection id `id`, if any.
    fn position_of(&self, id: &String) -> (r: Option<usize>)
        ensures
            r matches Some(i) ==> i < self.users@.len() && self.users@[i as int].id@ == id@,
            r is None ==> forall|i: int|
                0 <= i < self.users@.len() ==> #[trigger] self.users@[i].id@ != id@,
    {
        let mut i: usize = 0;
        while i < self.users.len()
            invariant
                i <= self.users@.len(),
                forall|j: int| 0 <= j < i ==> #[trigger] self.users@[j].id@ != id@,
            decreases self.users@.len() - i,
        {
            if self.users[i].id == *id {
                return Some(i);
            }
            i += 1;
        }
        None
    }

    /// Whether a user with connection id `id` is connected.
    pub fn contains(&self, id: &String) -> (r: bool)
        ensures
            r == self@.dom().contains(id@),
    {
        proof {
            use_type_invariant(self);
            lemma_presence_of(self.users@);
        }
        self.position_of(id).is_some()
    }

    /// How many users are connected.
    pub fn len(&self) -> (n: usize)
        ensures
            n == self@.dom().len(),
    {
        proof {
            use_type_invariant(self);
            lemma_presence_of(self.users@);
        }
        self.users.len()
    }

    /// Removes the user with connection id `id`; nothing happens when there is none.
    pub fn unregister(&mut self, id: &String)
        ensures
            final(self)@ == old(self)@.remove(id@),
    {
        proof {
            use_type_invariant(&*self);
            lemma_presence_of(self.users@);
        }
        match self.position_of(id) {
            None => {
                proof {
                    assert(!self@.dom().contains(id@));
                    assert(self@.remove(id@) =~= self@);
                }
            },
            Some(i) => {
                let ghost before = self.users@;
                let mut users: Vec<User> = Vec::new();
                std::mem::swap(&mut users, &mut self.users);
                users.remove(i);
                let ghost after = users@;
                proof {
                    assert forall|a: int, b: int|
                        0 <= a < after.len() && 0 <= b < after.len() && a != b implies #[trigger] after[a].id@
                        != #[trigger] after[b].id@ by {
                        let a0 = if a < i { a } else { a + 1 };
                        let b0 = if b < i { b } else { b + 1 };
                        assert(after[a] == before[a0] && after[b] == before[b0]);
                    }
                    lemma_presence_of(after);
                    assert forall|k: Seq<char>|
                        presence_of(after).dom().contains(k) <==> #[trigger] presence_of(
                            before,
                        ).remove(id@).dom().contains(k) by {
                        if presence_of(after).dom().contains(k) {
                            let a = choose|a: int| 0 <= a < after.len() && after[a].id@ == k;
                            let a0 = if a < i { a } else { a + 1 };
                            assert(after[a] == before[a0]);
                        }
                        if presence_of(before).remove(id@).dom().contains(k) {
                            let b = choose|b: int| 0 <= b < before.len() && before[b].id@ == k;
                            assert(b != i);
                            let a = if b < i { b } else { b - 1 };
                            assert(after[a] == before[b]);
                        }
                    }
                    assert forall|k: Seq<char>| #[trigger]
                        presence_of(after).dom().contains(k) implies presence_of(after)[k]
                        == presence_of(before).remove(id@)[k] by {
                        let a = choose|a: int| 0 <= a < after.len() && after[a].id@ == k;
                        let a0 = if a < i { a } else { a + 1 };
                        assert(after[a] == before[a0]);
                        assert(presence_of(before)[before[a0].id@] == before[a0].name@);
                        assert(presence_of(after)[after[a].id@] == after[a].name@);
                    }
                    assert(presence_of(after) =~= presence_of(before).remove(id@));
                }
                self.users = users;
            },
        }
    }

    /// Registers a user with connection id `id` and display name `name`,
    /// connected now, in place of any user already registered under `id`.
    /// Returns a copy of the stored user.
    pub fn register(&mut self, id: String, name: String) -> (u: User)
        ensures
            final(self)@ == old(self)@.insert(id@, name@),
            u.id@ == id@,
            u.name@ == name@,
    {
        self.unregister(&id);
        proof {
            use_type_invariant(&*self);
            lemma_presence_of(self.users@);
        }
        let user = User::with_id(id, name);
        let copy = user.duplicate();
        let ghost before = self.users@;
        let mut users: Vec<User> = Vec::new();
        std::mem::swap(&mut users, &mut self.users);
        users.push(user);
        proof {
            assert(users@.drop_last() =~= before);
            assert forall|a: int, b: int|
                0 <= a < users@.len() && 0 <= b < users@.len() && a != b implies #[trigger] users@[a].id@
                != #[trigger] users@[b].id@ by {
                if a < before.len() && b < before.len() {
                    assert(users@[a] == before[a] && users@[b] == before[b]);
                } else if a < before.len() {
                    assert(users@[a] == before[a]);
                    assert(presence_of(before).dom().contains(before[a].id@));
                } else if b < before.len() {
                    assert(users@[b] == before[b]);
                    assert(presence_of(before).dom().contains(before[b].id@));
                }
            }
        }
        self.users = users;
        copy
    }

    /// A copy of every connected user, one per connection id, in no
    /// particular order.
    pub fn snapshot(&self) -> (r: Vec<User>)
        ensures
            presence_of(r@) == self@,
            ids_distinct(r@),
            r@.len() == self@.dom().len(),
    {
        proof {
            use_type_invariant(self);
            lemma_presence_of(self.users@);
        }
        let mut copies: Vec<User> = Vec::new();
        let mut i: usize = 0;
        while i < self.users.len()
            invariant
                i <= self.users@.len(),
                same_identities(copies@, self.users@.subrange(0, i as int)),
            decreases self.users@.len() - i,
        {
            copies.push(self.users[i].duplicate());
            i += 1;
        }
        proof {
            assert(self.users@.subrange(0, i as int) =~= self.users@);
            lemma_presence_same_identities(copies@, self.users@);
            assert forall|a: int, b: int|
                0 <= a < copies@.len() && 0 <= b < copies@.len() && a != b implies #[trigger] copies@[a].id@
                != #[trigger] copies@[b].id@ by {
                assert(copies@[a].id@ == self.users@[a].id@);
                assert(copies@[b].id@ == self.users@[b].id@);
            }
        }
        copies
    }
}

} // verus!
