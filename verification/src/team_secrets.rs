//! The secrets of a team: the last secret that each player was told, by the name
//! of the player.

use vstd::prelude::*;

verus! {

/// The sum of the secrets of a team.
pub open spec fn secret_sum(secrets: Map<Seq<char>, u64>) -> int
    decreases secrets.dom().len(),
    when secrets.dom().finite()
{
    if secrets.dom().is_empty() {
        0
    } else {
        let name = secrets.dom().choose();
        secrets[name] + secret_sum(secrets.remove(name))
    }
}

/// The secrets that a list of entries holds, by the name of the player.
spec fn secrets_of(entries: Seq<(String, u64)>) -> Map<Seq<char>, u64> {
    Map::new(
        |name: Seq<char>| exists|i: int| 0 <= i < entries.len() && (#[trigger] entries[i]).0@ == name,
        |name: Seq<char>|
            entries[choose|i: int| 0 <= i < entries.len() && (#[trigger] entries[i]).0@ == name].1,
    )
}

/// No two entries are of the same player.
spec fn distinct_names(entries: Seq<(String, u64)>) -> bool {
    forall|i: int, j: int|
        0 <= i < j < entries.len() ==> (#[trigger] entries[i]).0@ != (#[trigger] entries[j]).0@
}

/// The secrets of a list that begins with distinct names are finitely many, and
/// the next entry adds its own to them.
proof fn lemma_secrets_of_push(entries: Seq<(String, u64)>, i: int)
    requires
        distinct_names(entries),
        0 <= i < entries.len(),
    ensures
        secrets_of(entries.take(i)).dom().finite(),
        !secrets_of(entries.take(i)).dom().contains(entries[i].0@),
        secrets_of(entries.take(i + 1)) == secrets_of(entries.take(i)).insert(
            entries[i].0@,
            entries[i].1,
        ),
    decreases i,
{
    let earlier = entries.take(i);
    let later = entries.take(i + 1);
    if i == 0 {
        assert(secrets_of(earlier) =~= Map::<Seq<char>, u64>::empty());
    } else {
        lemma_secrets_of_push(entries, i - 1);
    }
    assert forall|name: Seq<char>|
        secrets_of(later).dom().contains(name) <==> secrets_of(earlier).insert(
            entries[i].0@,
            entries[i].1,
        ).dom().contains(name) by {
        if name == entries[i].0@ {
            assert(later[i].0@ == name);
        }
    }
}

/// A new secret for the player of entry `i` takes the place of the old one, and
/// the names stay distinct.
proof fn lemma_secrets_of_update(entries: Seq<(String, u64)>, i: int, entry: (String, u64))
    requires
        distinct_names(entries),
        0 <= i < entries.len(),
        entry.0@ == entries[i].0@,
    ensures
        distinct_names(entries.update(i, entry)),
        secrets_of(entries.update(i, entry)) == secrets_of(entries).insert(entry.0@, entry.1),
{
    let updated = entries.update(i, entry);
    assert forall|name: Seq<char>|
        secrets_of(updated).dom().contains(name) <==> secrets_of(entries).insert(
            entry.0@,
            entry.1,
        ).dom().contains(name) by {
        if secrets_of(entries).dom().contains(name) {
            let j = choose|j: int| 0 <= j < entries.len() && (#[trigger] entries[j]).0@ == name;
            assert(updated[j].0@ == name);
        }
    }
}

/// The sum of the secrets is the secret of any one player and the sum of the
/// others.
pub proof fn lemma_secret_sum_remove(secrets: Map<Seq<char>, u64>, name: Seq<char>)
    requires
        secrets.dom().finite(),
        secrets.dom().contains(name),
    ensures
        secret_sum(secrets) == secrets[name] + secret_sum(secrets.remove(name)),
    decreases secrets.dom().len(),
{
    let first = secrets.dom().choose();
    if first != name {
        lemma_secret_sum_remove(secrets.remove(first), name);
        lemma_secret_sum_remove(secrets.remove(name), first);
        assert(secrets.remove(first).remove(name) =~= secrets.remove(name).remove(first));
    }
}

/// The secrets of a team, one for each player of whom one is known.
pub struct TeamSecrets {
    entries: Vec<(String, u64)>,
}

impl View for TeamSecrets {
    type V = Map<Seq<char>, u64>;

    closed spec fn view(&self) -> Map<Seq<char>, u64> {
        secrets_of(self.entries@)
    }
}

impl TeamSecrets {
    #[verifier::type_invariant]
    spec fn well_formed(&self) -> bool {
        distinct_names(self.entries@)
    }

    /// No secrets.
    pub fn new() -> (secrets: TeamSecrets)
        ensures
            secrets@ == Map::<Seq<char>, u64>::empty(),
    {
        TeamSecrets { entries: Vec::new() }
    }

    /// Records the secret of a player, in place of an earlier one of that player.
    pub fn insert(&mut self, name: String, secret: u64)
        ensures
            final(self)@ == old(self)@.insert(name@, secret),
    {
        proof {
            use_type_invariant(&*self);
        }
        let ghost before = self.entries@;
        let mut entries: Vec<(String, u64)> = Vec::new();
        std::mem::swap(&mut self.entries, &mut entries);
        let mut i: usize = 0;
        let mut found = false;
        while i < entries.len() && !found
            invariant
                i <= entries@.len(),
                entries@ == before,
                !found ==> forall|j: int| 0 <= j < i ==> (#[trigger] before[j]).0@ != name@,
                found ==> i < entries@.len() && before[i as int].0@ == name@,
            decreases entries@.len() - i + (if found { 0int } else { 1int }),
        {
            if entries[i].0 == name {
                found = true;
            } else {
                i += 1;
            }
        }
        if found {
            entries[i].1 = secret;
            proof {
                lemma_secrets_of_update(before, i as int, entries@[i as int]);
            }
        } else {
            entries.push((name, secret));
            proof {
                assert(entries@.take(before.len() as int) =~= before);
                lemma_secrets_of_push(entries@, before.len() as int);
            }
        }
        self.entries = entries;
    }

    /// Gives the secret of a player, if one is known.
    pub fn get(&self, name: &String) -> (secret: Option<u64>)
        ensures
            secret == (if self@.contains_key(name@) {
                Some(self@[name@])
            } else {
                None
            }),
    {
        proof {
            use_type_invariant(self);
        }
        let mut i: usize = 0;
        while i < self.entries.len()
            invariant
                i <= self.entries@.len(),
                distinct_names(self.entries@),
                forall|j: int| 0 <= j < i ==> (#[trigger] self.entries@[j]).0@ != name@,
            decreases self.entries@.len() - i,
        {
            if self.entries[i].0 == *name {
                return Some(self.entries[i].1);
            }
            i += 1;
        }
        None
    }

    /// Gives the number of players of whom a secret is known.
    pub fn len(&self) -> (len: usize)
        ensures
            len == self@.len(),
            self@.dom().finite(),
    {
        proof {
            use_type_invariant(self);
            lemma_secrets_count(self.entries@);
        }
        self.entries.len()
    }

    /// Computes the sum of the secrets, in 128 bits, where it cannot overflow.
    pub fn total(&self) -> (total: u128)
        ensures
            total == secret_sum(self@),
            self@.dom().finite(),
    {
        proof {
            use_type_invariant(self);
            lemma_secrets_count(self.entries@);
        }
        let mut total: u128 = 0;
        let mut i: usize = 0;
        assert(secrets_of(self.entries@.take(0)) =~= Map::<Seq<char>, u64>::empty());
        while i < self.entries.len()
            invariant
                i <= self.entries@.len(),
                distinct_names(self.entries@),
                total == secret_sum(secrets_of(self.entries@.take(i as int))),
                total <= i * 0xFFFF_FFFF_FFFF_FFFF,
            decreases self.entries@.len() - i,
        {
            let secret = self.entries[i].1;
            proof {
                lemma_secrets_of_push(self.entries@, i as int);
                let earlier = secrets_of(self.entries@.take(i as int));
                let later = secrets_of(self.entries@.take(i + 1));
                let name = self.entries@[i as int].0@;
                lemma_secret_sum_remove(later, name);
                assert(later.remove(name) =~= earlier);
            }
            total += secret as u128;
            i += 1;
        }
        assert(self.entries@.take(i as int) =~= self.entries@);
        total
    }
}

/// A list of distinct names holds as many secrets as it has entries.
proof fn lemma_secrets_count(entries: Seq<(String, u64)>)
    requires
        distinct_names(entries),
    ensures
        secrets_of(entries).dom().finite(),
        secrets_of(entries).len() == entries.len(),
    decreases entries.len(),
{
    if entries.len() == 0 {
        assert(secrets_of(entries) =~= Map::<Seq<char>, u64>::empty());
    } else {
        let n = entries.len() - 1;
        let earlier = entries.take(n);
        lemma_secrets_count(earlier);
        lemma_secrets_of_push(entries, n);
        assert(entries.take(n + 1) =~= entries);
    }
}

/// The sum of the secrets after one has been recorded: the secret of that
/// player counts once, with its new value.
pub proof fn lemma_secret_sum_insert(secrets: Map<Seq<char>, u64>, name: Seq<char>, secret: u64)
    requires
        secrets.dom().finite(),
    ensures
        secret_sum(secrets.insert(name, secret)) == secret + secret_sum(secrets.remove(name)),
{
    lemma_secret_sum_remove(secrets.insert(name, secret), name);
    assert(secrets.insert(name, secret).remove(name) =~= secrets.remove(name));
}

} // verus!
