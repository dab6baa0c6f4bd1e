//! The credential cache: a key-value store of string entries with
//! last-write-wins updates and idempotent deletes, the model of the platform
//! credential store that owns all persisted key material. Its view is the
//! map from entry names to values; the binding that copies entries to a real
//! platform store lives with the caller.

use vstd::prelude::*;

use crate::errors::VaultError;

verus! {

/// The in-memory credential store.
pub struct CredentialCache {
    entries: Vec<(String, String)>,
}

/// The map that a sequence of entries denotes, the last entry for a name
/// winning.
spec fn entries_map(s: Seq<(String, String)>) -> Map<Seq<char>, Seq<char>>
    decreases s.len(),
{
    if s.len() == 0 {
        Map::empty()
    } else {
        entries_map(s.drop_last()).insert(s.last().0@, s.last().1@)
    }
}

/// The entries of `s` whose name is not `k`.
spec fn drop_key(s: Seq<(String, String)>, k: Seq<char>) -> Seq<(String, String)> {
    s.filter(|e: (String, String)| e.0@ != k)
}

proof fn lemma_map_drop_key(s: Seq<(String, String)>, k: Seq<char>)
    ensures
        entries_map(drop_key(s, k)) == entries_map(s).remove(k),
    decreases s.len(),
{
    reveal(Seq::filter);
    if s.len() == 0 {
        assert(entries_map(drop_key(s, k)) =~= entries_map(s).remove(k));
    } else {
        let t = s.drop_last();
        lemma_map_drop_key(t, k);
        if s.last().0@ != k {
            assert(drop_key(s, k) == drop_key(t, k).push(s.last()));
            assert(drop_key(t, k).push(s.last()).drop_last() =~= drop_key(t, k));
            assert(drop_key(t, k).push(s.last()).last() == s.last());
            assert(entries_map(drop_key(s, k)) == entries_map(drop_key(t, k)).insert(
                s.last().0@,
                s.last().1@,
            ));
            assert(entries_map(drop_key(s, k)) =~= entries_map(s).remove(k));
        } else {
            assert(drop_key(s, k) == drop_key(t, k));
            assert(entries_map(drop_key(s, k)) =~= entries_map(s).remove(k));
        }
    }
}

impl View for CredentialCache {
    type V = Map<Seq<char>, Seq<char>>;

    closed spec fn view(&self) -> Map<Seq<char>, Seq<char>> {
        entries_map(self.entries@)
    }
}

impl CredentialCache {
    /// An empty cache.
    pub fn new() -> (r: CredentialCache)
        ensures
            r@ == Map::<Seq<char>, Seq<char>>::empty(),
    {
        CredentialCache { entries: Vec::new() }
    }

    /// The value of the entry named `name`, or `None` when no entry exists;
    /// absence is an answer, not an error.
    pub fn get(&self, name: &str) -> (r: Option<&String>)
        ensures
            match r {
                Some(v) => self@.contains_key(name@) && v@ == self@[name@],
                None => !self@.contains_key(name@),
            },
    {
        let needle: String = name.to_owned();
        let s = &self.entries;
        let n = s.len();
        let mut i: usize = n;
        proof {
            assert(s@.take(n as int) =~= s@);
        }
        while i > 0
            invariant
                i <= n,
                n == s@.len(),
                needle@ == name@,
                s@ == self.entries@,
                entries_map(s@).contains_key(name@) == entries_map(s@.take(i as int)).contains_key(
                    name@,
                ),
                entries_map(s@).contains_key(name@) ==> entries_map(s@)[name@] == entries_map(
                    s@.take(i as int),
                )[name@],
            decreases i,
        {
            let j = i - 1;
            proof {
                assert(s@.take(i as int).drop_last() =~= s@.take(j as int));
                assert(s@.take(i as int).last() == s@[j as int]);
            }
            if s[j].0 == needle {
                proof {
                    assert(entries_map(s@.take(i as int)).contains_key(name@));
                    assert(entries_map(s@.take(i as int))[name@] == s@[j as int].1@);
                    assert(s@ == self.entries@);
                    assert(self@ == entries_map(s@));
                }
                return Some(&s[j].1);
            }
            i = j;
        }
        proof {
            assert(!entries_map(s@.take(0)).contains_key(name@));
        }
        None
    }

    /// Whether an entry named `name` exists.
    pub fn contains(&self, name: &str) -> (r: bool)
        ensures
            r == self@.contains_key(name@),
    {
        self.get(name).is_some()
    }

    /// Removes every entry named `name`; removing an absent name succeeds
    /// and changes nothing.
    pub fn delete(&mut self, name: &str)
        ensures
            final(self)@ == old(self)@.remove(name@),
    {
        let needle: String = name.to_owned();
        let ghost s0 = self.entries@;
        let mut kept: Vec<(String, String)> = Vec::new();
        let n = self.entries.len();
        let mut i: usize = 0;
        proof {
            reveal(Seq::filter);
            assert(s0.take(0) =~= Seq::<(String, String)>::empty());
            assert(kept@ =~= drop_key(s0.take(0), name@));
        }
        while i < n
            invariant
                i <= n,
                n == s0.len(),
                self.entries@ == s0,
                needle@ == name@,
                kept@ == drop_key(s0.take(i as int), name@),
            decreases n - i,
        {
            let e = &self.entries[i];
            if !(e.0 == needle) {
                let copied = (e.0.clone(), e.1.clone());
                proof {
                    assert(copied == s0[i as int]);
                }
                kept.push(copied);
            }
            proof {
                reveal(Seq::filter);
                assert(s0.take((i + 1) as int).drop_last() =~= s0.take(i as int));
                assert(s0.take((i + 1) as int).last() == s0[i as int]);
            }
            i = i + 1;
        }
        self.entries = kept;
        proof {
            assert(s0.take(n as int) =~= s0);
            lemma_map_drop_key(s0, name@);
        }
    }

    /// Stores `value` under `name`, overwriting any prior value.
    pub fn set(&mut self, name: &str, value: String)
        ensures
            final(self)@ == old(self)@.insert(name@, value@),
    {
        self.delete(name);
        let ghost s1 = self.entries@;
        self.entries.push((name.to_owned(), value));
        proof {
            assert(self.entries@.drop_last() =~= s1);
            assert(self@ =~= old(self)@.insert(name@, value@));
        }
    }
}

/// The answer to a secret lookup: the value, or `None` for an absent entry.
pub struct SecretResponse {
    pub value: Option<String>,
}

/// Stores an opaque secret under `key`, overwriting any prior value.
pub fn set_secret(cache: &mut CredentialCache, key: &str, value: String) -> (r: Result<
    (),
    VaultError,
>)
    ensures
        r is Ok,
        final(cache)@ == old(cache)@.insert(key@, value@),
{
    cache.set(key, value);
    Ok(())
}

/// Looks an opaque secret up; an absent entry answers `None` rather than
/// failing.
pub fn get_secret(cache: &CredentialCache, key: &str) -> (r: Result<SecretResponse, VaultError>)
    ensures
        r is Ok,
        r matches Ok(resp) ==> match resp.value {
            Some(v) => cache@.contains_key(key@) && v@ == cache@[key@],
            None => !cache@.contains_key(key@),
        },
{
    match cache.get(key) {
        Some(v) => Ok(SecretResponse { value: Some(v.clone()) }),
        None => Ok(SecretResponse { value: None }),
    }
}

/// Removes an opaque secret; deleting an absent entry succeeds.
pub fn delete_secret(cache: &mut CredentialCache, key: &str) -> (r: Result<(), VaultError>)
    ensures
        r is Ok,
        final(cache)@ == old(cache)@.remove(key@),
{
    cache.delete(key);
    Ok(())
}

} // verus!
