//! Saved connection passwords, kept out of the profile file.

use vstd::prelude::*;
use crate::api::ConnectionConfig;
use crate::keyed::{keys_unique, map_of, KeyedList};

verus! {

/// Passwords by connection id.
pub struct PasswordStore {
    entries: KeyedList<String>,
}

impl View for PasswordStore {
    type V = Map<Seq<char>, Seq<char>>;

    closed spec fn view(&self) -> Map<Seq<char>, Seq<char>> {
        self.entries@.map_values(|p: String| p@)
    }
}

impl PasswordStore {
    pub fn new() -> (s: Self)
        ensures
            s@ == Map::<Seq<char>, Seq<char>>::empty(),
    {
        let s = PasswordStore { entries: KeyedList::new() };
        assert(s@ =~= Map::<Seq<char>, Seq<char>>::empty());
        s
    }

    /// A store holding the given (connection id, password) pairs; a later
    /// pair replaces an earlier one of the same id.
    pub fn from_pairs(pairs: Vec<(String, String)>) -> (s: Self)
        ensures
            s@ == stored_passwords(pairs@),
    {
        let mut s = PasswordStore::new();
        let ghost all = pairs@;
        let total = pairs.len();
        let mut rest = pairs;
        let mut i: usize = 0;
        assert(all.skip(0) =~= all);
        assert(s@ =~= stored_passwords(all.take(0)));
        while rest.len() > 0
            invariant
                i <= all.len(),
                total == all.len(),
                rest@ == all.skip(i as int),
                s@ == stored_passwords(all.take(i as int)),
            decreases rest@.len(),
        {
            let (id, pw) = rest.remove(0);
            assert(all.take(i + 1).drop_last() =~= all.take(i as int));
            assert(all.take(i + 1).last() == (id, pw));
            let ghost before = s@;
            set_db_password(&mut s, id.as_str(), pw.as_str());
            assert(rest@ =~= all.skip(i + 1));
            i = i + 1;
        }
        assert(all.take(i as int) =~= all);
        s
    }

    /// The saved (connection id, password) pairs, one per id.
    pub fn into_pairs(self) -> (r: Vec<(String, String)>)
        ensures
            keys_unique(r@),
            map_of(r@).map_values(|p: String| p@) == self@,
    {
        self.entries.into_pairs()
    }
}

/// The passwords that a list of (id, password) pairs saves, a later pair
/// replacing an earlier one.
pub open spec fn stored_passwords(pairs: Seq<(String, String)>) -> Map<Seq<char>, Seq<char>>
    decreases pairs.len(),
{
    if pairs.len() == 0 {
        Map::empty()
    } else {
        stored_passwords(pairs.drop_last()).insert(pairs.last().0@, pairs.last().1@)
    }
}

/// The saved passwords after the password of `id` is set to `pw`.
pub open spec fn with_password(store: Map<Seq<char>, Seq<char>>, id: Seq<char>, pw: Seq<char>) -> Map<
    Seq<char>,
    Seq<char>,
> {
    store.insert(id, pw)
}

/// The saved passwords after the password of `id` is deleted.
pub open spec fn without_password(store: Map<Seq<char>, Seq<char>>, id: Seq<char>) -> Map<Seq<char>, Seq<char>> {
    store.remove(id)
}

/// What a read of the saved passwords gives for `id`: the password, or the
/// message "No entry".
pub open spec fn password_lookup(store: Map<Seq<char>, Seq<char>>, id: Seq<char>) -> Result<Seq<char>, Seq<char>> {
    if store.contains_key(id) {
        Ok(store[id])
    } else {
        Err("No entry"@)
    }
}

pub open spec fn result_text(r: Result<String, String>) -> Result<Seq<char>, Seq<char>> {
    match r {
        Ok(t) => Ok(t@),
        Err(m) => Err(m@),
    }
}

/// Saves the password of a connection, replacing an earlier one.
pub fn set_db_password(store: &mut PasswordStore, conn_id: &str, password: &str)
    ensures
        final(store)@ == with_password(old(store)@, conn_id@, password@),
{
    store.entries.insert(String::from_str(conn_id), String::from_str(password));
    assert(store@ =~= old(store)@.insert(conn_id@, password@));
}

/// The saved password of a connection, or "No entry" when none is saved.
pub fn get_db_password(store: &PasswordStore, conn_id: &str) -> (r: Result<String, String>)
    ensures
        result_text(r) == password_lookup(store@, conn_id@),
{
    match store.entries.get(conn_id) {
        Some(p) => Ok(p.clone()),
        None => Err(String::from_str("No entry")),
    }
}

/// Forgets the password of a connection, if one is saved.
pub fn delete_db_password(store: &mut PasswordStore, conn_id: &str)
    ensures
        final(store)@ == without_password(old(store)@, conn_id@),
{
    store.entries.remove(conn_id);
    assert(store@ =~= old(store)@.remove(conn_id@));
}

/// Whether a password is saved for a connection.
pub fn has_db_password(store: &PasswordStore, conn_id: &str) -> (b: bool)
    ensures
        b == store@.contains_key(conn_id@),
{
    match store.entries.get(conn_id) {
        Some(_) => true,
        None => false,
    }
}

/// A configuration without a usable password: none given, or empty.
pub open spec fn lacks_password(config: ConnectionConfig) -> bool {
    match config.password {
        Some(p) => p@.len() == 0,
        None => true,
    }
}

/// Whether a configuration needs its saved password: it has none of its own,
/// or an empty one.
pub fn needs_saved_password(config: &ConnectionConfig) -> (b: bool)
    ensures
        b == lacks_password(*config),
{
    match &config.password {
        Some(p) => p.as_str().unicode_len() == 0,
        None => true,
    }
}

/// Fills in a configuration's password from the saved one (`saved`, the
/// lookup of the configuration's id) when the configuration has none of its
/// own; a failed lookup leaves the configuration as it was.
pub fn resolve_config_password(config: ConnectionConfig, saved: Result<String, String>) -> (r: ConnectionConfig)
    ensures
        r.id == config.id,
        r.host == config.host,
        r.port == config.port,
        r.user == config.user,
        r.db_name == config.db_name,
        r.password == if lacks_password(config) && saved is Ok {
            Some(saved->Ok_0)
        } else {
            config.password
        },
{
    let mut config = config;
    if needs_saved_password(&config) {
        match saved {
            Ok(pwd) => {
                config.password = Some(pwd);
            },
            Err(_) => {},
        }
    }
    config
}

// ------------------------------------------------------------------
// Laws
// ------------------------------------------------------------------

/// A password read after it is saved is the saved password; saving one
/// connection's password leaves what a read gives for every other
/// connection.
pub proof fn law_get_after_set(before: Map<Seq<char>, Seq<char>>, id: Seq<char>, pw: Seq<char>, other: Seq<char>)
    ensures
        password_lookup(with_password(before, id, pw), id) == Ok::<Seq<char>, Seq<char>>(pw),
        other != id ==> password_lookup(with_password(before, id, pw), other) == password_lookup(before, other),
{
}

/// After a delete a read gives "No entry"; deleting again changes nothing,
/// and what a read gives for every other connection is unchanged.
pub proof fn law_delete_forgets(before: Map<Seq<char>, Seq<char>>, id: Seq<char>, other: Seq<char>)
    ensures
        password_lookup(without_password(before, id), id) == Err::<Seq<char>, Seq<char>>("No entry"@),
        without_password(without_password(before, id), id) == without_password(before, id),
        other != id ==> password_lookup(without_password(before, id), other) == password_lookup(before, other),
{
    assert(before.remove(id).remove(id) =~= before.remove(id));
}

} // verus!
