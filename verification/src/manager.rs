//! The registry of open connections, keyed by connection id.

use vstd::prelude::*;
use crate::keyed::KeyedList;
use crate::text::str_is;

verus! {

/// An open connection: a relational driver or a key-value driver.
pub enum ActiveConnection<R, K> {
    Relational(R),
    KeyValue(K),
}

/// The drivers that the client ships.
#[derive(Debug, Clone, Copy, PartialEq, Eq, Structural)]
pub enum DriverChoice {
    Postgres,
    Redis,
}

pub open spec fn unsupported_driver_message(driver_id: Seq<char>) -> Seq<char> {
    "Unsupported driver: "@ + driver_id
}

/// The driver named by a driver id: `postgres` or `redis`; any other id is
/// refused.
pub fn driver_for_id(driver_id: &str) -> (r: Result<DriverChoice, String>)
    ensures
        driver_id@ == "postgres"@ ==> r == Ok::<DriverChoice, String>(DriverChoice::Postgres),
        driver_id@ == "redis"@ ==> r == Ok::<DriverChoice, String>(DriverChoice::Redis),
        driver_id@ != "postgres"@ && driver_id@ != "redis"@ ==> (r matches Err(m) && m@
            == unsupported_driver_message(driver_id@)),
{
    proof {
        reveal_strlit("postgres");
        reveal_strlit("redis");
        assert("redis"@.len() != "postgres"@.len());
    }
    if str_is(driver_id, "postgres") {
        Ok(DriverChoice::Postgres)
    } else if str_is(driver_id, "redis") {
        Ok(DriverChoice::Redis)
    } else {
        let mut m = String::from_str("Unsupported driver: ");
        m.append(driver_id);
        Err(m)
    }
}

/// The open connections after `conn` is registered under `id`.
pub open spec fn with_connection<R, K>(
    m: Map<Seq<char>, ActiveConnection<R, K>>,
    id: Seq<char>,
    conn: ActiveConnection<R, K>,
) -> Map<Seq<char>, ActiveConnection<R, K>> {
    m.insert(id, conn)
}

/// The open connections after the one of `id` is closed.
pub open spec fn without_connection<R, K>(m: Map<Seq<char>, ActiveConnection<R, K>>, id: Seq<char>) -> Map<
    Seq<char>,
    ActiveConnection<R, K>,
> {
    m.remove(id)
}

/// What closing `id` answers: done, or "Connection not found".
pub open spec fn disconnect_outcome<R, K>(m: Map<Seq<char>, ActiveConnection<R, K>>, id: Seq<char>) -> Result<
    (),
    Seq<char>,
> {
    if m.contains_key(id) {
        Ok(())
    } else {
        Err("Connection not found"@)
    }
}

/// What asking `id` for its relational driver answers.
pub open spec fn relational_lookup<R, K>(m: Map<Seq<char>, ActiveConnection<R, K>>, id: Seq<char>) -> Result<
    R,
    Seq<char>,
> {
    if !m.contains_key(id) {
        Err("Connection not found"@)
    } else {
        match m[id] {
            ActiveConnection::Relational(d) => Ok(d),
            ActiveConnection::KeyValue(_) => Err("Not a relational connection"@),
        }
    }
}

/// What asking `id` for its key-value driver answers.
pub open spec fn key_value_lookup<R, K>(m: Map<Seq<char>, ActiveConnection<R, K>>, id: Seq<char>) -> Result<
    K,
    Seq<char>,
> {
    if !m.contains_key(id) {
        Err("Connection not found"@)
    } else {
        match m[id] {
            ActiveConnection::KeyValue(d) => Ok(d),
            ActiveConnection::Relational(_) => Err("Not a key-value connection"@),
        }
    }
}

/// The open connections of the application.
#[verifier::reject_recursive_types(R)]
#[verifier::reject_recursive_types(K)]
pub struct ConnectionManager<R, K> {
    connections: KeyedList<ActiveConnection<R, K>>,
}

impl<R, K> View for ConnectionManager<R, K> {
    type V = Map<Seq<char>, ActiveConnection<R, K>>;

    closed spec fn view(&self) -> Map<Seq<char>, ActiveConnection<R, K>> {
        self.connections@
    }
}

impl<R, K> ConnectionManager<R, K> {
    /// No connection open.
    pub fn new() -> (m: Self)
        ensures
            m@ == Map::<Seq<char>, ActiveConnection<R, K>>::empty(),
    {
        ConnectionManager { connections: KeyedList::new() }
    }

    /// The number of open connections.
    pub fn len(&self) -> (n: usize)
        ensures
            n == self@.len(),
    {
        self.connections.len()
    }

    /// Records a newly opened connection under its id, replacing any
    /// connection open under the same id.
    pub fn register(&mut self, connection_id: String, connection: ActiveConnection<R, K>)
        ensures
            final(self)@ == with_connection(old(self)@, connection_id@, connection),
    {
        self.connections.insert(connection_id, connection);
    }

    /// Closes a connection: removed if open, refused if not.
    pub fn disconnect(&mut self, connection_id: &str) -> (r: Result<(), String>)
        ensures
            final(self)@ == without_connection(old(self)@, connection_id@),
            match r {
                Ok(_) => disconnect_outcome(old(self)@, connection_id@) is Ok,
                Err(m) => disconnect_outcome(old(self)@, connection_id@) == Err::<(), Seq<char>>(m@),
            },
    {
        match self.connections.take(connection_id) {
            Some(_) => Ok(()),
            None => Err(String::from_str("Connection not found")),
        }
    }

    /// The relational driver of a connection: refused when no connection has
    /// that id or when it is a key-value connection.
    pub fn get_relational(&self, connection_id: &str) -> (r: Result<&R, String>)
        ensures
            match r {
                Ok(d) => relational_lookup(self@, connection_id@) == Ok::<R, Seq<char>>(*d),
                Err(m) => relational_lookup(self@, connection_id@) == Err::<R, Seq<char>>(m@),
            },
    {
        match self.connections.get(connection_id) {
            Some(conn) => match conn {
                ActiveConnection::Relational(d) => Ok(d),
                ActiveConnection::KeyValue(_) => Err(String::from_str("Not a relational connection")),
            },
            None => Err(String::from_str("Connection not found")),
        }
    }

    /// The key-value driver of a connection: refused when no connection has
    /// that id or when it is a relational connection.
    pub fn get_key_value(&self, connection_id: &str) -> (r: Result<&K, String>)
        ensures
            match r {
                Ok(d) => key_value_lookup(self@, connection_id@) == Ok::<K, Seq<char>>(*d),
                Err(m) => key_value_lookup(self@, connection_id@) == Err::<K, Seq<char>>(m@),
            },
    {
        match self.connections.get(connection_id) {
            Some(conn) => match conn {
                ActiveConnection::KeyValue(d) => Ok(d),
                ActiveConnection::Relational(_) => Err(String::from_str("Not a key-value connection")),
            },
            None => Err(String::from_str("Connection not found")),
        }
    }
}

impl<R, K> Default for ConnectionManager<R, K> {
    fn default() -> (m: Self)
        ensures
            m@ == Map::<Seq<char>, ActiveConnection<R, K>>::empty(),
    {
        Self::new()
    }
}

// ------------------------------------------------------------------
// Laws
// ------------------------------------------------------------------

/// A connection registered under an id is the one served for that id until
/// it is closed or replaced: asking for the other kind of driver is refused;
/// registering one id changes no answer for another.
pub proof fn law_lookup_after_register<R, K>(
    before: Map<Seq<char>, ActiveConnection<R, K>>,
    id: Seq<char>,
    conn: ActiveConnection<R, K>,
    other: Seq<char>,
)
    ensures
        relational_lookup(with_connection(before, id, conn), id) == match conn {
            ActiveConnection::Relational(d) => Ok::<R, Seq<char>>(d),
            ActiveConnection::KeyValue(_) => Err::<R, Seq<char>>("Not a relational connection"@),
        },
        key_value_lookup(with_connection(before, id, conn), id) == match conn {
            ActiveConnection::KeyValue(d) => Ok::<K, Seq<char>>(d),
            ActiveConnection::Relational(_) => Err::<K, Seq<char>>("Not a key-value connection"@),
        },
        disconnect_outcome(with_connection(before, id, conn), id) is Ok,
        other != id ==> relational_lookup(with_connection(before, id, conn), other) == relational_lookup(
            before,
            other,
        ),
        other != id ==> key_value_lookup(with_connection(before, id, conn), other) == key_value_lookup(
            before,
            other,
        ),
{
}

/// After a connection is closed its id is unknown: a second close, and every
/// lookup, is refused with "Connection not found"; other ids are untouched.
pub proof fn law_disconnect_forgets<R, K>(
    before: Map<Seq<char>, ActiveConnection<R, K>>,
    id: Seq<char>,
    other: Seq<char>,
)
    ensures
        disconnect_outcome(without_connection(before, id), id) == Err::<(), Seq<char>>("Connection not found"@),
        relational_lookup(without_connection(before, id), id) == Err::<R, Seq<char>>("Connection not found"@),
        key_value_lookup(without_connection(before, id), id) == Err::<K, Seq<char>>("Connection not found"@),
        other != id ==> relational_lookup(without_connection(before, id), other) == relational_lookup(
            before,
            other,
        ),
        other != id ==> key_value_lookup(without_connection(before, id), other) == key_value_lookup(
            before,
            other,
        ),
{
}

} // verus!
