//! The session store: its handle to the backend, and the decisions of its
//! operations. Each operation is a short exchange with the key-value
//! backend; the functions here say what to ask the backend and what a reply
//! means, and whoever holds the connection carries the requests out.

use vstd::prelude::*;
use crate::error::MyError;
use crate::session::{Session, record_text, decodes_to, lemma_round_trip};

verus! {

#[verifier::external_type_specification]
#[verifier::external_body]
pub struct ExClient(redis::Client);

/// Whether redis accepts `s` as a connection descriptor (a `redis://`,
/// `rediss://` or `redis+unix://` URL, or a socket path).
pub uninterp spec fn redis_descriptor_ok(s: Seq<char>) -> bool;

/// Relies on `redis::Client::open`: parses the connection descriptor and
/// opens no connection, so the outcome depends on the text alone.
#[verifier::external_body]
fn open_client(connection_info: &str) -> (r: Result<redis::Client, redis::RedisError>)
    ensures
        r is Ok <==> redis_descriptor_ok(connection_info@),
{
    redis::Client::open(connection_info)
}

/// A session store on a redis server. It holds only the client: a
/// connection is obtained for each operation.
#[derive(Debug)]
pub struct RedisSessionStore {
    client: redis::Client,
}

impl RedisSessionStore {
    /// A store for the server and database that `connection_info` names
    /// (`redis://host/db`). A malformed descriptor is refused by redis.
    pub fn new(connection_info: &str) -> (r: Result<RedisSessionStore, redis::RedisError>)
        ensures
            r is Ok <==> redis_descriptor_ok(connection_info@),
    {
        match open_client(connection_info) {
            Ok(client) => Ok(RedisSessionStore { client }),
            Err(e) => Err(e),
        }
    }

    /// The client through which connections are obtained.
    pub fn client(&self) -> &redis::Client {
        &self.client
    }
}

/// The outcome of a fetch, as values: `None` for an error, `Some(None)` for
/// an absent record, `Some(Some(fields))` for a record.
pub open spec fn get_outcome(r: Result<Option<Session>, MyError>) -> Option<Option<(Seq<char>, Seq<char>)>> {
    match r {
        Ok(Some(s)) => Some(Some(s.fields())),
        Ok(None) => Some(None),
        Err(_) => None,
    }
}

/// `out` is what a fetch may give when the backend holds `stored` under the
/// key: absent for no value, else what decoding the value gives.
pub open spec fn fetch_allows(
    stored: Option<Seq<char>>,
    out: Option<Option<(Seq<char>, Seq<char>)>>,
) -> bool {
    match stored {
        None => out == Some(None::<(Seq<char>, Seq<char>)>),
        Some(t) => match out {
            Some(Some(fields)) => decodes_to(t, Some(fields)),
            Some(None) => false,
            None => decodes_to(t, None),
        },
    }
}

/// The value under `key` in the key space `ks`.
pub open spec fn lookup(ks: Map<Seq<char>, Seq<char>>, key: Seq<char>) -> Option<Seq<char>> {
    if ks.contains_key(key) {
        Some(ks[key])
    } else {
        None
    }
}

/// `out` is what fetching `sid` from the key space `ks` may give.
pub open spec fn get_allows(
    ks: Map<Seq<char>, Seq<char>>,
    sid: Seq<char>,
    out: Option<Option<(Seq<char>, Seq<char>)>>,
) -> bool {
    fetch_allows(lookup(ks, sid), out)
}

/// The key space after storing the record with these fields.
pub open spec fn after_set(
    ks: Map<Seq<char>, Seq<char>>,
    sid: Seq<char>,
    credentials: Seq<char>,
) -> Map<Seq<char>, Seq<char>> {
    ks.insert(sid, record_text(sid, credentials))
}

/// The key space after deleting `keys`.
pub open spec fn after_clear(
    ks: Map<Seq<char>, Seq<char>>,
    keys: Seq<Seq<char>>,
) -> Map<Seq<char>, Seq<char>> {
    ks.remove_keys(keys.to_set())
}

/// What a fetch returns, given the backend's reply to the read of its key.
pub fn finish_get(reply: Result<Option<String>, redis::RedisError>) -> (r: Result<Option<Session>, MyError>)
    ensures
        match reply {
            Err(e) => r == Err::<Option<Session>, MyError>(MyError::Redis(e)),
            Ok(stored) => fetch_allows(
                match stored {
                    Some(t) => Some(t@),
                    None => None,
                },
                get_outcome(r),
            ) && (r is Err ==> r->Err_0 is Json),
        },
{
    match reply {
        Err(e) => Err(MyError::from(e)),
        Ok(None) => Ok(None),
        Ok(Some(text)) => match Session::decode(text.as_str()) {
            Ok(s) => Ok(Some(s)),
            Err(e) => Err(e),
        },
    }
}

/// The key and value to write for storing `session`.
pub fn set_entry(session: &Session) -> (r: (String, String))
    ensures
        r.0@ == session.sid@,
        r.1@ == record_text(session.sid@, session.credentials@),
{
    (session.sid.clone(), session.encode())
}

/// What a backend request whose reply carries no value returns: its failure,
/// if any, as the store's error.
pub fn finish_write(reply: Result<(), redis::RedisError>) -> (r: Result<(), MyError>)
    ensures
        match reply {
            Ok(()) => r is Ok,
            Err(e) => r == Err::<(), MyError>(MyError::Redis(e)),
        },
{
    match reply {
        Ok(()) => Ok(()),
        Err(e) => Err(MyError::from(e)),
    }
}

/// Keys as character sequences.
pub open spec fn key_views(keys: Seq<String>) -> Seq<Seq<char>> {
    keys.map_values(|k: String| k@)
}

/// What a batch delete does next.
pub enum ClearStep {
    /// Delete this key, and report the reply with `ClearBatch::advance`.
    Delete(String),
    /// The batch is over, with this result.
    Finished(Result<(), MyError>),
}

/// A batch delete in progress: the keys, in the caller's order, and how
/// many of them are deleted.
pub struct ClearBatch {
    keys: Vec<String>,
    done: usize,
}

impl ClearBatch {
    pub closed spec fn keys(&self) -> Seq<String> {
        self.keys@
    }

    pub closed spec fn done(&self) -> nat {
        self.done as nat
    }

    pub open spec fn wf(&self) -> bool {
        self.done() <= self.keys().len()
    }

    /// The keys as character sequences.
    pub open spec fn key_views(&self) -> Seq<Seq<char>> {
        key_views(self.keys())
    }

    /// The step that the batch is at: the next key to delete, or success
    /// once every key is deleted.
    pub open spec fn step(&self) -> ClearStep {
        if self.done() < self.keys().len() {
            ClearStep::Delete(self.keys()[self.done() as int])
        } else {
            ClearStep::Finished(Ok(()))
        }
    }

    pub fn new(keys: Vec<String>) -> (r: ClearBatch)
        ensures
            r.wf(),
            r.keys() == keys@,
            r.done() == 0,
    {
        ClearBatch { keys, done: 0 }
    }

    /// The first step of the batch.
    pub fn next_step(&self) -> (r: ClearStep)
        requires
            self.wf(),
        ensures
            r == self.step(),
    {
        if self.done < self.keys.len() {
            ClearStep::Delete(self.keys[self.done].clone())
        } else {
            ClearStep::Finished(Ok(()))
        }
    }

    /// Takes the backend's reply to the delete of the current key. On
    /// success the batch moves on to the next key; on failure it stops with
    /// that failure, and the keys deleted so far stay deleted.
    pub fn advance(&mut self, reply: Result<(), redis::RedisError>) -> (r: ClearStep)
        requires
            old(self).wf(),
            old(self).done() < old(self).keys().len(),
        ensures
            final(self).wf(),
            final(self).keys() == old(self).keys(),
            match reply {
                Ok(()) => final(self).done() == old(self).done() + 1 && r == final(self).step(),
                Err(e) => final(self).done() == old(self).done() && r == ClearStep::Finished(
                    Err(MyError::Redis(e)),
                ),
            },
    {
        match reply {
            Ok(()) => {
                let n = self.keys.len();
                assert(self.done < n);
                self.done = self.done + 1;
                self.next_step()
            },
            Err(e) => ClearStep::Finished(Err(MyError::from(e))),
        }
    }
}

/// A key with no value fetches as absent, not as an error.
pub proof fn lemma_get_unwritten(
    ks: Map<Seq<char>, Seq<char>>,
    sid: Seq<char>,
    out: Option<Option<(Seq<char>, Seq<char>)>>,
)
    requires
        !ks.contains_key(sid),
        get_allows(ks, sid, out),
    ensures
        out == Some(None::<(Seq<char>, Seq<char>)>),
{
}

/// A key that was cleared fetches as absent, not as an error.
pub proof fn lemma_get_after_clear(
    ks: Map<Seq<char>, Seq<char>>,
    keys: Seq<Seq<char>>,
    sid: Seq<char>,
    out: Option<Option<(Seq<char>, Seq<char>)>>,
)
    requires
        keys.contains(sid),
        get_allows(after_clear(ks, keys), sid, out),
    ensures
        out == Some(None::<(Seq<char>, Seq<char>)>),
{
    assert(keys.to_set().contains(sid));
}

/// Of two records stored in turn under one sid, a fetch gives the later.
pub proof fn lemma_overwrite(
    ks: Map<Seq<char>, Seq<char>>,
    sid: Seq<char>,
    first: Seq<char>,
    second: Seq<char>,
    out: Option<Option<(Seq<char>, Seq<char>)>>,
)
    requires
        get_allows(after_set(after_set(ks, sid, first), sid, second), sid, out),
    ensures
        out == Some(Some((sid, second))),
{
    let ks2 = after_set(after_set(ks, sid, first), sid, second);
    assert(ks2[sid] == record_text(sid, second));
    match out {
        Some(Some(fields)) => lemma_round_trip(sid, second, Some(fields)),
        Some(None) => {},
        None => lemma_round_trip(sid, second, None),
    }
}

/// Clearing the same keys twice in a row leaves what the first clear left:
/// the second finds nothing to delete.
pub proof fn lemma_clear_twice(ks: Map<Seq<char>, Seq<char>>, keys: Seq<Seq<char>>)
    ensures
        after_clear(after_clear(ks, keys), keys) == after_clear(ks, keys),
{
    assert(after_clear(after_clear(ks, keys), keys) =~= after_clear(ks, keys));
}

} // verus!
