//! A table of clients and their filters that is kept apart from the ports.

use crate::filter::HeaderFilter;
use crate::probe::{classify, HttpVersion, ParseError};
use vstd::prelude::*;

verus! {

/// Why a connection cannot be filtered.
#[derive(Clone, Copy, Debug, PartialEq, Eq, Structural)]
pub enum HttpError {
    /// Nothing could be peeked from the connection.
    Empty,
    /// Fewer bytes than the shortest request.
    TooSmall,
    /// The buffer does not hold a valid HTTP request.
    NotHttp,
    /// Reading or writing failed.
    IO,
    /// The request parser turned the buffer down.
    Parse(ParseError),
    /// The HTTP library failed.
    Hyper,
}

/// Checks that `buffer` could be HTTP: it agrees with `h2_preface` as far as
/// both reach, or the request parser accepts it as a whole or as a beginning.
pub fn check_http(buffer: &[u8], h2_preface: &[u8]) -> (verdict: Result<(), HttpError>)
    ensures
        verdict == if classify(buffer@, h2_preface@) == HttpVersion::NotHttp {
            Err::<(), HttpError>(HttpError::NotHttp)
        } else {
            Ok::<(), HttpError>(())
        },
{
    match HttpVersion::new(buffer, h2_preface) {
        HttpVersion::NotHttp => Err(HttpError::NotHttp),
        _ => Ok(()),
    }
}

/// A client of the traffic manager with the pattern of its filter.
pub type ManagedClient = (u64, Seq<char>);

/// Whether the table has an entry for `client_id`.
pub open spec fn is_managed(clients: Seq<ManagedClient>, client_id: u64) -> bool {
    exists|i: int| 0 <= i < clients.len() && (#[trigger] clients[i]).0 == client_id
}

/// The filters of the clients, for every port at once.
#[derive(Debug)]
pub struct EnterpriseTrafficManager {
    clients: Vec<(u64, HeaderFilter)>,
}

impl View for EnterpriseTrafficManager {
    type V = Seq<ManagedClient>;

    closed spec fn view(&self) -> Seq<ManagedClient> {
        Seq::new(self.clients@.len(), |i: int| (self.clients@[i].0, self.clients@[i].1@))
    }
}

impl Default for EnterpriseTrafficManager {
    fn default() -> (manager: EnterpriseTrafficManager)
        ensures
            manager@ == Seq::<ManagedClient>::empty(),
    {
        let manager = EnterpriseTrafficManager { clients: Vec::new() };
        assert(manager@ =~= Seq::<ManagedClient>::empty());
        manager
    }
}

impl EnterpriseTrafficManager {
    fn position(&self, client_id: u64) -> (position: Option<usize>)
        ensures
            match position {
                Some(i) => i < self@.len() && self@[i as int].0 == client_id && forall|j: int|
                    0 <= j < i ==> (#[trigger] self@[j]).0 != client_id,
                None => !is_managed(self@, client_id),
            },
    {
        let mut i: usize = 0;
        while i < self.clients.len()
            invariant
                i <= self.clients@.len(),
                forall|j: int| 0 <= j < i ==> (#[trigger] self@[j]).0 != client_id,
            decreases self.clients@.len() - i,
        {
            if self.clients[i].0 == client_id {
                return Some(i);
            }
            i += 1;
        }
        None
    }

    /// Registers the filter of a client, in place of the one it had.
    pub fn new_client(&mut self, client_id: u64, filter: HeaderFilter)
        ensures
            is_managed(final(self)@, client_id),
            !is_managed(old(self)@, client_id) ==> final(self)@ == old(self)@.push(
                (client_id, filter@),
            ),
            is_managed(old(self)@, client_id) ==> exists|i: int|
                0 <= i < old(self)@.len() && (#[trigger] old(self)@[i]).0 == client_id && final(self)@
                    == old(self)@.update(i, (client_id, filter@)),
    {
        let ghost before = self@;
        let ghost pattern = filter@;
        match self.position(client_id) {
            Some(i) => {
                let _ = self.clients.remove(i);
                self.clients.insert(i, (client_id, filter));
                assert(self@ =~= before.update(i as int, (client_id, pattern)));
                assert(self@[i as int].0 == client_id);
                assert(before[i as int].0 == client_id);
            },
            None => {
                self.clients.push((client_id, filter));
                assert(self@ =~= before.push((client_id, pattern)));
                assert(self@[before.len() as int].0 == client_id);
            },
        }
    }

    /// The filter for a fresh connection of a registered client, whose first
    /// bytes were peeked: the client's filter if the bytes could be HTTP.
    pub fn new_connection(&self, client_id: u64, peeked: &[u8], h2_preface: &[u8]) -> (filter: Result<
        HeaderFilter,
        HttpError,
    >)
        requires
            is_managed(self@, client_id),
        ensures
            match filter {
                Ok(found) => peeked@.len() > 0 && classify(peeked@, h2_preface@)
                    != HttpVersion::NotHttp && exists|i: int|
                    0 <= i < self@.len() && #[trigger] self@[i] == (client_id, found@)
                        && forall|j: int| 0 <= j < i ==> (#[trigger] self@[j]).0 != client_id,
                Err(error) => if peeked@.len() == 0 {
                    error == HttpError::Empty
                } else {
                    error == HttpError::NotHttp && classify(peeked@, h2_preface@)
                        == HttpVersion::NotHttp
                },
            },
    {
        if peeked.len() == 0 {
            return Err(HttpError::Empty);
        }
        match check_http(peeked, h2_preface) {
            Err(error) => Err(error),
            Ok(()) => match self.position(client_id) {
                Some(i) => {
                    let found = self.clients[i].1.clone();
                    assert(self@[i as int] == (client_id, found@));
                    Ok(found)
                },
                None => Err(HttpError::NotHttp),
            },
        }
    }
}

} // verus!
