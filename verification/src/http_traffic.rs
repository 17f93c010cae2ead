//! The clients that filter the HTTP traffic of one port, and the choice of the
//! client that gets a request.

use crate::filter::{accepts_any, header_lines, header_lines_of, lines_view, HeaderFilter};
use crate::http_filter::{
    filter_for, HttpFilter, HttpFilterBuilder, HttpTrafficError, StolenConnection,
};
use crate::probe::{classify, h2_preface};
use crate::protocol::{headers_view, ClientId, HttpHeader, Port};
use vstd::prelude::*;

verus! {

/// A client with the pattern of its filter.
pub type ClientFilter = (ClientId, Seq<char>);

/// The client ids of a filter table, in order.
pub open spec fn clients_of(filters: Seq<ClientFilter>) -> Seq<ClientId> {
    Seq::new(filters.len(), |i: int| filters[i].0)
}

/// For each filter of the table, whether it accepts one of the lines.
pub open spec fn verdicts_of(filters: Seq<ClientFilter>, lines: Seq<Seq<char>>) -> Seq<bool> {
    Seq::new(filters.len(), |i: int| accepts_any(filters[i].1, lines))
}

/// Whether `client` has a filter in the table.
pub open spec fn has_client(filters: Seq<ClientFilter>, client: ClientId) -> bool {
    exists|i: int| 0 <= i < filters.len() && (#[trigger] filters[i]).0 == client
}

/// No client has two filters in the table.
pub open spec fn distinct_clients(filters: Seq<ClientFilter>) -> bool {
    forall|i: int, j: int|
        0 <= i < filters.len() && 0 <= j < filters.len() && i != j ==> (#[trigger] filters[i]).0 != (
        #[trigger] filters[j]).0
}

/// The first client whose verdict is favourable, if there is one. The two
/// sequences are read side by side, as far as both reach.
pub open spec fn first_accepted_of(clients: Seq<ClientId>, verdicts: Seq<bool>) -> Option<ClientId>
    decreases clients.len(),
{
    if clients.len() == 0 || verdicts.len() == 0 {
        None
    } else if verdicts.first() {
        Some(clients.first())
    } else {
        first_accepted_of(clients.drop_first(), verdicts.drop_first())
    }
}

/// The client that gets a request with these headers: the first of the table
/// whose filter accepts the line of one of the headers.
pub open spec fn winner_of(filters: Seq<ClientFilter>, headers: Seq<(Seq<u8>, Seq<u8>)>) -> Option<
    ClientId,
> {
    first_accepted_of(clients_of(filters), verdicts_of(filters, header_lines_of(headers)))
}

/// The first favourable verdict decides: the result is the client at the least
/// position with a favourable verdict, and there is no result exactly if no
/// position has one.
pub proof fn lemma_first_accepted(clients: Seq<ClientId>, verdicts: Seq<bool>)
    ensures
        match first_accepted_of(clients, verdicts) {
            Some(client) => exists|k: int|
                0 <= k < clients.len() && k < verdicts.len() && #[trigger] verdicts[k] && clients[k]
                    == client && forall|j: int| 0 <= j < k ==> !verdicts[j],
            None => forall|k: int| 0 <= k < clients.len() && k < verdicts.len() ==> !verdicts[k],
        },
    decreases clients.len(),
{
    if clients.len() == 0 || verdicts.len() == 0 {
    } else if verdicts.first() {
        assert(verdicts[0]);
    } else {
        let rest_clients = clients.drop_first();
        let rest_verdicts = verdicts.drop_first();
        lemma_first_accepted(rest_clients, rest_verdicts);
        match first_accepted_of(rest_clients, rest_verdicts) {
            Some(client) => {
                let k = choose|k: int|
                    0 <= k < rest_clients.len() && k < rest_verdicts.len()
                        && #[trigger] rest_verdicts[k] && rest_clients[k] == client && forall|j: int|
                        0 <= j < k ==> !rest_verdicts[j];
                assert(verdicts[k + 1]);
                assert forall|j: int| 0 <= j < k + 1 implies !verdicts[j] by {
                    if j > 0 {
                        assert(!rest_verdicts[j - 1]);
                    }
                }
            },
            None => {
                assert forall|k: int| 0 <= k < clients.len() && k < verdicts.len() implies !verdicts[k] by {
                    if k > 0 {
                        assert(!rest_verdicts[k - 1]);
                    }
                }
            },
        }
    }
}

/// Picks the first client whose verdict is favourable.
pub fn first_accepted(clients: &Vec<ClientId>, verdicts: &Vec<bool>) -> (winner: Option<ClientId>)
    ensures
        winner == first_accepted_of(clients@, verdicts@),
{
    let mut i: usize = 0;
    assert(clients@.skip(0) =~= clients@);
    assert(verdicts@.skip(0) =~= verdicts@);
    while i < clients.len() && i < verdicts.len()
        invariant
            i <= clients@.len(),
            i <= verdicts@.len(),
            first_accepted_of(clients@, verdicts@) == first_accepted_of(
                clients@.skip(i as int),
                verdicts@.skip(i as int),
            ),
        decreases clients@.len() - i,
    {
        if verdicts[i] {
            return Some(clients[i]);
        }
        proof {
            assert(clients@.skip(i as int).drop_first() =~= clients@.skip(i + 1));
            assert(verdicts@.skip(i as int).drop_first() =~= verdicts@.skip(i + 1));
        }
        i += 1;
    }
    None
}

/// The filters registered for one port, in the order in which their clients
/// first registered. Created for every port whose HTTP traffic is filtered.
#[derive(Debug)]
pub struct HttpFilterManager {
    port: Port,
    client_filters: Vec<(ClientId, HeaderFilter)>,
}

/// What a filter manager holds.
pub struct HttpFilterManagerView {
    pub port: Port,
    pub filters: Seq<ClientFilter>,
}

/// The table of a list of registered filters.
pub open spec fn table_of(entries: Seq<(ClientId, HeaderFilter)>) -> Seq<ClientFilter> {
    Seq::new(entries.len(), |i: int| (entries[i].0, entries[i].1@))
}

impl View for HttpFilterManager {
    type V = HttpFilterManagerView;

    closed spec fn view(&self) -> HttpFilterManagerView {
        HttpFilterManagerView { port: self.port, filters: table_of(self.client_filters@) }
    }
}

impl Clone for HttpFilterManager {
    fn clone(&self) -> (copy: HttpFilterManager)
        ensures
            copy@ == self@,
    {
        let mut client_filters: Vec<(ClientId, HeaderFilter)> = Vec::new();
        let mut i: usize = 0;
        while i < self.client_filters.len()
            invariant
                i <= self.client_filters@.len(),
                client_filters@.len() == i,
                table_of(client_filters@) == table_of(self.client_filters@).take(i as int),
            decreases self.client_filters@.len() - i,
        {
            let ghost before = client_filters@;
            let filter = self.client_filters[i].1.clone();
            assert(filter@ == self.client_filters@[i as int].1@);
            client_filters.push((self.client_filters[i].0, filter));
            proof {
                let now = table_of(client_filters@);
                let all = table_of(self.client_filters@);
                assert forall|j: int| 0 <= j < now.len() implies now[j] == all.take(i + 1)[j] by {
                    if j < i {
                        assert(table_of(before)[j] == all.take(i as int)[j]);
                        assert(client_filters@[j] == before[j]);
                    }
                }
                assert(now =~= all.take(i + 1));
            }
            i += 1;
        }
        let copy = HttpFilterManager { port: self.port, client_filters };
        assert(table_of(self.client_filters@).take(i as int) =~= table_of(self.client_filters@));
        assert(copy@.filters =~= self@.filters);
        copy
    }
}

impl HttpFilterManager {
    /// No client is registered twice.
    pub open spec fn wf(&self) -> bool {
        distinct_clients(self@.filters)
    }

    /// A manager for `port` with one client. There is no manager without a
    /// client: traffic is stolen only where somebody asked for it.
    pub fn new(port: Port, client_id: ClientId, filter: HeaderFilter) -> (manager: HttpFilterManager)
        ensures
            manager.wf(),
            manager@.port == port,
            manager@.filters == seq![(client_id, filter@)],
    {
        let mut client_filters: Vec<(ClientId, HeaderFilter)> = Vec::new();
        client_filters.push((client_id, filter));
        let manager = HttpFilterManager { port, client_filters };
        assert(manager@.filters =~= seq![(client_id, filter@)]);
        manager
    }

    /// The port whose traffic is filtered.
    pub fn port(&self) -> (port: Port)
        ensures
            port == self@.port,
    {
        self.port
    }

    fn position(&self, client_id: ClientId) -> (position: Option<usize>)
        ensures
            match position {
                Some(i) => i < self@.filters.len() && self@.filters[i as int].0 == client_id,
                None => !has_client(self@.filters, client_id),
            },
    {
        let mut i: usize = 0;
        while i < self.client_filters.len()
            invariant
                i <= self.client_filters@.len(),
                forall|j: int| 0 <= j < i ==> (#[trigger] self@.filters[j]).0 != client_id,
            decreases self.client_filters@.len() - i,
        {
            if self.client_filters[i].0 == client_id {
                return Some(i);
            }
            i += 1;
        }
        None
    }

    /// Registers the filter of a client. A client that is registered already
    /// keeps its place and gets the new filter; its old filter is returned.
    pub fn new_client(&mut self, client_id: ClientId, filter: HeaderFilter) -> (replaced: Option<
        HeaderFilter,
    >)
        requires
            old(self).wf(),
        ensures
            final(self).wf(),
            final(self)@.port == old(self)@.port,
            has_client(old(self)@.filters, client_id) ==> replaced.is_some(),
            !has_client(old(self)@.filters, client_id) ==> replaced.is_none() && final(self)@.filters
                == old(self)@.filters.push((client_id, filter@)),
            replaced matches Some(previous) ==> exists|i: int|
                0 <= i < old(self)@.filters.len() && #[trigger] old(self)@.filters[i] == (
                    client_id,
                    previous@,
                ) && final(self)@.filters == old(self)@.filters.update(i, (client_id, filter@)),
    {
        let ghost before = self@.filters;
        match self.position(client_id) {
            Some(i) => {
                let ghost pattern = filter@;
                let (_, previous) = self.client_filters.remove(i);
                self.client_filters.insert(i, (client_id, filter));
                proof {
                    assert(self@.filters =~= before.update(i as int, (client_id, pattern)));
                    assert(before[i as int] == (client_id, previous@));
                }
                Some(previous)
            },
            None => {
                let ghost pattern = filter@;
                self.client_filters.push((client_id, filter));
                proof {
                    assert(self@.filters =~= before.push((client_id, pattern)));
                    assert forall|i: int, j: int|
                        0 <= i < self@.filters.len() && 0 <= j < self@.filters.len() && i
                            != j implies (#[trigger] self@.filters[i]).0 != (
                    #[trigger] self@.filters[j]).0 by {
                        if i < before.len() {
                            assert(before[i].0 == self@.filters[i].0);
                        }
                        if j < before.len() {
                            assert(before[j].0 == self@.filters[j].0);
                        }
                    }
                }
                None
            },
        }
    }

    /// Takes a client and its filter out of the table.
    pub fn remove_client(&mut self, client_id: ClientId) -> (removed: Option<
        (ClientId, HeaderFilter),
    >)
        requires
            old(self).wf(),
        ensures
            final(self).wf(),
            final(self)@.port == old(self)@.port,
            removed.is_some() == has_client(old(self)@.filters, client_id),
            removed.is_none() ==> final(self)@ == old(self)@,
            !has_client(final(self)@.filters, client_id),
            removed matches Some(entry) ==> entry.0 == client_id && exists|i: int|
                0 <= i < old(self)@.filters.len() && #[trigger] old(self)@.filters[i] == (
                    client_id,
                    entry.1@,
                ) && final(self)@.filters == old(self)@.filters.remove(i),
    {
        let ghost before = self@.filters;
        match self.position(client_id) {
            Some(i) => {
                let entry = self.client_filters.remove(i);
                proof {
                    assert(self@.filters =~= before.remove(i as int));
                    assert(before[i as int] == (client_id, entry.1@));
                    assert forall|a: int, b: int|
                        0 <= a < self@.filters.len() && 0 <= b < self@.filters.len() && a
                            != b implies (#[trigger] self@.filters[a]).0 != (
                    #[trigger] self@.filters[b]).0 by {
                        let a0 = if a < i { a } else { a + 1 };
                        let b0 = if b < i { b } else { b + 1 };
                        assert(self@.filters[a] == before[a0]);
                        assert(self@.filters[b] == before[b0]);
                    }
                    assert forall|a: int| 0 <= a < self@.filters.len() implies (
                    #[trigger] self@.filters[a]).0 != client_id by {
                        let a0 = if a < i { a } else { a + 1 };
                        assert(self@.filters[a] == before[a0]);
                    }
                }
                Some(entry)
            },
            None => None,
        }
    }

    /// Sets up the handling of a fresh connection to the port from the bytes
    /// peeked from it: a connection that speaks HTTP/1 is served request by
    /// request, any other is passed through, and one from which nothing could
    /// be peeked is turned down.
    pub fn new_connection(&self, stolen_connection: StolenConnection, peeked: &[u8]) -> (filter:
        Result<HttpFilter, HttpTrafficError>)
        ensures
            filter.is_err() <==> peeked@.len() == 0,
            filter.is_err() ==> filter == Err::<HttpFilter, HttpTrafficError>(
                HttpTrafficError::Empty,
            ),
            filter matches Ok(f) ==> f == filter_for(
                HttpFilterBuilder {
                    http_version: classify(peeked@, h2_preface()),
                    stolen_connection,
                },
            ),
    {
        match HttpFilterBuilder::new(stolen_connection, peeked) {
            Ok(builder) => Ok(builder.start()),
            Err(error) => Err(error),
        }
    }

    /// Whether the client has a filter here.
    pub fn contains_client(&self, client_id: ClientId) -> (contained: bool)
        ensures
            contained == has_client(self@.filters, client_id),
    {
        self.position(client_id).is_some()
    }

    /// Whether no client is left.
    pub fn is_empty(&self) -> (empty: bool)
        ensures
            empty == (self@.filters.len() == 0),
    {
        self.client_filters.len() == 0
    }

    /// The registered clients, in the order of the table.
    pub fn clients(&self) -> (clients: Vec<ClientId>)
        ensures
            clients@ == clients_of(self@.filters),
    {
        let mut clients: Vec<ClientId> = Vec::new();
        let mut i: usize = 0;
        while i < self.client_filters.len()
            invariant
                i <= self.client_filters@.len(),
                clients@.len() == i,
                forall|j: int| 0 <= j < i ==> clients@[j] == (#[trigger] self@.filters[j]).0,
            decreases self.client_filters@.len() - i,
        {
            clients.push(self.client_filters[i].0);
            i += 1;
        }
        assert(clients@ =~= clients_of(self@.filters));
        clients
    }

    /// For each client of the table, whether its filter accepts one of `lines`.
    pub fn verdicts(&self, lines: &Vec<String>) -> (verdicts: Vec<bool>)
        ensures
            verdicts@ == verdicts_of(self@.filters, lines_view(lines@)),
    {
        let mut verdicts: Vec<bool> = Vec::new();
        let mut i: usize = 0;
        while i < self.client_filters.len()
            invariant
                i <= self.client_filters@.len(),
                verdicts@.len() == i,
                forall|j: int|
                    0 <= j < i ==> verdicts@[j] == accepts_any(
                        (#[trigger] self@.filters[j]).1,
                        lines_view(lines@),
                    ),
            decreases self.client_filters@.len() - i,
        {
            let accepted = self.client_filters[i].1.matches_any(lines);
            verdicts.push(accepted);
            i += 1;
        }
        assert(verdicts@ =~= verdicts_of(self@.filters, lines_view(lines@)));
        verdicts
    }

    /// The client that gets a request with these headers, if any filter
    /// accepts it.
    pub fn matching_client(&self, headers: &Vec<HttpHeader>) -> (winner: Option<ClientId>)
        ensures
            winner == winner_of(self@.filters, headers_view(headers@)),
    {
        let lines = header_lines(headers);
        let verdicts = self.verdicts(&lines);
        let clients = self.clients();
        first_accepted(&clients, &verdicts)
    }
}

} // verus!
