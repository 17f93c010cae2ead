//! What holds of the stealer through every event, proved of the state machine.

use crate::api::StealerCommand;
use crate::http_filter::MatchedHttpRequest;
use crate::http_traffic::{distinct_clients, has_client, ClientFilter, HttpFilterManagerView};
use crate::index_allocator::lemma_allocation;
use crate::ip_tables::{not_rule, Redirect};
use crate::protocol::{ClientId, ConnectionId, HttpResponse, Port, SocketAddress};
use crate::response_queue::{lemma_arrive_keeps_order, lemma_expect_keeps_order};
use crate::seq_facts::{
    lemma_filter_distinct_keys, lemma_filter_elements, lemma_filter_membership,
    lemma_filter_no_duplicates, lemma_push_membership, lemma_push_no_duplicates,
};
use crate::stealer_model::{
    closing, not_client, not_owned_by, owned_by, requested_of, with_client, without_client,
    ConnectionView, Incoming, RequestedView, StealerAction, StealerEvent, StealerView,
    SubscribePlan,
};
use crate::subscriptions::{held_by, other_than, topics_of, Subscription};
use vstd::prelude::*;

verus! {

/// A port has one manager at most, so the manager found for it is the one.
pub proof fn lemma_manager_unique(view: StealerView, port: Port, i: int)
    requires
        view.subscriptions_inv(),
        view.manages(port, i),
    ensures
        view.is_filtered(port),
        view.manager_at(port) == i,
{
    let j = view.manager_at(port);
    assert(view.manages(port, j));
    if i != j {
        assert(view.managers[i].port != view.managers[j].port);
    }
}

/// The place of a client in a table without repeated clients is the one place.
pub proof fn lemma_client_place(filters: Seq<ClientFilter>, client: ClientId, k: int)
    requires
        distinct_clients(filters),
        0 <= k < filters.len(),
        filters[k].0 == client,
    ensures
        has_client(filters, client),
        (choose|i: int| 0 <= i < filters.len() && (#[trigger] filters[i]).0 == client) == k,
{
    let c = choose|i: int| 0 <= i < filters.len() && (#[trigger] filters[i]).0 == client;
    if c != k {
        assert(filters[c].0 != filters[k].0);
    }
}

/// Somebody is subscribed to every filtered port.
pub proof fn lemma_filtered_has_subscriber(view: StealerView, port: Port)
    requires
        view.subscriptions_inv(),
        view.is_filtered(port),
    ensures
        view.has_subscriber(port),
{
    let i = view.manager_at(port);
    assert(view.manages(port, i));
    let filters = view.managers[i].filters;
    assert(filters.len() > 0);
    let client = filters[0].0;
    assert(has_client(filters, client));
    assert(view.subscriptions.contains((view.managers[i].port, client)));
}

/// Setting a client's filter keeps the table free of repeated clients, and
/// the client is in it afterwards beside those that were.
pub proof fn lemma_with_client(filters: Seq<ClientFilter>, client: ClientId, pattern: Seq<char>)
    requires
        distinct_clients(filters),
    ensures
        distinct_clients(with_client(filters, client, pattern)),
        with_client(filters, client, pattern).len() > 0,
        forall|other: ClientId|
            has_client(with_client(filters, client, pattern), other) <==> (has_client(filters, other)
                || other == client),
{
    let after = with_client(filters, client, pattern);
    if has_client(filters, client) {
        let k = choose|i: int| 0 <= i < filters.len() && (#[trigger] filters[i]).0 == client;
        assert forall|i: int| 0 <= i < after.len() implies (#[trigger] after[i]).0 == filters[i].0 by {}
        assert forall|i: int, j: int|
            0 <= i < after.len() && 0 <= j < after.len() && i != j implies (#[trigger] after[i]).0 != (
        #[trigger] after[j]).0 by {
            assert(filters[i].0 != filters[j].0);
        }
        assert forall|other: ClientId| has_client(after, other) <==> (has_client(filters, other) || other
            == client) by {
            if has_client(after, other) {
                let i = choose|i: int| 0 <= i < after.len() && (#[trigger] after[i]).0 == other;
                assert(filters[i].0 == other);
            }
            if has_client(filters, other) {
                let i = choose|i: int| 0 <= i < filters.len() && (#[trigger] filters[i]).0 == other;
                assert(after[i].0 == other);
            }
        }
    } else {
        assert forall|i: int, j: int|
            0 <= i < after.len() && 0 <= j < after.len() && i != j implies (#[trigger] after[i]).0 != (
        #[trigger] after[j]).0 by {
            if i < filters.len() && j < filters.len() {
                assert(filters[i].0 != filters[j].0);
            } else if i < filters.len() {
                assert(filters[i].0 != client);
            } else {
                assert(filters[j].0 != client);
            }
        }
        assert forall|other: ClientId| has_client(after, other) <==> (has_client(filters, other) || other
            == client) by {
            if has_client(after, other) {
                let i = choose|i: int| 0 <= i < after.len() && (#[trigger] after[i]).0 == other;
                if i < filters.len() {
                    assert(filters[i].0 == other);
                }
            }
            if has_client(filters, other) {
                let i = choose|i: int| 0 <= i < filters.len() && (#[trigger] filters[i]).0 == other;
                assert(after[i].0 == other);
            }
            if other == client {
                assert(after[filters.len() as int].0 == client);
            }
        }
    }
}

/// Taking a client out keeps the table free of repeated clients, and exactly
/// the other clients stay.
pub proof fn lemma_without_client(filters: Seq<ClientFilter>, client: ClientId)
    requires
        distinct_clients(filters),
    ensures
        distinct_clients(without_client(filters, client)),
        forall|other: ClientId|
            has_client(without_client(filters, client), other) <==> (has_client(filters, other)
                && other != client),
{
    let after = without_client(filters, client);
    if has_client(filters, client) {
        let k = choose|i: int| 0 <= i < filters.len() && (#[trigger] filters[i]).0 == client;
        assert forall|i: int| 0 <= i < after.len() implies #[trigger] after[i] == filters[if i < k {
            i
        } else {
            i + 1
        }] by {}
        assert forall|i: int, j: int|
            0 <= i < after.len() && 0 <= j < after.len() && i != j implies (#[trigger] after[i]).0 != (
        #[trigger] after[j]).0 by {
            let i0 = if i < k { i } else { i + 1 };
            let j0 = if j < k { j } else { j + 1 };
            assert(filters[i0].0 != filters[j0].0);
        }
        assert forall|other: ClientId| has_client(after, other) <==> (has_client(filters, other) && other
            != client) by {
            if has_client(after, other) {
                let i = choose|i: int| 0 <= i < after.len() && (#[trigger] after[i]).0 == other;
                let i0 = if i < k { i } else { i + 1 };
                assert(filters[i0].0 == other);
                assert(filters[i0].0 != filters[k].0);
            }
            if has_client(filters, other) && other != client {
                let i = choose|i: int| 0 <= i < filters.len() && (#[trigger] filters[i]).0 == other;
                let i1 = if i < k { i } else { i - 1 };
                assert(after[i1].0 == other);
            }
        }
    } else {
        assert forall|other: ClientId| has_client(after, other) <==> (has_client(filters, other) && other
            != client) by {}
    }
}

/// What the managers are after one of them was taken out.
proof fn lemma_managers_remove(view: StealerView, i: int, after: StealerView)
    requires
        view.subscriptions_inv(),
        0 <= i < view.managers.len(),
        after.managers == view.managers.remove(i),
    ensures
        forall|j: int|
            0 <= j < after.managers.len() ==> #[trigger] after.managers[j] == view.managers[if j < i {
                j
            } else {
                j + 1
            }],
        !after.is_filtered(view.managers[i].port),
        forall|p: Port| p != view.managers[i].port ==> (after.is_filtered(p) <==> view.is_filtered(p)),
{
    let port = view.managers[i].port;
    assert forall|j: int| 0 <= j < after.managers.len() implies #[trigger] after.managers[j]
        == view.managers[if j < i { j } else { j + 1 }] by {}
    if after.is_filtered(port) {
        let j = after.manager_at(port);
        assert(after.manages(port, j));
        let j0 = if j < i { j } else { j + 1 };
        assert(after.managers[j] == view.managers[j0]);
        assert(view.managers[j0].port != view.managers[i].port);
    }
    assert forall|p: Port| p != port implies (after.is_filtered(p) <==> view.is_filtered(p)) by {
        if after.is_filtered(p) {
            let j = after.manager_at(p);
            assert(after.manages(p, j));
            let j0 = if j < i { j } else { j + 1 };
            assert(after.managers[j] == view.managers[j0]);
            assert(view.manages(p, j0));
        }
        if view.is_filtered(p) {
            let j = view.manager_at(p);
            assert(view.manages(p, j));
            let j1 = if j < i { j } else { j - 1 };
            assert(after.managers[j1] == view.managers[j]);
            assert(after.manages(p, j1));
        }
    }
}

/// What the managers are after one of them got another table.
proof fn lemma_managers_update(view: StealerView, i: int, after: StealerView)
    requires
        0 <= i < view.managers.len(),
        after.managers == view.managers.update(
            i,
            HttpFilterManagerView { port: view.managers[i].port, filters: after.managers[i].filters },
        ),
    ensures
        forall|p: Port| after.is_filtered(p) <==> view.is_filtered(p),
        forall|j: int|
            0 <= j < after.managers.len() ==> (#[trigger] after.managers[j]).port
                == view.managers[j].port,
{
    assert forall|p: Port| after.is_filtered(p) <==> view.is_filtered(p) by {
        if after.is_filtered(p) {
            let j = after.manager_at(p);
            assert(after.manages(p, j));
            assert(view.manages(p, j));
        }
        if view.is_filtered(p) {
            let j = view.manager_at(p);
            assert(view.manages(p, j));
            assert(after.manages(p, j));
        }
    }
}

/// What the managers are after one was added for a port that had none.
proof fn lemma_managers_push(view: StealerView, added: HttpFilterManagerView, after: StealerView)
    requires
        after.managers == view.managers.push(added),
    ensures
        after.is_filtered(added.port),
        forall|p: Port| p != added.port ==> (after.is_filtered(p) <==> view.is_filtered(p)),
{
    assert(after.manages(added.port, view.managers.len() as int));
    assert forall|p: Port| p != added.port implies (after.is_filtered(p) <==> view.is_filtered(p)) by {
        if after.is_filtered(p) {
            let j = after.manager_at(p);
            assert(after.manages(p, j));
            assert(view.manages(p, j));
        }
        if view.is_filtered(p) {
            let j = view.manager_at(p);
            assert(view.manages(p, j));
            assert(after.manages(p, j));
        }
    }
}

/// A subscription that only changes what its holder asks for keeps the
/// stealer consistent.
proof fn lemma_update_keeps_inv(view: StealerView, client: ClientId, port: Port, requested: RequestedView)
    requires
        view.inv(),
        view.plan(client, port, requested) == SubscribePlan::Update,
    ensures
        view.subscribe(client, port, requested, true).inv(),
        view.subscribe(client, port, requested, false) == view.subscribe(client, port, requested, true),
{
    let after = view.subscribe(client, port, requested, true);
    assert(after.subscriptions == view.subscriptions);
    assert(after.rules == view.rules);
    assert forall|p: Port| after.has_subscriber(p) <==> view.has_subscriber(p) by {
        if after.has_subscriber(p) {
            let c = choose|c: ClientId| after.subscriptions.contains((p, c));
            assert(view.subscriptions.contains((p, c)));
        }
        if view.has_subscriber(p) {
            let c = choose|c: ClientId| view.subscriptions.contains((p, c));
            assert(after.subscriptions.contains((p, c)));
        }
    }
    match requested {
        RequestedView::BadFilter => {},
        RequestedView::FullPort => {
            if view.is_filtered(port) {
                let i = view.manager_at(port);
                assert(view.manages(port, i));
                lemma_managers_remove(view, i, after);
                assert forall|j: int, a: int|
                    0 <= j < after.managers.len() && 0 <= a < after.managers.len() && j
                        != a implies (#[trigger] after.managers[j]).port != (
                #[trigger] after.managers[a]).port by {
                    let j0 = if j < i { j } else { j + 1 };
                    let a0 = if a < i { a } else { a + 1 };
                    assert(view.managers[j0].port != view.managers[a0].port);
                }
                assert forall|j: int, c: ClientId| 0 <= j < after.managers.len() implies (has_client(
                    (#[trigger] after.managers[j]).filters,
                    c,
                ) <==> #[trigger] after.subscriptions.contains((after.managers[j].port, c))) by {
                    let j0 = if j < i { j } else { j + 1 };
                    assert(after.managers[j] == view.managers[j0]);
                    assert(has_client(view.managers[j0].filters, c)
                        <==> view.subscriptions.contains((view.managers[j0].port, c)));
                }
                assert forall|j: int| 0 <= j < after.managers.len() implies distinct_clients(
                    (#[trigger] after.managers[j]).filters,
                ) && after.managers[j].filters.len() > 0 by {
                    let j0 = if j < i { j } else { j + 1 };
                    assert(after.managers[j] == view.managers[j0]);
                }
                assert forall|p: Port, a: ClientId, b: ClientId|
                    #[trigger] after.subscriptions.contains((p, a))
                        && #[trigger] after.subscriptions.contains((p, b)) && !after.is_filtered(
                        p,
                    ) implies a == b by {
                    if p == port {
                        if a != client {
                            assert(view.has_other_subscriber(port, client));
                        }
                        if b != client {
                            assert(view.has_other_subscriber(port, client));
                        }
                    }
                }
            }
        },
        RequestedView::Filtered(pattern) => {
            if view.is_filtered(port) {
                let i = view.manager_at(port);
                assert(view.manages(port, i));
                let filters = view.managers[i].filters;
                lemma_with_client(filters, client, pattern);
                assert(after.managers[i].filters == with_client(filters, client, pattern));
                lemma_managers_update(view, i, after);
                assert(view.subscriptions.contains((view.managers[i].port, client)));
                assert(has_client(filters, client));
                assert forall|j: int, c: ClientId| 0 <= j < after.managers.len() implies (has_client(
                    (#[trigger] after.managers[j]).filters,
                    c,
                ) <==> #[trigger] after.subscriptions.contains((after.managers[j].port, c))) by {
                    assert(has_client(view.managers[j].filters, c) <==> view.subscriptions.contains(
                        (view.managers[j].port, c),
                    ));
                    if j != i {
                        assert(after.managers[j] == view.managers[j]);
                    }
                }
                assert forall|j: int| 0 <= j < after.managers.len() implies distinct_clients(
                    (#[trigger] after.managers[j]).filters,
                ) && after.managers[j].filters.len() > 0 by {
                    if j != i {
                        assert(after.managers[j] == view.managers[j]);
                    }
                }
                assert forall|j: int, a: int|
                    0 <= j < after.managers.len() && 0 <= a < after.managers.len() && j
                        != a implies (#[trigger] after.managers[j]).port != (
                #[trigger] after.managers[a]).port by {
                    assert(view.managers[j].port != view.managers[a].port);
                }
            } else {
                let added = HttpFilterManagerView { port, filters: seq![(client, pattern)] };
                lemma_managers_push(view, added, after);
                assert(added.filters[0].0 == client);
                assert forall|j: int| 0 <= j < after.managers.len() implies distinct_clients(
                    (#[trigger] after.managers[j]).filters,
                ) && after.managers[j].filters.len() > 0 by {
                    if j < view.managers.len() {
                        assert(after.managers[j] == view.managers[j]);
                    }
                }
                assert forall|j: int, a: int|
                    0 <= j < after.managers.len() && 0 <= a < after.managers.len() && j
                        != a implies (#[trigger] after.managers[j]).port != (
                #[trigger] after.managers[a]).port by {
                    if j < view.managers.len() && a < view.managers.len() {
                        assert(view.managers[j].port != view.managers[a].port);
                    } else if j < view.managers.len() {
                        assert(view.manages(view.managers[j].port, j));
                    } else {
                        assert(view.manages(view.managers[a].port, a));
                    }
                }
                assert forall|j: int, c: ClientId| 0 <= j < after.managers.len() implies (has_client(
                    (#[trigger] after.managers[j]).filters,
                    c,
                ) <==> #[trigger] after.subscriptions.contains((after.managers[j].port, c))) by {
                    if j < view.managers.len() {
                        assert(after.managers[j] == view.managers[j]);
                        assert(has_client(view.managers[j].filters, c)
                            <==> view.subscriptions.contains((view.managers[j].port, c)));
                    } else {
                        if has_client(added.filters, c) {
                            let k = choose|k: int|
                                0 <= k < added.filters.len() && (#[trigger] added.filters[k]).0 == c;
                            assert(c == client);
                        }
                        if view.subscriptions.contains((port, c)) {
                            assert(view.subscriptions.contains((port, client)));
                            assert(c == client);
                            assert(has_client(added.filters, c));
                        }
                    }
                }
            }
        },
    }
}

/// Who is subscribed where after a subscription was added.
proof fn lemma_subscribers_after_push(view: StealerView, client: ClientId, port: Port, after: StealerView)
    requires
        after.subscriptions == view.subscriptions.push((port, client)),
    ensures
        forall|p: Port, c: ClientId|
            #[trigger] after.subscriptions.contains((p, c)) <==> (view.subscriptions.contains((p, c))
                || (p == port && c == client)),
        after.has_subscriber(port),
        forall|p: Port| p != port ==> (after.has_subscriber(p) <==> view.has_subscriber(p)),
{
    assert forall|p: Port, c: ClientId| #[trigger]
        after.subscriptions.contains((p, c)) <==> (view.subscriptions.contains((p, c)) || (p == port
            && c == client)) by {
        lemma_push_membership(view.subscriptions, (port, client), (p, c));
    }
    assert(after.subscriptions.contains((port, client)));
    assert forall|p: Port| p != port implies (after.has_subscriber(p) <==> view.has_subscriber(p)) by {
        if after.has_subscriber(p) {
            let c = choose|c: ClientId| after.subscriptions.contains((p, c));
            assert(view.subscriptions.contains((p, c)));
        }
        if view.has_subscriber(p) {
            let c = choose|c: ClientId| view.subscriptions.contains((p, c));
            assert(after.subscriptions.contains((p, c)));
        }
    }
}

/// A client that joins the filters of a port keeps the stealer consistent.
proof fn lemma_join_keeps_inv(view: StealerView, client: ClientId, port: Port, requested: RequestedView)
    requires
        view.inv(),
        view.plan(client, port, requested) == SubscribePlan::Join,
    ensures
        view.subscribe(client, port, requested, true).inv(),
        view.subscribe(client, port, requested, false) == view.subscribe(client, port, requested, true),
{
    let after = view.subscribe(client, port, requested, true);
    let pattern = requested->Filtered_0;
    let witness = choose|c: ClientId| view.subscriptions.contains((port, c));
    assert(view.subscriptions.contains((port, witness)));
    assert(witness != client);
    assert(view.has_other_subscriber(port, client));
    assert(view.is_filtered(port));
    let i = view.manager_at(port);
    assert(view.manages(port, i));
    let filters = view.managers[i].filters;
    lemma_with_client(filters, client, pattern);
    assert(after.managers[i].filters == with_client(filters, client, pattern));
    lemma_managers_update(view, i, after);
    lemma_subscribers_after_push(view, client, port, after);
    lemma_push_no_duplicates(view.subscriptions, (port, client));
    assert forall|j: int, c: ClientId| 0 <= j < after.managers.len() implies (has_client(
        (#[trigger] after.managers[j]).filters,
        c,
    ) <==> #[trigger] after.subscriptions.contains((after.managers[j].port, c))) by {
        assert(has_client(view.managers[j].filters, c) <==> view.subscriptions.contains(
            (view.managers[j].port, c),
        ));
        if j != i {
            assert(after.managers[j] == view.managers[j]);
            assert(view.managers[j].port != view.managers[i].port);
        }
    }
    assert forall|j: int| 0 <= j < after.managers.len() implies distinct_clients(
        (#[trigger] after.managers[j]).filters,
    ) && after.managers[j].filters.len() > 0 by {
        if j != i {
            assert(after.managers[j] == view.managers[j]);
        }
    }
    assert forall|j: int, a: int|
        0 <= j < after.managers.len() && 0 <= a < after.managers.len() && j != a implies (
    #[trigger] after.managers[j]).port != (#[trigger] after.managers[a]).port by {
        assert(view.managers[j].port != view.managers[a].port);
    }
    assert forall|p: Port, a: ClientId, b: ClientId|
        #[trigger] after.subscriptions.contains((p, a)) && #[trigger] after.subscriptions.contains(
            (p, b),
        ) && !after.is_filtered(p) implies a == b by {
        assert(p != port);
        assert(view.subscriptions.contains((p, a)));
        assert(view.subscriptions.contains((p, b)));
    }
    assert(view.has_subscriber(port));
    assert forall|p: Port| after.has_subscriber(p) <==> view.has_subscriber(p) by {}
    assert(after.subscriptions.len() > 0);
    assert(view.subscriptions.len() > 0) by {
        assert(view.subscriptions.contains((port, witness)));
    }
}

/// The first subscription to a port, with its rule in place, keeps the
/// stealer consistent.
proof fn lemma_install_keeps_inv(view: StealerView, client: ClientId, port: Port, requested: RequestedView)
    requires
        view.inv(),
        view.plan(client, port, requested) is Install,
    ensures
        view.subscribe(client, port, requested, true).inv(),
        view.subscribe(client, port, requested, false) == view,
{
    let after = view.subscribe(client, port, requested, true);
    assert(!view.has_subscriber(port)) by {
        if view.has_subscriber(port) {
            let c = choose|c: ClientId| view.subscriptions.contains((port, c));
            if c != client {
                assert(view.has_other_subscriber(port, client));
                if view.is_filtered(port) {
                    assert(requested is FullPort);
                }
            }
        }
    }
    if view.is_filtered(port) {
        lemma_filtered_has_subscriber(view, port);
    }
    assert(!view.is_filtered(port));
    assert(!view.subscriptions.contains((port, client)));
    lemma_subscribers_after_push(view, client, port, after);
    lemma_push_no_duplicates(view.subscriptions, (port, client));
    // the managers
    match requested {
        RequestedView::BadFilter => {},
        RequestedView::FullPort => {
            assert(after.managers == view.managers);
            assert forall|p: Port| after.is_filtered(p) <==> view.is_filtered(p) by {
                if after.is_filtered(p) {
                    let j = after.manager_at(p);
                    assert(after.manages(p, j));
                    assert(view.manages(p, j));
                }
                if view.is_filtered(p) {
                    let j = view.manager_at(p);
                    assert(view.manages(p, j));
                    assert(after.manages(p, j));
                }
            }
            assert forall|j: int, c: ClientId| 0 <= j < after.managers.len() implies (has_client(
                (#[trigger] after.managers[j]).filters,
                c,
            ) <==> #[trigger] after.subscriptions.contains((after.managers[j].port, c))) by {
                assert(has_client(view.managers[j].filters, c) <==> view.subscriptions.contains(
                    (view.managers[j].port, c),
                ));
                assert(view.manages(view.managers[j].port, j));
            }
            assert forall|p: Port, a: ClientId, b: ClientId|
                #[trigger] after.subscriptions.contains((p, a))
                    && #[trigger] after.subscriptions.contains((p, b)) && !after.is_filtered(
                    p,
                ) implies a == b by {
                if p == port {
                    if a != client {
                        assert(view.subscriptions.contains((port, a)));
                    }
                    if b != client {
                        assert(view.subscriptions.contains((port, b)));
                    }
                } else {
                    assert(view.subscriptions.contains((p, a)));
                    assert(view.subscriptions.contains((p, b)));
                }
            }
        },
        RequestedView::Filtered(pattern) => {
            let added = HttpFilterManagerView { port, filters: seq![(client, pattern)] };
            lemma_managers_push(view, added, after);
            assert(added.filters[0].0 == client);
            assert forall|j: int| 0 <= j < after.managers.len() implies distinct_clients(
                (#[trigger] after.managers[j]).filters,
            ) && after.managers[j].filters.len() > 0 by {
                if j < view.managers.len() {
                    assert(after.managers[j] == view.managers[j]);
                }
            }
            assert forall|j: int, a: int|
                0 <= j < after.managers.len() && 0 <= a < after.managers.len() && j != a implies (
            #[trigger] after.managers[j]).port != (#[trigger] after.managers[a]).port by {
                if j < view.managers.len() && a < view.managers.len() {
                    assert(view.managers[j].port != view.managers[a].port);
                } else if j < view.managers.len() {
                    assert(view.manages(view.managers[j].port, j));
                } else {
                    assert(view.manages(view.managers[a].port, a));
                }
            }
            assert forall|j: int, c: ClientId| 0 <= j < after.managers.len() implies (has_client(
                (#[trigger] after.managers[j]).filters,
                c,
            ) <==> #[trigger] after.subscriptions.contains((after.managers[j].port, c))) by {
                if j < view.managers.len() {
                    assert(after.managers[j] == view.managers[j]);
                    assert(has_client(view.managers[j].filters, c)
                        <==> view.subscriptions.contains((view.managers[j].port, c)));
                    assert(view.manages(view.managers[j].port, j));
                } else {
                    if has_client(added.filters, c) {
                        let k = choose|k: int|
                            0 <= k < added.filters.len() && (#[trigger] added.filters[k]).0 == c;
                        assert(c == client);
                    }
                    if after.subscriptions.contains((port, c)) {
                        if c != client {
                            assert(view.subscriptions.contains((port, c)));
                        }
                        assert(has_client(added.filters, c));
                    }
                }
            }
            assert forall|p: Port, a: ClientId, b: ClientId|
                #[trigger] after.subscriptions.contains((p, a))
                    && #[trigger] after.subscriptions.contains((p, b)) && !after.is_filtered(
                    p,
                ) implies a == b by {
                assert(p != port);
                assert(view.subscriptions.contains((p, a)));
                assert(view.subscriptions.contains((p, b)));
            }
        },
    }
    // the chain
    let rule = view.rule_for(port);
    let old_rules = match view.rules {
        Some(rules) => rules,
        None => Seq::<Redirect>::empty(),
    };
    let new_rules = after.rules.unwrap();
    assert(new_rules =~= old_rules.push(rule));
    assert(!old_rules.contains(rule));
    lemma_push_no_duplicates(old_rules, rule);
    assert forall|k: int| 0 <= k < new_rules.len() implies (#[trigger] new_rules[k]).1
        == after.listener_port by {
        if k < old_rules.len() {
            assert(new_rules[k] == old_rules[k]);
        }
    }
    assert forall|p: Port| #[trigger]
        new_rules.contains((p, after.listener_port)) <==> after.has_subscriber(p) by {
        lemma_push_membership(old_rules, rule, (p, view.listener_port));
        if p != port {
            if view.rules.is_some() {
                assert(old_rules.contains((p, view.listener_port)) <==> view.has_subscriber(p));
            } else {
                assert(view.subscriptions.len() == 0);
                if view.has_subscriber(p) {
                    let c = choose|c: ClientId| view.subscriptions.contains((p, c));
                    assert(view.subscriptions.contains((p, c)));
                }
            }
        }
    }
}

/// A subscription keeps the stealer consistent, whatever is asked for and
/// however the installation of the rule went.
pub proof fn lemma_subscribe_keeps_inv(
    view: StealerView,
    client: ClientId,
    port: Port,
    requested: RequestedView,
    installed: bool,
)
    requires
        view.inv(),
    ensures
        view.subscribe(client, port, requested, installed).inv(),
{
    match view.plan(client, port, requested) {
        SubscribePlan::BadFilter => {},
        SubscribePlan::Conflict => {},
        SubscribePlan::Update => {
            lemma_update_keeps_inv(view, client, port, requested);
        },
        SubscribePlan::Join => {
            lemma_join_keeps_inv(view, client, port, requested);
        },
        SubscribePlan::Install { init_guard } => {
            lemma_install_keeps_inv(view, client, port, requested);
        },
    }
}

/// Who is subscribed where after `client` gave up `port`.
proof fn lemma_subscribers_after_unsubscribe(view: StealerView, client: ClientId, port: Port)
    ensures
        forall|p: Port, c: ClientId|
            #[trigger] view.unsubscribe(client, port).subscriptions.contains((p, c)) <==> (
            view.subscriptions.contains((p, c)) && !(p == port && c == client)),
        forall|p: Port|
            p != port ==> (view.unsubscribe(client, port).has_subscriber(p) <==> view.has_subscriber(
                p,
            )),
        view.unsubscribe(client, port).has_subscriber(port) <==> view.has_other_subscriber(
            port,
            client,
        ),
{
    let after = view.unsubscribe(client, port);
    let pick = other_than(port, client);
    assert(after.subscriptions == view.subscriptions.filter(pick));
    assert forall|p: Port, c: ClientId| #[trigger]
        after.subscriptions.contains((p, c)) <==> (view.subscriptions.contains((p, c)) && !(p == port
            && c == client)) by {
        lemma_filter_membership(view.subscriptions, pick, (p, c));
    }
    assert forall|p: Port| p != port implies (after.has_subscriber(p) <==> view.has_subscriber(p)) by {
        if after.has_subscriber(p) {
            let c = choose|c: ClientId| after.subscriptions.contains((p, c));
            assert(view.subscriptions.contains((p, c)));
        }
        if view.has_subscriber(p) {
            let c = choose|c: ClientId| view.subscriptions.contains((p, c));
            assert(after.subscriptions.contains((p, c)));
        }
    }
    if after.has_subscriber(port) {
        let c = choose|c: ClientId| after.subscriptions.contains((port, c));
        assert(view.subscriptions.contains((port, c)) && c != client);
    }
    if view.has_other_subscriber(port, client) {
        let c = choose|c: ClientId| c != client && view.subscriptions.contains((port, c));
        assert(after.subscriptions.contains((port, c)));
    }
}

/// Giving up a subscription keeps the stealer consistent.
pub proof fn lemma_unsubscribe_keeps_inv(view: StealerView, client: ClientId, port: Port)
    requires
        view.inv(),
    ensures
        view.unsubscribe(client, port).inv(),
        view.unsubscribe(client, port).clients == view.clients,
        view.unsubscribe(client, port).connections == view.connections,
        view.unsubscribe(client, port).allocator == view.allocator,
        view.unsubscribe(client, port).listener_port == view.listener_port,
{
    let after = view.unsubscribe(client, port);
    let pick = other_than(port, client);
    lemma_subscribers_after_unsubscribe(view, client, port);
    lemma_filter_no_duplicates(view.subscriptions, pick);
    // the managers
    if view.is_filtered(port) {
        let i = view.manager_at(port);
        assert(view.manages(port, i));
        let filters = view.managers[i].filters;
        let left = without_client(filters, client);
        lemma_without_client(filters, client);
        if left.len() == 0 {
            lemma_managers_remove(view, i, after);
            assert forall|j: int, a: int|
                0 <= j < after.managers.len() && 0 <= a < after.managers.len() && j != a implies (
            #[trigger] after.managers[j]).port != (#[trigger] after.managers[a]).port by {
                let j0 = if j < i { j } else { j + 1 };
                let a0 = if a < i { a } else { a + 1 };
                assert(view.managers[j0].port != view.managers[a0].port);
            }
            assert forall|j: int, c: ClientId| 0 <= j < after.managers.len() implies (has_client(
                (#[trigger] after.managers[j]).filters,
                c,
            ) <==> #[trigger] after.subscriptions.contains((after.managers[j].port, c))) by {
                let j0 = if j < i { j } else { j + 1 };
                assert(after.managers[j] == view.managers[j0]);
                assert(has_client(view.managers[j0].filters, c) <==> view.subscriptions.contains(
                    (view.managers[j0].port, c),
                ));
                assert(view.managers[j0].port != view.managers[i].port);
            }
            assert forall|j: int| 0 <= j < after.managers.len() implies distinct_clients(
                (#[trigger] after.managers[j]).filters,
            ) && after.managers[j].filters.len() > 0 by {
                let j0 = if j < i { j } else { j + 1 };
                assert(after.managers[j] == view.managers[j0]);
            }
            assert forall|p: Port, a: ClientId, b: ClientId|
                #[trigger] after.subscriptions.contains((p, a))
                    && #[trigger] after.subscriptions.contains((p, b)) && !after.is_filtered(
                    p,
                ) implies a == b by {
                if p == port {
                    assert(view.subscriptions.contains((view.managers[i].port, a)));
                    assert(has_client(filters, a));
                    assert(has_client(left, a));
                    let k = choose|k: int| 0 <= k < left.len() && (#[trigger] left[k]).0 == a;
                    assert(false);
                } else {
                    assert(view.subscriptions.contains((p, a)));
                    assert(view.subscriptions.contains((p, b)));
                }
            }
        } else {
            assert(after.managers[i].filters == left);
            lemma_managers_update(view, i, after);
            assert forall|j: int, c: ClientId| 0 <= j < after.managers.len() implies (has_client(
                (#[trigger] after.managers[j]).filters,
                c,
            ) <==> #[trigger] after.subscriptions.contains((after.managers[j].port, c))) by {
                assert(has_client(view.managers[j].filters, c) <==> view.subscriptions.contains(
                    (view.managers[j].port, c),
                ));
                if j != i {
                    assert(after.managers[j] == view.managers[j]);
                    assert(view.managers[j].port != view.managers[i].port);
                }
            }
            assert forall|j: int| 0 <= j < after.managers.len() implies distinct_clients(
                (#[trigger] after.managers[j]).filters,
            ) && after.managers[j].filters.len() > 0 by {
                if j != i {
                    assert(after.managers[j] == view.managers[j]);
                }
            }
            assert forall|j: int, a: int|
                0 <= j < after.managers.len() && 0 <= a < after.managers.len() && j != a implies (
            #[trigger] after.managers[j]).port != (#[trigger] after.managers[a]).port by {
                assert(view.managers[j].port != view.managers[a].port);
            }
            assert forall|p: Port, a: ClientId, b: ClientId|
                #[trigger] after.subscriptions.contains((p, a))
                    && #[trigger] after.subscriptions.contains((p, b)) && !after.is_filtered(
                    p,
                ) implies a == b by {
                assert(view.subscriptions.contains((p, a)));
                assert(view.subscriptions.contains((p, b)));
            }
        }
    } else {
        assert(after.managers == view.managers);
        assert forall|p: Port| after.is_filtered(p) <==> view.is_filtered(p) by {
            if after.is_filtered(p) {
                let j = after.manager_at(p);
                assert(after.manages(p, j));
                assert(view.manages(p, j));
            }
            if view.is_filtered(p) {
                let j = view.manager_at(p);
                assert(view.manages(p, j));
                assert(after.manages(p, j));
            }
        }
        assert forall|j: int, c: ClientId| 0 <= j < after.managers.len() implies (has_client(
            (#[trigger] after.managers[j]).filters,
            c,
        ) <==> #[trigger] after.subscriptions.contains((after.managers[j].port, c))) by {
            assert(has_client(view.managers[j].filters, c) <==> view.subscriptions.contains(
                (view.managers[j].port, c),
            ));
            assert(view.manages(view.managers[j].port, j));
        }
        assert forall|p: Port, a: ClientId, b: ClientId|
            #[trigger] after.subscriptions.contains((p, a)) && #[trigger] after.subscriptions.contains(
                (p, b),
            ) && !after.is_filtered(p) implies a == b by {
            assert(view.subscriptions.contains((p, a)));
            assert(view.subscriptions.contains((p, b)));
        }
    }
    // the chain
    match view.rules {
        None => {
            assert(view.subscriptions.len() == 0);
            view.subscriptions.lemma_filter_len(pick);
        },
        Some(rules) => {
            if after.subscriptions.len() == 0 {
            } else if after.has_subscriber(port) {
                assert(view.has_other_subscriber(port, client));
                let c = choose|c: ClientId| c != client && view.subscriptions.contains((port, c));
                assert(view.subscriptions.contains((port, c)));
                assert(view.has_subscriber(port));
                assert forall|p: Port| #[trigger]
                    rules.contains((p, after.listener_port)) <==> after.has_subscriber(p) by {
                    assert(rules.contains((p, view.listener_port)) <==> view.has_subscriber(p));
                }
            } else {
                let rule = view.rule_for(port);
                let kept = rules.filter(not_rule(rule));
                lemma_filter_no_duplicates(rules, not_rule(rule));
                lemma_filter_elements(rules, not_rule(rule));
                assert forall|k: int| 0 <= k < kept.len() implies (#[trigger] kept[k]).1
                    == after.listener_port by {
                    assert(rules.contains(kept[k]));
                    let m = choose|m: int| 0 <= m < rules.len() && rules[m] == kept[k];
                    assert(rules[m].1 == view.listener_port);
                }
                assert forall|p: Port| #[trigger]
                    kept.contains((p, after.listener_port)) <==> after.has_subscriber(p) by {
                    lemma_filter_membership(rules, not_rule(rule), (p, view.listener_port));
                    assert(rules.contains((p, view.listener_port)) <==> view.has_subscriber(p));
                }
            }
        },
    }
}

/// Giving up a series of subscriptions keeps the stealer consistent, and ends
/// exactly the subscriptions of `client` on these ports.
pub proof fn lemma_unsubscribe_all(view: StealerView, client: ClientId, ports: Seq<Port>)
    requires
        view.inv(),
    ensures
        view.unsubscribe_all(client, ports).inv(),
        view.unsubscribe_all(client, ports).clients == view.clients,
        view.unsubscribe_all(client, ports).connections == view.connections,
        view.unsubscribe_all(client, ports).allocator == view.allocator,
        view.unsubscribe_all(client, ports).listener_port == view.listener_port,
        forall|p: Port, c: ClientId|
            #[trigger] view.unsubscribe_all(client, ports).subscriptions.contains((p, c)) <==> (
            view.subscriptions.contains((p, c)) && !(c == client && ports.contains(p))),
    decreases ports.len(),
{
    if ports.len() > 0 {
        let next = view.unsubscribe(client, ports.first());
        lemma_unsubscribe_keeps_inv(view, client, ports.first());
        lemma_subscribers_after_unsubscribe(view, client, ports.first());
        lemma_unsubscribe_all(next, client, ports.drop_first());
        let after = view.unsubscribe_all(client, ports);
        assert forall|p: Port, c: ClientId| #[trigger]
            after.subscriptions.contains((p, c)) <==> (view.subscriptions.contains((p, c)) && !(c
                == client && ports.contains(p))) by {
            assert(after.subscriptions.contains((p, c)) <==> (next.subscriptions.contains((p, c))
                && !(c == client && ports.drop_first().contains(p))));
            assert(next.subscriptions.contains((p, c)) <==> (view.subscriptions.contains((p, c))
                && !(p == ports.first() && c == client)));
            if ports.drop_first().contains(p) {
                let k = choose|k: int|
                    0 <= k < ports.drop_first().len() && ports.drop_first()[k] == p;
                assert(ports[k + 1] == p);
            }
            if ports.contains(p) {
                let k = choose|k: int| 0 <= k < ports.len() && ports[k] == p;
                if k > 0 {
                    assert(ports.drop_first()[k - 1] == p);
                }
            }
            assert(ports[0] == ports.first());
        }
    }
}

/// The ports listed for a client are those that it is subscribed to.
pub proof fn lemma_topics_of(subscriptions: Seq<Subscription>, client: ClientId, port: Port)
    ensures
        topics_of(subscriptions, client).contains(port) <==> subscriptions.contains((port, client)),
{
    let held = subscriptions.filter(held_by(client));
    let topics = topics_of(subscriptions, client);
    lemma_filter_membership(subscriptions, held_by(client), (port, client));
    lemma_filter_elements(subscriptions, held_by(client));
    if topics.contains(port) {
        let k = choose|k: int| 0 <= k < topics.len() && topics[k] == port;
        assert(held[k].0 == port);
        assert(held[k].1 == client);
        assert(held[k] == (port, client));
    }
    if subscriptions.contains((port, client)) {
        let k = choose|k: int| 0 <= k < held.len() && held[k] == (port, client);
        assert(topics[k] == port);
    }
}

/// When a client goes away, nothing of it is left: no subscription, no
/// connection, no sink. The stealer stays consistent, so the chain holds
/// rules for exactly the ports that somebody else is still subscribed to.
pub proof fn lemma_close_client(view: StealerView, client: ClientId)
    requires
        view.inv(),
    ensures
        view.close_client(client).inv(),
        forall|port: Port| !view.close_client(client).subscriptions.contains((port, client)),
        forall|port: Port, other: ClientId|
            other != client ==> (view.close_client(client).subscriptions.contains((port, other))
                <==> view.subscriptions.contains((port, other))),
        !view.close_client(client).clients.contains(client),
        forall|i: int|
            0 <= i < view.close_client(client).connections.len() ==> (
            #[trigger] view.close_client(client).connections[i]).client_id != Some(client),
        view.close_client(client).allocator == view.allocator,
{
    let ports = topics_of(view.subscriptions, client);
    let middle = view.unsubscribe_all(client, ports);
    let after = view.close_client(client);
    lemma_unsubscribe_all(view, client, ports);
    assert forall|port: Port| !after.subscriptions.contains((port, client)) by {
        lemma_topics_of(view.subscriptions, client, port);
    }
    lemma_filter_membership(view.clients, not_client(client), client);
    lemma_filter_no_duplicates(view.clients, not_client(client));
    lemma_filter_elements(view.connections, not_owned_by(client));
    lemma_connections_filter(middle, not_owned_by(client), after);
    assert(after.subscriptions_inv()) by {
        assert(after.subscriptions == middle.subscriptions);
        assert(after.managers == middle.managers);
        assert forall|p: Port| after.is_filtered(p) <==> middle.is_filtered(p) by {
            if after.is_filtered(p) {
                let j = after.manager_at(p);
                assert(after.manages(p, j));
                assert(middle.manages(p, j));
            }
            if middle.is_filtered(p) {
                let j = middle.manager_at(p);
                assert(middle.manages(p, j));
                assert(after.manages(p, j));
            }
        }
    }
    assert(after.rules_inv()) by {
        assert forall|p: Port| after.has_subscriber(p) <==> middle.has_subscriber(p) by {
            if after.has_subscriber(p) {
                let c = choose|c: ClientId| after.subscriptions.contains((p, c));
                assert(middle.subscriptions.contains((p, c)));
            }
            if middle.has_subscriber(p) {
                let c = choose|c: ClientId| middle.subscriptions.contains((p, c));
                assert(after.subscriptions.contains((p, c)));
            }
        }
    }
}

/// Registering a client keeps the stealer consistent.
pub proof fn lemma_new_client_keeps_inv(view: StealerView, client: ClientId)
    requires
        view.inv(),
    ensures
        view.new_client(client).inv(),
{
    let after = view.new_client(client);
    if !view.clients.contains(client) {
        lemma_push_no_duplicates(view.clients, client);
        lemma_same_subscriptions(view, after);
    }
}

/// Two stealers that agree on subscriptions, managers, rules and listener are
/// consistent in these together.
proof fn lemma_same_subscriptions(view: StealerView, after: StealerView)
    requires
        view.subscriptions_inv(),
        view.rules_inv(),
        after.subscriptions == view.subscriptions,
        after.managers == view.managers,
        after.rules == view.rules,
        after.listener_port == view.listener_port,
    ensures
        after.subscriptions_inv(),
        after.rules_inv(),
{
    assert forall|p: Port| after.is_filtered(p) <==> view.is_filtered(p) by {
        if after.is_filtered(p) {
            let j = after.manager_at(p);
            assert(after.manages(p, j));
            assert(view.manages(p, j));
        }
        if view.is_filtered(p) {
            let j = view.manager_at(p);
            assert(view.manages(p, j));
            assert(after.manages(p, j));
        }
    }
    assert forall|p: Port| after.has_subscriber(p) <==> view.has_subscriber(p) by {
        if after.has_subscriber(p) {
            let c = choose|c: ClientId| after.subscriptions.contains((p, c));
            assert(view.subscriptions.contains((p, c)));
        }
        if view.has_subscriber(p) {
            let c = choose|c: ClientId| view.subscriptions.contains((p, c));
            assert(after.subscriptions.contains((p, c)));
        }
    }
}

/// Dropping some of the connections keeps the connections consistent.
proof fn lemma_connections_filter(
    view: StealerView,
    pick: spec_fn(ConnectionView) -> bool,
    after: StealerView,
)
    requires
        view.connections_inv(),
        after.connections == view.connections.filter(pick),
        after.allocator == view.allocator,
    ensures
        after.connections_inv(),
{
    lemma_filter_elements(view.connections, pick);
    let id_of = |connection: ConnectionView| connection.connection_id;
    assert forall|i: int, j: int|
        0 <= i < view.connections.len() && 0 <= j < view.connections.len() && i != j implies id_of(
        view.connections[i],
    ) != id_of(view.connections[j]) by {
        assert(view.connections[i].connection_id != view.connections[j].connection_id);
    }
    lemma_filter_distinct_keys(view.connections, pick, id_of);
    assert forall|i: int, j: int|
        0 <= i < after.connections.len() && 0 <= j < after.connections.len() && i != j implies (
    #[trigger] after.connections[i]).connection_id != (#[trigger] after.connections[j]).connection_id by {
        assert(id_of(after.connections[i]) != id_of(after.connections[j]));
    }
    assert forall|i: int| 0 <= i < after.connections.len() implies after.allocator.is_allocated(
        (#[trigger] after.connections[i]).connection_id,
    ) && after.connections[i].responses.wf() by {
        assert(view.connections.contains(after.connections[i]));
        let k = choose|k: int| 0 <= k < view.connections.len() && view.connections[k]
            == after.connections[i];
        assert(view.allocator.is_allocated(view.connections[k].connection_id));
    }
}

/// Dropping the record of a connection keeps the stealer consistent, and the
/// connection is no longer known.
pub proof fn lemma_drop_connection(view: StealerView, connection_id: ConnectionId)
    requires
        view.inv(),
    ensures
        view.drop_connection(connection_id).inv(),
        !view.drop_connection(connection_id).has_connection(connection_id),
{
    let after = view.drop_connection(connection_id);
    if view.has_connection(connection_id) {
        let i = view.connection_at(connection_id);
        assert(view.holds(connection_id, i));
        lemma_same_subscriptions(view, after);
        assert forall|a: int| 0 <= a < after.connections.len() implies #[trigger] after.connections[a]
            == view.connections[if a < i { a } else { a + 1 }] by {}
        assert forall|a: int, b: int|
            0 <= a < after.connections.len() && 0 <= b < after.connections.len() && a != b implies (
        #[trigger] after.connections[a]).connection_id != (
        #[trigger] after.connections[b]).connection_id by {
            let a0 = if a < i { a } else { a + 1 };
            let b0 = if b < i { b } else { b + 1 };
            assert(view.connections[a0].connection_id != view.connections[b0].connection_id);
        }
        assert forall|a: int| 0 <= a < after.connections.len() implies after.allocator.is_allocated(
            (#[trigger] after.connections[a]).connection_id,
        ) && after.connections[a].responses.wf() by {
            let a0 = if a < i { a } else { a + 1 };
            assert(view.allocator.is_allocated(view.connections[a0].connection_id));
        }
        if after.has_connection(connection_id) {
            let j = after.connection_at(connection_id);
            assert(after.holds(connection_id, j));
            let j0 = if j < i { j } else { j + 1 };
            assert(view.connections[j0].connection_id != view.connections[i].connection_id);
        }
    }
}

/// A connection has one record at most, so the record found for it is the one.
pub proof fn lemma_connection_unique(view: StealerView, connection_id: ConnectionId, i: int)
    requires
        view.connections_inv(),
        view.holds(connection_id, i),
    ensures
        view.has_connection(connection_id),
        view.connection_at(connection_id) == i,
{
    let j = view.connection_at(connection_id);
    assert(view.holds(connection_id, j));
    if i != j {
        assert(view.connections[i].connection_id != view.connections[j].connection_id);
    }
}

/// Accepting a connection keeps the stealer consistent. A connection that is
/// turned down leaves no trace.
pub proof fn lemma_incoming_connection(view: StealerView, destination: SocketAddress, peeked: Seq<u8>)
    requires
        view.inv(),
    ensures
        view.incoming_connection(destination, peeked).inv(),
        view.refusal(destination, peeked).is_some() ==> view.incoming_connection(destination, peeked)
            == view,
        !view.has_subscriber(destination.port) ==> view.refusal(destination, peeked) == Some(
            crate::stealer_model::AgentError::UnexpectedConnection(destination.port),
        ),
{
    let after = view.incoming_connection(destination, peeked);
    if view.refusal(destination, peeked).is_some() {
    } else if view.recipient_is_gone(destination, peeked) {
        lemma_close_client(view, view.recipient(destination.port));
    } else {
        lemma_allocation(view.allocator);
        lemma_same_subscriptions(view, after);
        let id = view.allocator.upcoming().unwrap();
        let fresh = view.fresh_connection(id, destination, peeked);
        assert(after.connections == view.connections.push(fresh));
        assert forall|i: int, j: int|
            0 <= i < after.connections.len() && 0 <= j < after.connections.len() && i != j implies (
        #[trigger] after.connections[i]).connection_id != (
        #[trigger] after.connections[j]).connection_id by {
            if i < view.connections.len() && j < view.connections.len() {
                assert(view.connections[i].connection_id != view.connections[j].connection_id);
            } else if i < view.connections.len() {
                assert(view.allocator.is_allocated(view.connections[i].connection_id));
            } else {
                assert(view.allocator.is_allocated(view.connections[j].connection_id));
            }
        }
        assert forall|i: int| 0 <= i < after.connections.len() implies after.allocator.is_allocated(
            (#[trigger] after.connections[i]).connection_id,
        ) && after.connections[i].responses.wf() by {
            if i < view.connections.len() {
                assert(view.allocator.is_allocated(view.connections[i].connection_id));
                assert(after.connections[i] == view.connections[i]);
            }
        }
    }
}

/// A change to the responses of one connection keeps the stealer consistent
/// if it keeps those responses in order.
proof fn lemma_connection_update(view: StealerView, i: int, after: StealerView)
    requires
        view.inv(),
        0 <= i < view.connections.len(),
        after.connections.len() == view.connections.len(),
        after.connections[i].responses.wf(),
        after == (StealerView {
            connections: view.connections.update(
                i,
                ConnectionView { responses: after.connections[i].responses, ..view.connections[i] },
            ),
            ..view
        }),
    ensures
        after.inv(),
{
    lemma_same_subscriptions(view, after);
    assert forall|a: int, b: int|
        0 <= a < after.connections.len() && 0 <= b < after.connections.len() && a != b implies (
    #[trigger] after.connections[a]).connection_id != (#[trigger] after.connections[b]).connection_id by {
        assert(view.connections[a].connection_id != view.connections[b].connection_id);
    }
    assert forall|a: int| 0 <= a < after.connections.len() implies after.allocator.is_allocated(
        (#[trigger] after.connections[a]).connection_id,
    ) && after.connections[a].responses.wf() by {
        assert(view.allocator.is_allocated(view.connections[a].connection_id));
        if a != i {
            assert(after.connections[a] == view.connections[a]);
        }
    }
}

/// Taking in a matched request keeps the stealer consistent.
pub proof fn lemma_matched_request_keeps_inv(view: StealerView, request: MatchedHttpRequest)
    requires
        view.inv(),
    ensures
        view.matched_request(request).inv(),
{
    if view.takes_request(request) {
        let i = view.connection_at(request.connection_id);
        assert(view.holds(request.connection_id, i));
        lemma_expect_keeps_order(view.connections[i].responses, request.request_id);
        lemma_connection_update(view, i, view.matched_request(request));
    }
}

/// Taking in a response keeps the stealer consistent.
pub proof fn lemma_http_response_keeps_inv(view: StealerView, response: HttpResponse)
    requires
        view.inv(),
    ensures
        view.http_response(response).inv(),
{
    if view.takes_response(response) {
        let i = view.connection_at(response.connection_id);
        assert(view.holds(response.connection_id, i));
        lemma_arrive_keeps_order(view.connections[i].responses, response);
        lemma_connection_update(view, i, view.http_response(response));
    }
}

/// Whatever is read from a connection, the stealer stays consistent.
pub proof fn lemma_forward_incoming_keeps_inv(
    view: StealerView,
    connection_id: ConnectionId,
    incoming: Incoming,
)
    requires
        view.inv(),
    ensures
        view.forward_incoming(connection_id, incoming).inv(),
{
    lemma_drop_connection(view, connection_id);
}

/// Picks the rules that redirect `port`.
pub open spec fn redirects(port: Port) -> spec_fn(Redirect) -> bool {
    |rule: Redirect| rule.0 == port
}

/// The rules of the chain that redirect `port`.
pub open spec fn rules_from(rules: Option<Seq<Redirect>>, port: Port) -> Seq<Redirect> {
    match rules {
        Some(rules) => rules.filter(redirects(port)),
        None => Seq::empty(),
    }
}

/// A port that somebody is subscribed to has exactly one redirect rule, and a
/// port that nobody is subscribed to has none.
pub proof fn lemma_one_rule_per_stolen_port(view: StealerView, port: Port)
    requires
        view.inv(),
    ensures
        rules_from(view.rules, port).len() == if view.has_subscriber(port) {
            1nat
        } else {
            0nat
        },
        view.has_subscriber(port) ==> rules_from(view.rules, port) == seq![view.rule_for(port)],
{
    match view.rules {
        None => {
            if view.has_subscriber(port) {
                let c = choose|c: ClientId| view.subscriptions.contains((port, c));
                assert(view.subscriptions.contains((port, c)));
            }
        },
        Some(rules) => {
            let from = redirects(port);
            let found = rules.filter(from);
            lemma_filter_elements(rules, from);
            lemma_filter_no_duplicates(rules, from);
            lemma_filter_membership(rules, from, view.rule_for(port));
            assert forall|k: int| 0 <= k < found.len() implies #[trigger] found[k] == view.rule_for(
                port,
            ) by {
                assert(rules.contains(found[k]));
                let m = choose|m: int| 0 <= m < rules.len() && rules[m] == found[k];
                assert(rules[m].1 == view.listener_port);
            }
            if found.len() >= 2 {
                assert(found[0] == found[1]);
            }
            if view.has_subscriber(port) {
                assert(rules.contains((port, view.listener_port)));
                assert(found.contains(view.rule_for(port)));
                assert(found =~= seq![view.rule_for(port)]);
            } else {
                if found.len() >= 1 {
                    assert(rules.contains(found[0]));
                    assert(rules.contains((port, view.listener_port)));
                }
            }
        },
    }
}

/// When a client goes away, every connection that it owned is closed, and no
/// rule is left for a port that only it was subscribed to.
pub proof fn lemma_close_client_cleans_up(view: StealerView, client: ClientId)
    requires
        view.inv(),
    ensures
        forall|i: int|
            0 <= i < view.connections.len() && (#[trigger] view.connections[i]).client_id == Some(
                client,
            ) ==> view.close_client_actions(client).contains(
                StealerAction::CloseConnection(view.connections[i].connection_id),
            ),
        forall|port: Port|
            !view.has_other_subscriber(port, client) ==> #[trigger] rules_from(
                view.close_client(client).rules,
                port,
            ).len() == 0,
{
    let after = view.close_client(client);
    let actions = view.close_client_actions(client);
    let owned = view.connections.filter(owned_by(client));
    let closes = owned.map_values(closing());
    let first = view.unsubscribe_all_actions(client, topics_of(view.subscriptions, client));
    assert forall|i: int|
        0 <= i < view.connections.len() && (#[trigger] view.connections[i]).client_id == Some(
            client,
        ) implies actions.contains(
        StealerAction::CloseConnection(view.connections[i].connection_id),
    ) by {
        view.connections.lemma_filter_contains(owned_by(client), i);
        let k = choose|k: int| 0 <= k < owned.len() && owned[k] == view.connections[i];
        assert(closes[k] == StealerAction::CloseConnection(view.connections[i].connection_id));
        assert(actions[first.len() + 1 + k] == closes[k]);
    }
    lemma_close_client(view, client);
    assert forall|port: Port| !view.has_other_subscriber(port, client) implies #[trigger] rules_from(
        after.rules,
        port,
    ).len() == 0 by {
        lemma_one_rule_per_stolen_port(after, port);
        if after.has_subscriber(port) {
            let c = choose|c: ClientId| after.subscriptions.contains((port, c));
            assert(c != client);
            assert(view.subscriptions.contains((port, c)));
            assert(view.has_other_subscriber(port, client));
        }
    }
}

/// Whatever a client commands, the stealer stays consistent.
pub proof fn lemma_command_keeps_inv(
    view: StealerView,
    client: ClientId,
    command: StealerCommand,
    installed: bool,
)
    requires
        view.inv(),
    ensures
        view.handle_command(client, command, installed).inv(),
{
    match command {
        StealerCommand::NewClient => {
            lemma_new_client_keeps_inv(view, client);
        },
        StealerCommand::PortSubscribe(steal) => {
            lemma_subscribe_keeps_inv(
                view,
                client,
                steal@.port(),
                requested_of(steal@),
                installed,
            );
        },
        StealerCommand::PortUnsubscribe(port) => {
            lemma_unsubscribe_keeps_inv(view, client, port);
        },
        StealerCommand::ClientClose => {
            lemma_close_client(view, client);
        },
        StealerCommand::ConnectionUnsubscribe(connection_id) => {
            lemma_drop_connection(view, connection_id);
        },
        StealerCommand::ResponseData(_) => {},
        StealerCommand::HttpResponse(response) => {
            lemma_http_response_keeps_inv(view, response);
        },
    }
}

/// Whatever happens, the stealer stays consistent.
pub proof fn lemma_event_keeps_inv(view: StealerView, event: StealerEvent)
    requires
        view.inv(),
    ensures
        view.handle_event(event).inv(),
{
    match event {
        StealerEvent::Command { command: Some(command), rule_installed } => {
            lemma_command_keeps_inv(view, command.client_id, command.command, rule_installed);
        },
        StealerEvent::Command { command: None, rule_installed } => {},
        StealerEvent::Accepted { destination, source, peeked } => {
            lemma_incoming_connection(view, destination, peeked@);
        },
        StealerEvent::AcceptFailed => {},
        StealerEvent::Read(connection_id, incoming) => {
            lemma_forward_incoming_keeps_inv(view, connection_id, incoming);
        },
        StealerEvent::Matched(request) => {
            lemma_matched_request_keeps_inv(view, request);
        },
        StealerEvent::ConnectionClosed(connection_id) => {
            lemma_drop_connection(view, connection_id);
        },
        StealerEvent::SendFailed(client) => {
            lemma_close_client(view, client);
        },
        StealerEvent::WriteFailed(connection_id) => {
            lemma_forward_incoming_keeps_inv(view, connection_id, Incoming::Error);
        },
        StealerEvent::Cancelled => {},
    }
}

/// The stealer after a series of events.
pub open spec fn after_events(view: StealerView, events: Seq<StealerEvent>) -> StealerView
    decreases events.len(),
{
    if events.len() == 0 {
        view
    } else {
        after_events(view, events.drop_last()).handle_event(events.last())
    }
}

/// A fresh stealer is consistent and stays so through any series of events.
pub proof fn lemma_always_consistent(listener_port: Port, events: Seq<StealerEvent>)
    ensures
        after_events(StealerView::initial(listener_port), events).inv(),
    decreases events.len(),
{
    let start = StealerView::initial(listener_port);
    if events.len() == 0 {
        assert(start.inv()) by {
            assert forall|port: Port| !start.has_subscriber(port) by {
                if start.has_subscriber(port) {
                    let c = choose|c: ClientId| start.subscriptions.contains((port, c));
                    assert(start.subscriptions.contains((port, c)));
                }
            }
        }
    } else {
        lemma_always_consistent(listener_port, events.drop_last());
        lemma_event_keeps_inv(after_events(start, events.drop_last()), events.last());
    }
}

/// After any series of events, a port that somebody is subscribed to has
/// exactly one redirect rule, and a port that nobody is subscribed to has none.
pub proof fn lemma_rules_follow_subscriptions(
    listener_port: Port,
    events: Seq<StealerEvent>,
    port: Port,
)
    ensures
        rules_from(after_events(StealerView::initial(listener_port), events).rules, port).len()
            == if after_events(StealerView::initial(listener_port), events).has_subscriber(port) {
            1nat
        } else {
            0nat
        },
{
    lemma_always_consistent(listener_port, events);
    lemma_one_rule_per_stolen_port(after_events(StealerView::initial(listener_port), events), port);
}

/// A subscription that succeeded can be repeated: the second one succeeds as
/// well, asks for no rule and changes nothing.
pub proof fn lemma_subscribe_twice(
    view: StealerView,
    client: ClientId,
    port: Port,
    requested: RequestedView,
    installed: bool,
    installed_again: bool,
)
    requires
        view.inv(),
        view.subscribe_reply(client, port, requested, installed) == Some(
            Ok::<Port, crate::protocol::ResponseError>(port),
        ),
    ensures
        view.subscribe(client, port, requested, installed).plan(client, port, requested)
            == SubscribePlan::Update,
        view.subscribe(client, port, requested, installed).subscribe_reply(
            client,
            port,
            requested,
            installed_again,
        ) == Some(Ok::<Port, crate::protocol::ResponseError>(port)),
        view.subscribe(client, port, requested, installed).subscribe(
            client,
            port,
            requested,
            installed_again,
        ) == view.subscribe(client, port, requested, installed),
{
    let once = view.subscribe(client, port, requested, installed);
    lemma_subscribe_keeps_inv(view, client, port, requested, installed);
    let plan = view.plan(client, port, requested);
    // who is subscribed to the port after the first subscription
    if plan is Update {
        assert(once.subscriptions == view.subscriptions);
    } else {
        lemma_subscribers_after_push(view, client, port, once);
    }
    assert(once.subscriptions.contains((port, client)));
    match requested {
        RequestedView::BadFilter => {},
        RequestedView::FullPort => {
            assert(!view.has_other_subscriber(port, client));
            assert(!once.has_other_subscriber(port, client)) by {
                if once.has_other_subscriber(port, client) {
                    let c = choose|c: ClientId| c != client && once.subscriptions.contains((port, c));
                    assert(view.subscriptions.contains((port, c)));
                }
            }
            // the port is not filtered any more
            if view.is_filtered(port) {
                lemma_filtered_has_subscriber(view, port);
                assert(plan is Update);
                let i = view.manager_at(port);
                assert(view.manages(port, i));
                lemma_managers_remove(view, i, once);
            } else {
                assert(once.managers == view.managers);
                if once.is_filtered(port) {
                    let j = once.manager_at(port);
                    assert(once.manages(port, j));
                    assert(view.manages(port, j));
                }
            }
            assert(!once.is_filtered(port));
        },
        RequestedView::Filtered(pattern) => {
            if view.is_filtered(port) {
                let i = view.manager_at(port);
                assert(view.manages(port, i));
                let filters = view.managers[i].filters;
                let set = with_client(filters, client, pattern);
                lemma_with_client(filters, client, pattern);
                assert(once.managers[i].filters == set);
                lemma_managers_update(view, i, once);
                assert(once.manages(port, i));
                lemma_manager_unique(once, port, i);
                // the client's filter is in its place already
                if has_client(filters, client) {
                    let k = choose|k: int| 0 <= k < filters.len() && (#[trigger] filters[k]).0 == client;
                    assert(set[k] == (client, pattern));
                    lemma_client_place(set, client, k);
                    assert(with_client(set, client, pattern) =~= set);
                } else {
                    let k = filters.len() as int;
                    assert(set[k] == (client, pattern));
                    lemma_client_place(set, client, k);
                    assert(with_client(set, client, pattern) =~= set);
                }
                assert(once.managers_with(client, port, requested) =~= once.managers);
            } else {
                let added = HttpFilterManagerView { port, filters: seq![(client, pattern)] };
                lemma_managers_push(view, added, once);
                let i = view.managers.len() as int;
                assert(once.manages(port, i));
                lemma_manager_unique(once, port, i);
                assert(added.filters[0] == (client, pattern));
                lemma_client_place(added.filters, client, 0);
                assert(with_client(added.filters, client, pattern) =~= added.filters);
                assert(once.managers_with(client, port, requested) =~= once.managers);
            }
        },
    }
}

/// The bytes that a list of actions writes to a connection, in order.
pub open spec fn bytes_written(actions: Seq<StealerAction>, connection_id: ConnectionId) -> Seq<u8>
    decreases actions.len(),
{
    if actions.len() == 0 {
        Seq::empty()
    } else {
        bytes_written(actions.drop_last(), connection_id) + match actions.last() {
            StealerAction::Write(id, bytes) => if id == connection_id {
                bytes@
            } else {
                Seq::empty()
            },
            _ => Seq::empty(),
        }
    }
}

/// What two lists of actions write is what the first writes and then the second.
pub proof fn lemma_bytes_written_add(first: Seq<StealerAction>, second: Seq<StealerAction>, connection_id: ConnectionId)
    ensures
        bytes_written(first + second, connection_id) == bytes_written(first, connection_id)
            + bytes_written(second, connection_id),
    decreases second.len(),
{
    if second.len() == 0 {
        assert(first + second =~= first);
        assert(bytes_written(first, connection_id) + Seq::<u8>::empty() =~= bytes_written(
            first,
            connection_id,
        ));
    } else {
        lemma_bytes_written_add(first, second.drop_last(), connection_id);
        assert((first + second).drop_last() =~= first + second.drop_last());
        assert((first + second).last() == second.last());
        let tail = bytes_written(first + second, connection_id);
        assert(tail =~= bytes_written(first, connection_id) + bytes_written(second, connection_id));
    }
}

/// No action of the list writes to a connection.
pub open spec fn writes_nothing(actions: Seq<StealerAction>) -> bool {
    forall|i: int| 0 <= i < actions.len() ==> !(#[trigger] actions[i] is Write)
}

/// A list without writes writes no bytes.
pub proof fn lemma_writes_nothing(actions: Seq<StealerAction>, connection_id: ConnectionId)
    requires
        writes_nothing(actions),
    ensures
        bytes_written(actions, connection_id) == Seq::<u8>::empty(),
    decreases actions.len(),
{
    if actions.len() > 0 {
        assert forall|i: int| 0 <= i < actions.drop_last().len() implies !(
        #[trigger] actions.drop_last()[i] is Write) by {
            assert(actions.drop_last()[i] == actions[i]);
        }
        lemma_writes_nothing(actions.drop_last(), connection_id);
        assert(!(actions[actions.len() - 1] is Write));
        assert(bytes_written(actions, connection_id) =~= Seq::<u8>::empty());
    }
}

/// Giving up subscriptions writes to no connection.
proof fn lemma_unsubscribe_all_writes_nothing(view: StealerView, client: ClientId, ports: Seq<Port>)
    ensures
        writes_nothing(view.unsubscribe_all_actions(client, ports)),
    decreases ports.len(),
{
    if ports.len() > 0 {
        lemma_unsubscribe_all_writes_nothing(
            view.unsubscribe(client, ports.first()),
            client,
            ports.drop_first(),
        );
    }
}

/// The departure of a client writes to no connection.
proof fn lemma_close_client_writes_nothing(view: StealerView, client: ClientId)
    ensures
        writes_nothing(view.close_client_actions(client)),
{
    lemma_unsubscribe_all_writes_nothing(view, client, topics_of(view.subscriptions, client));
}

/// What is done on an event; nothing where the stealer fails.
pub open spec fn actions_of(view: StealerView, event: StealerEvent) -> Seq<StealerAction> {
    match view.handle_event_actions(event) {
        Ok(actions) => actions,
        Err(_) => Seq::empty(),
    }
}

/// The bytes that an event brings for a connection: those of a message that
/// the layer sends for it while it is a raw connection of the stealer.
pub open spec fn written_by(view: StealerView, event: StealerEvent, connection_id: ConnectionId) -> Seq<
    u8,
> {
    match event {
        StealerEvent::Command { command: Some(command), rule_installed } => match command.command {
            StealerCommand::ResponseData(data) => if data.connection_id == connection_id
                && view.is_writable(connection_id) {
                data.bytes@
            } else {
                Seq::empty()
            },
            _ => Seq::empty(),
        },
        _ => Seq::empty(),
    }
}

/// Everything that is done over a series of events, in order.
pub open spec fn all_actions(view: StealerView, events: Seq<StealerEvent>) -> Seq<StealerAction>
    decreases events.len(),
{
    if events.len() == 0 {
        Seq::empty()
    } else {
        all_actions(view, events.drop_last()) + actions_of(
            after_events(view, events.drop_last()),
            events.last(),
        )
    }
}

/// All bytes that a series of events brings for a connection, in the order
/// of the events.
pub open spec fn all_written(view: StealerView, events: Seq<StealerEvent>, connection_id: ConnectionId) -> Seq<
    u8,
>
    decreases events.len(),
{
    if events.len() == 0 {
        Seq::empty()
    } else {
        all_written(view, events.drop_last(), connection_id) + written_by(
            after_events(view, events.drop_last()),
            events.last(),
            connection_id,
        )
    }
}

/// An event writes to a connection what it brings for it, and nothing else.
pub proof fn lemma_event_writes(view: StealerView, event: StealerEvent, connection_id: ConnectionId)
    ensures
        bytes_written(actions_of(view, event), connection_id) == written_by(
            view,
            event,
            connection_id,
        ),
{
    let actions = actions_of(view, event);
    match event {
        StealerEvent::Command { command: Some(command), rule_installed } => {
            match command.command {
                StealerCommand::ResponseData(data) => {
                    if view.is_writable(data.connection_id) {
                        assert(actions.drop_last() =~= Seq::<StealerAction>::empty());
                        assert(bytes_written(actions.drop_last(), connection_id) =~= Seq::<u8>::empty());
                        assert(actions.last() == StealerAction::Write(data.connection_id, data.bytes));
                        assert(bytes_written(actions, connection_id) =~= written_by(
                            view,
                            event,
                            connection_id,
                        ));
                    } else {
                        lemma_writes_nothing(actions, connection_id);
                    }
                },
                StealerCommand::ClientClose => {
                    lemma_close_client_writes_nothing(view, command.client_id);
                    lemma_writes_nothing(actions, connection_id);
                },
                _ => {
                    lemma_writes_nothing(actions, connection_id);
                },
            }
        },
        StealerEvent::Accepted { destination, source, peeked } => {
            if view.refusal(destination, peeked@).is_none() && view.recipient_is_gone(
                destination,
                peeked@,
            ) {
                lemma_close_client_writes_nothing(view, view.recipient(destination.port));
            }
            lemma_writes_nothing(actions, connection_id);
        },
        StealerEvent::SendFailed(client) => {
            lemma_close_client_writes_nothing(view, client);
            lemma_writes_nothing(actions, connection_id);
        },
        _ => {
            lemma_writes_nothing(actions, connection_id);
        },
    }
}

/// Over any series of events, the bytes written to a connection are the bytes
/// that the layer sent for it while it was a raw connection of the stealer, in
/// the order in which they were sent, with nothing added and nothing left out.
pub proof fn lemma_bytes_keep_their_order(
    view: StealerView,
    events: Seq<StealerEvent>,
    connection_id: ConnectionId,
)
    ensures
        bytes_written(all_actions(view, events), connection_id) == all_written(
            view,
            events,
            connection_id,
        ),
    decreases events.len(),
{
    if events.len() > 0 {
        let earlier = events.drop_last();
        lemma_bytes_keep_their_order(view, earlier, connection_id);
        let middle = after_events(view, earlier);
        lemma_event_writes(middle, events.last(), connection_id);
        lemma_bytes_written_add(
            all_actions(view, earlier),
            actions_of(middle, events.last()),
            connection_id,
        );
    }
}

} // verus!
