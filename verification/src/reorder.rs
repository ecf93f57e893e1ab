//! The rules do not depend on the order in which the nodes are listed.

use crate::config::{edges_of, node_ids, DroneView, NodeView, Topology};
use crate::rules::{clients_ok, drones_ok, pdrs_ok, servers_ok};
use vstd::prelude::*;
use vstd::seq_lib::*;

verus! {

/// `a` and `b` hold the same items, each as often in one as in the other.
pub open spec fn reordered<A>(a: Seq<A>, b: Seq<A>) -> bool {
    a.to_multiset() == b.to_multiset()
}

/// Two topologies that list the same drones, the same clients and the same
/// servers, in whatever order.
pub open spec fn same_nodes(t1: Topology, t2: Topology) -> bool {
    &&& reordered(t1.drones, t2.drones)
    &&& reordered(t1.clients, t2.clients)
    &&& reordered(t1.servers, t2.servers)
}

/// Reordered lists have the same members.
pub proof fn lemma_reordered_members<A>(a: Seq<A>, b: Seq<A>)
    requires
        reordered(a, b),
    ensures
        a.len() == b.len(),
        forall|x: A| a.contains(x) <==> b.contains(x),
{
    a.to_multiset_ensures();
    b.to_multiset_ensures();
    assert forall|x: A| a.contains(x) <==> b.contains(x) by {
        assert(a.contains(x) <==> a.to_multiset().count(x) > 0);
        assert(b.contains(x) <==> b.to_multiset().count(x) > 0);
    }
}

/// Applying one function to every item of two reordered lists gives
/// reordered lists.
pub proof fn lemma_reordered_map<A, B>(a: Seq<A>, b: Seq<A>, f: spec_fn(A) -> B)
    requires
        reordered(a, b),
    ensures
        reordered(a.map_values(f), b.map_values(f)),
    decreases a.len(),
{
    broadcast use vstd::multiset::group_multiset_axioms;

    lemma_reordered_members(a, b);
    a.to_multiset_ensures();
    b.to_multiset_ensures();
    if a.len() == 0 {
        assert(a.map_values(f) =~= b.map_values(f));
    } else {
        let x = a.last();
        assert(a.contains(x));
        let j = choose|j: int| 0 <= j < b.len() && b[j] == x;
        let a1 = a.drop_last();
        let b1 = b.remove(j);
        assert(a1 =~= a.remove(a.len() - 1));
        assert(a1.to_multiset() =~= a.to_multiset().remove(x));
        assert(b1.to_multiset() =~= b.to_multiset().remove(x));
        lemma_reordered_map(a1, b1, f);
        let fa = a.map_values(f);
        let fb = b.map_values(f);
        let fa1 = a1.map_values(f);
        let fb1 = b1.map_values(f);
        fa1.to_multiset_ensures();
        fb.to_multiset_ensures();
        assert(fa =~= fa1.push(f(x)));
        assert(fa.to_multiset() =~= fa1.to_multiset().insert(f(x)));
        assert(fb1 =~= fb.remove(j));
        assert(fb[j] == f(x));
        assert(fb1.to_multiset() =~= fb.to_multiset().remove(f(x)));
        assert(fb.contains(f(x)));
        assert(fb.to_multiset().count(f(x)) > 0);
        assert(fb.to_multiset() =~= fb1.to_multiset().insert(f(x)));
    }
}

/// Whether a list holds an item twice depends only on how often it holds
/// each item.
pub proof fn lemma_reordered_no_duplicates<A>(a: Seq<A>, b: Seq<A>)
    requires
        reordered(a, b),
    ensures
        a.no_duplicates() == b.no_duplicates(),
{
    if a.no_duplicates() {
        a.lemma_multiset_has_no_duplicates();
        b.lemma_multiset_has_no_duplicates_conv();
    }
    if b.no_duplicates() {
        b.lemma_multiset_has_no_duplicates();
        a.lemma_multiset_has_no_duplicates_conv();
    }
}

/// The edges that a list of nodes declares do not depend on its order.
pub proof fn lemma_reordered_edges(a: Seq<NodeView>, b: Seq<NodeView>)
    requires
        reordered(a, b),
    ensures
        edges_of(a) == edges_of(b),
{
    lemma_reordered_members(a, b);
    assert forall|e: (u8, u8)| edges_of(a).contains(e) <==> edges_of(b).contains(e) by {
        if edges_of(a).contains(e) {
            let i = choose|i: int|
                0 <= i < a.len() && (#[trigger] a[i]).id == e.0 && a[i].neighbors.contains(e.1);
            assert(a.contains(a[i]));
            let j = choose|j: int| 0 <= j < b.len() && b[j] == a[i];
            assert(b[j].id == e.0 && b[j].neighbors.contains(e.1));
        }
        if edges_of(b).contains(e) {
            let i = choose|i: int|
                0 <= i < b.len() && (#[trigger] b[i]).id == e.0 && b[i].neighbors.contains(e.1);
            assert(b.contains(b[i]));
            let j = choose|j: int| 0 <= j < a.len() && a[j] == b[i];
            assert(a[j].id == e.0 && a[j].neighbors.contains(e.1));
        }
    }
    assert(edges_of(a) =~= edges_of(b));
}

/// Joining reordered lists gives reordered lists.
pub proof fn lemma_reordered_concat<A>(a1: Seq<A>, b1: Seq<A>, a2: Seq<A>, b2: Seq<A>)
    requires
        reordered(a1, a2),
        reordered(b1, b2),
    ensures
        reordered(a1 + b1, a2 + b2),
{
    lemma_multiset_commutative(a1, b1);
    lemma_multiset_commutative(a2, b2);
}

/// Whether a topology passes, and which rule it breaks first, does not depend
/// on the order in which its drones, its clients and its servers are listed.
pub proof fn lemma_valid_whatever_the_order(t1: Topology, t2: Topology)
    requires
        same_nodes(t1, t2),
    ensures
        t1.valid() == t2.valid(),
        t1.first_violation() == t2.first_violation(),
{
    // The ids.
    lemma_reordered_map(t1.drones, t2.drones, |d: DroneView| d.id);
    lemma_reordered_map(t1.clients, t2.clients, |n: NodeView| n.id);
    lemma_reordered_map(t1.servers, t2.servers, |n: NodeView| n.id);
    lemma_reordered_concat(
        t1.drone_ids(),
        node_ids(t1.clients),
        t2.drone_ids(),
        node_ids(t2.clients),
    );
    lemma_reordered_concat(
        t1.drone_ids() + node_ids(t1.clients),
        node_ids(t1.servers),
        t2.drone_ids() + node_ids(t2.clients),
        node_ids(t2.servers),
    );
    lemma_reordered_no_duplicates(t1.ids(), t2.ids());
    lemma_reordered_members(t1.ids(), t2.ids());
    lemma_reordered_members(t1.drone_ids(), t2.drone_ids());
    assert(t1.ids().to_set() =~= t2.ids().to_set());
    assert(t1.drone_ids().to_set() =~= t2.drone_ids().to_set());

    // The rules on single nodes.
    lemma_reordered_members(t1.drones, t2.drones);
    lemma_reordered_members(t1.clients, t2.clients);
    lemma_reordered_members(t1.servers, t2.servers);
    lemma_rules_on_members(t1, t2);
    lemma_rules_on_members(t2, t1);

    // The edges.
    lemma_reordered_map(t1.drones, t2.drones, |d: DroneView| d.node());
    lemma_reordered_concat(t1.drone_nodes(), t1.clients, t2.drone_nodes(), t2.clients);
    lemma_reordered_concat(
        t1.drone_nodes() + t1.clients,
        t1.servers,
        t2.drone_nodes() + t2.clients,
        t2.servers,
    );
    lemma_reordered_edges(t1.nodes(), t2.nodes());
    lemma_reordered_edges(t1.drone_nodes(), t2.drone_nodes());
    assert(t1.drone_edges() =~= t2.drone_edges());
}

/// Where every node of `t1` is a node of `t2` and the drones have the same
/// ids, the rules on single nodes that `t2` meets are met by `t1`.
proof fn lemma_rules_on_members(t1: Topology, t2: Topology)
    requires
        forall|x: DroneView| t1.drones.contains(x) ==> t2.drones.contains(x),
        forall|x: NodeView| t1.clients.contains(x) ==> t2.clients.contains(x),
        forall|x: NodeView| t1.servers.contains(x) ==> t2.servers.contains(x),
        forall|x: u8| t1.drone_ids().contains(x) <==> t2.drone_ids().contains(x),
    ensures
        pdrs_ok(t2.drones) ==> pdrs_ok(t1.drones),
        drones_ok(t2.drones) ==> drones_ok(t1.drones),
        clients_ok(t2.clients, t2.drone_ids()) ==> clients_ok(t1.clients, t1.drone_ids()),
        servers_ok(t2.servers, t2.drone_ids()) ==> servers_ok(t1.servers, t1.drone_ids()),
{
    assert forall|i: int| 0 <= i < t1.drones.len() implies t2.drones.contains(
        #[trigger] t1.drones[i],
    ) by {
        assert(t1.drones.contains(t1.drones[i]));
    }
    assert forall|i: int| 0 <= i < t1.clients.len() implies t2.clients.contains(
        #[trigger] t1.clients[i],
    ) by {
        assert(t1.clients.contains(t1.clients[i]));
    }
    assert forall|i: int| 0 <= i < t1.servers.len() implies t2.servers.contains(
        #[trigger] t1.servers[i],
    ) by {
        assert(t1.servers.contains(t1.servers[i]));
    }
}

} // verus!
