use vstd::prelude::*;

use std::collections::HashMap;

verus! {

broadcast use vstd::std_specs::hash::group_hash_axioms;

/// Where a stream's audio goes.
#[derive(Clone, Copy, Debug, PartialEq, Eq, Structural)]
pub enum Route {
    /// Through the processed sink and the DSP filter.
    Processed,
    /// Straight to the real sink.
    Bypass,
}

/// A stream known to the daemon and the route it takes.
#[derive(Clone, Debug, PartialEq, Eq)]
pub struct StreamRoute {
    pub node_id: u32,
    pub app: String,
    pub route: Route,
}

/// Builds a stream entry.
pub fn stream(node_id: u32, app: &str, route: Route) -> (s: StreamRoute)
    ensures
        s.node_id == node_id,
        s.app@ == app@,
        s.route == route,
{
    StreamRoute { node_id, app: app.to_owned(), route }
}

fn copy_stream(s: &StreamRoute) -> (c: StreamRoute)
    ensures
        c == *s,
{
    StreamRoute { node_id: s.node_id, app: s.app.clone(), route: s.route }
}

/// The stream table of a list of entries, keyed by node id; a later entry for a
/// node replaces an earlier one.
pub open spec fn streams_by_node(entries: Seq<StreamRoute>) -> Map<u32, StreamRoute>
    decreases entries.len(),
{
    if entries.len() == 0 {
        Map::empty()
    } else {
        streams_by_node(entries.drop_last()).insert(entries.last().node_id, entries.last())
    }
}

/// The stream table a frontend builds from a daemon snapshot: the status
/// streams, then the route list's current streams on top of them.
pub open spec fn merged_streams(
    status_streams: Seq<StreamRoute>,
    route_streams: Seq<StreamRoute>,
) -> Map<u32, StreamRoute> {
    streams_by_node(status_streams + route_streams)
}

fn insert_all(table: &mut HashMap<u32, StreamRoute>, entries: &Vec<StreamRoute>, Ghost(
    prefix,
): Ghost<Seq<StreamRoute>>)
    requires
        old(table)@ == streams_by_node(prefix),
    ensures
        final(table)@ == streams_by_node(prefix + entries@),
{
    let mut i: usize = 0;
    while i < entries.len()
        invariant
            i <= entries@.len(),
            table@ == streams_by_node(prefix + entries@.take(i as int)),
        decreases entries@.len() - i,
    {
        let s = copy_stream(&entries[i]);
        assert((prefix + entries@.take(i as int + 1)).drop_last() =~= prefix + entries@.take(
            i as int,
        ));
        assert((prefix + entries@.take(i as int + 1)).last() == entries@[i as int]);
        table.insert(s.node_id, s);
        i = i + 1;
    }
    assert(entries@.take(i as int) =~= entries@);
}

/// Merges the streams of a daemon snapshot into one table keyed by node id:
/// an entry of the route list wins over a status entry for the same node, and
/// status entries fill in the nodes the route list does not name.
pub fn merge_snapshot_streams(
    status_streams: &Vec<StreamRoute>,
    route_streams: &Vec<StreamRoute>,
) -> (table: HashMap<u32, StreamRoute>)
    ensures
        table@ == merged_streams(status_streams@, route_streams@),
{
    let mut table: HashMap<u32, StreamRoute> = HashMap::new();
    assert(Seq::<StreamRoute>::empty() + status_streams@ =~= status_streams@);
    assert(table@ == streams_by_node(Seq::<StreamRoute>::empty()));
    insert_all(&mut table, status_streams, Ghost(Seq::empty()));
    insert_all(&mut table, route_streams, Ghost(status_streams@));
    table
}

proof fn lemma_streams_by_node_concat(a: Seq<StreamRoute>, b: Seq<StreamRoute>)
    ensures
        streams_by_node(a + b) == streams_by_node(a).union_prefer_right(streams_by_node(b)),
    decreases b.len(),
{
    if b.len() == 0 {
        assert(a + b =~= a);
        assert(streams_by_node(a).union_prefer_right(streams_by_node(b)) =~= streams_by_node(a));
    } else {
        lemma_streams_by_node_concat(a, b.drop_last());
        assert((a + b).drop_last() =~= a + b.drop_last());
        assert((a + b).last() == b.last());
        assert(streams_by_node(a + b) =~= streams_by_node(a).union_prefer_right(
            streams_by_node(b),
        ));
    }
}

/// Snapshot merge prefers the route list and fills in from the status: the
/// merged table names exactly the nodes of either list; for a node the route
/// list names, it holds the route list's last entry for that node; for any
/// other node, the status's last entry for it.
pub proof fn lemma_merge_prefers_route_list(
    status_streams: Seq<StreamRoute>,
    route_streams: Seq<StreamRoute>,
)
    ensures
        merged_streams(status_streams, route_streams).dom() == streams_by_node(
            status_streams,
        ).dom() + streams_by_node(route_streams).dom(),
        forall|id: u32| #[trigger]
            streams_by_node(route_streams).contains_key(id) ==> merged_streams(
                status_streams,
                route_streams,
            )[id] == streams_by_node(route_streams)[id],
        forall|id: u32|
            #![trigger streams_by_node(status_streams)[id]]
            streams_by_node(status_streams).contains_key(id) && !streams_by_node(
                route_streams,
            ).contains_key(id) ==> merged_streams(status_streams, route_streams)[id]
                == streams_by_node(status_streams)[id],
{
    lemma_streams_by_node_concat(status_streams, route_streams);
    assert(merged_streams(status_streams, route_streams).dom() =~= streams_by_node(
        status_streams,
    ).dom() + streams_by_node(route_streams).dom());
}

/// Every entry of a list is a key of its stream table, and the table holds
/// only entries filed under their own node id.
pub proof fn lemma_streams_by_node_keys(entries: Seq<StreamRoute>)
    ensures
        forall|i: int|
            0 <= i < entries.len() ==> streams_by_node(entries).contains_key(
                (#[trigger] entries[i]).node_id,
            ),
        forall|id: u32| #[trigger]
            streams_by_node(entries).contains_key(id) ==> streams_by_node(entries)[id].node_id
                == id,
    decreases entries.len(),
{
    if entries.len() > 0 {
        lemma_streams_by_node_keys(entries.drop_last());
        assert forall|i: int| 0 <= i < entries.len() implies streams_by_node(
            entries,
        ).contains_key((#[trigger] entries[i]).node_id) by {
            if i < entries.len() - 1 {
                assert(entries.drop_last()[i] == entries[i]);
            }
        }
    }
}


/// Entry `j` is the last entry of `entries` for its node.
pub open spec fn is_last_for_node(entries: Seq<StreamRoute>, j: int) -> bool {
    forall|k: int| j < k < entries.len() ==> (#[trigger] entries[k]).node_id != entries[j].node_id
}

/// Some entry of `entries` is for node `id`.
pub open spec fn names_node(entries: Seq<StreamRoute>, id: u32) -> bool {
    exists|k: int| 0 <= k < entries.len() && (#[trigger] entries[k]).node_id == id
}

proof fn lemma_table_keys(entries: Seq<StreamRoute>)
    ensures
        forall|id: u32| #[trigger]
            streams_by_node(entries).contains_key(id) <==> names_node(entries, id),
    decreases entries.len(),
{
    if entries.len() > 0 {
        let init = entries.drop_last();
        let last = entries.last();
        lemma_table_keys(init);
        let t = streams_by_node(init);
        assert(streams_by_node(entries) == t.insert(last.node_id, last));
        assert forall|id: u32| #[trigger]
            streams_by_node(entries).contains_key(id) <==> names_node(entries, id) by {
            if id == last.node_id {
                assert(entries[entries.len() - 1].node_id == id);
            } else {
                if names_node(entries, id) {
                    let k = choose|k: int|
                        0 <= k < entries.len() && (#[trigger] entries[k]).node_id == id;
                    assert(init[k] == entries[k]);
                    assert(names_node(init, id));
                }
                if names_node(init, id) {
                    let k = choose|k: int| 0 <= k < init.len() && (#[trigger] init[k]).node_id == id;
                    assert(entries[k] == init[k]);
                }
            }
        }
    }
}

proof fn lemma_table_values(entries: Seq<StreamRoute>)
    ensures
        forall|j: int|
            0 <= j < entries.len() && is_last_for_node(entries, j) ==> streams_by_node(entries)[(
            #[trigger] entries[j]).node_id] == entries[j],
    decreases entries.len(),
{
    if entries.len() > 0 {
        let init = entries.drop_last();
        let last = entries.last();
        lemma_table_values(init);
        let t = streams_by_node(init);
        assert(streams_by_node(entries) == t.insert(last.node_id, last));
        assert forall|j: int|
            0 <= j < entries.len() && is_last_for_node(entries, j) implies streams_by_node(
            entries,
        )[(#[trigger] entries[j]).node_id] == entries[j] by {
            if j < entries.len() - 1 {
                assert(entries[entries.len() - 1].node_id != entries[j].node_id);
                assert(init[j] == entries[j]);
                assert forall|k: int| j < k < init.len() implies (#[trigger] init[k]).node_id
                    != init[j].node_id by {
                    assert(init[k] == entries[k]);
                }
                assert(is_last_for_node(init, j));
            }
        }
    }
}

/// Every value of the merged table is an actual list entry. A node the route
/// list names holds the route list's last entry for it, app and route included;
/// a node only the status names holds the status's last entry for it; and the
/// table names exactly the nodes of either list.
pub proof fn lemma_merged_entries(status_streams: Seq<StreamRoute>, route_streams: Seq<StreamRoute>)
    ensures
        forall|id: u32| #[trigger]
            merged_streams(status_streams, route_streams).contains_key(id) <==> (names_node(
                status_streams,
                id,
            ) || names_node(route_streams, id)),
        forall|j: int|
            0 <= j < route_streams.len() && is_last_for_node(route_streams, j) ==> merged_streams(
                status_streams,
                route_streams,
            )[(#[trigger] route_streams[j]).node_id] == route_streams[j],
        forall|j: int|
            0 <= j < status_streams.len() && is_last_for_node(status_streams, j) && !names_node(
                route_streams,
                status_streams[j].node_id,
            ) ==> merged_streams(status_streams, route_streams)[(
            #[trigger] status_streams[j]).node_id] == status_streams[j],
{
    lemma_streams_by_node_concat(status_streams, route_streams);
    lemma_table_keys(status_streams);
    lemma_table_keys(route_streams);
    lemma_table_values(status_streams);
    lemma_table_values(route_streams);
    assert forall|j: int|
        0 <= j < route_streams.len() && is_last_for_node(route_streams, j) implies merged_streams(
        status_streams,
        route_streams,
    )[(#[trigger] route_streams[j]).node_id] == route_streams[j] by {
        assert(names_node(route_streams, route_streams[j].node_id));
        assert(streams_by_node(route_streams).contains_key(route_streams[j].node_id));
    }
    assert forall|j: int|
        0 <= j < status_streams.len() && is_last_for_node(status_streams, j) && !names_node(
            route_streams,
            status_streams[j].node_id,
        ) implies merged_streams(status_streams, route_streams)[(
    #[trigger] status_streams[j]).node_id] == status_streams[j] by {
        assert(!streams_by_node(route_streams).contains_key(status_streams[j].node_id));
        assert(names_node(status_streams, status_streams[j].node_id));
    }
}

} // verus!
