use headroom_effects::monitor::{merge_snapshot_streams, stream, Route};

#[test]
fn snapshot_merge_prefers_route_list_and_fills_missing_status_streams() {
    let streams = merge_snapshot_streams(
        &vec![
            stream(1, "status-only", Route::Processed),
            stream(2, "stale-status", Route::Processed),
        ],
        &vec![stream(2, "route-list", Route::Bypass)],
    );

    assert_eq!(streams.get(&1).map(|s| s.route), Some(Route::Processed));
    let got = streams.get(&2).expect("route list stream");
    assert_eq!(got.app, "route-list");
    assert_eq!(got.route, Route::Bypass);
}

#[test]
fn state_tests_snapshot_merge_prefers_route_list_and_fills_missing_status_streams() {
    let s = merge_snapshot_streams(
        &vec![
            stream(1, "status-only", Route::Processed),
            stream(2, "stale-status", Route::Processed),
        ],
        &vec![stream(2, "route-list", Route::Bypass)],
    );

    assert_eq!(s.get(&1).map(|r| r.route), Some(Route::Processed));
    let got = s.get(&2).expect("route list stream");
    assert_eq!(got.app, "route-list");
    assert_eq!(got.route, Route::Bypass);
}

#[test]
fn merge_keeps_last_entry_and_names_every_node() {
    let s = merge_snapshot_streams(
        &vec![stream(3, "a", Route::Processed), stream(3, "b", Route::Bypass)],
        &vec![stream(4, "c", Route::Processed), stream(4, "d", Route::Bypass)],
    );
    assert_eq!(s.len(), 2);
    assert_eq!(s[&3].app, "b");
    assert_eq!(s[&4].app, "d");
    assert_eq!(s[&4].node_id, 4);
}

#[test]
fn merge_of_empty_snapshot_is_empty() {
    assert!(merge_snapshot_streams(&vec![], &vec![]).is_empty());
}
