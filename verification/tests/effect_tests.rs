use crossbeam_channel::Receiver;
use headroom_effects::command::{
    assert_reevaluate_counts, count_reevaluate_all, count_reevaluate_layer_a, PwCommand,
};
use headroom_effects::effects::{
    shared_with_default_profile, DaemonState, PostOutcome, PostProfileEffects, ProfileEffects,
};
use headroom_effects::event::{Topic, WireEvent};
use serde_json::Value;

fn attach_filter(state: &mut DaemonState) {
    state.filter_attached = true;
}

fn attach_pw_commands(state: &mut DaemonState) -> Receiver<PwCommand> {
    state.attach_pw_commands()
}

fn drain_pw(rx: &Receiver<PwCommand>) -> Vec<PwCommand> {
    rx.try_iter().collect()
}

fn check_counts(cmds: &[PwCommand], route: usize, layer_a: usize) {
    assert_eq!(
        count_reevaluate_all(cmds),
        route,
        "expected {route} route reapply command(s), got {cmds:?}"
    );
    assert_eq!(
        count_reevaluate_layer_a(cmds),
        layer_a,
        "expected {layer_a} layer a reapply command(s), got {cmds:?}"
    );
    assert_reevaluate_counts(cmds, route, layer_a);
}

fn data_of(event: &WireEvent) -> Value {
    serde_json::from_str(&event.data).unwrap()
}

fn apply(effects: ProfileEffects, state: &mut DaemonState) -> PostProfileEffects {
    effects.apply(state)
}

#[test]
fn settings_change_pushes_dsp_with_a_filter() {
    let mut state = shared_with_default_profile();
    attach_filter(&mut state);
    let post = apply(ProfileEffects::settings_changed(), &mut state);
    assert!(post.push_dsp, "expected a dsp update");
}

#[test]
fn setting_set_default_route_posts_route_reapply() {
    let mut state = shared_with_default_profile();
    let rx = attach_pw_commands(&mut state);
    apply(ProfileEffects::settings_changed(), &mut state);
    check_counts(&drain_pw(&rx), 1, 1);
}

#[test]
fn setting_set_per_app_enabled_posts_layer_a_reapply() {
    let mut state = shared_with_default_profile();
    let rx = attach_pw_commands(&mut state);
    apply(ProfileEffects::settings_changed(), &mut state);
    check_counts(&drain_pw(&rx), 1, 1);
}

#[test]
fn setting_clear_posts_route_and_layer_a_reapply() {
    let mut state = shared_with_default_profile();
    apply(ProfileEffects::settings_changed(), &mut state);
    let rx = attach_pw_commands(&mut state);
    apply(ProfileEffects::settings_changed(), &mut state);
    check_counts(&drain_pw(&rx), 1, 1);
}

#[test]
fn setting_reset_posts_route_and_layer_a_reapply() {
    let mut state = shared_with_default_profile();
    apply(ProfileEffects::settings_changed(), &mut state);
    let rx = attach_pw_commands(&mut state);
    apply(ProfileEffects::settings_changed(), &mut state);
    check_counts(&drain_pw(&rx), 1, 1);
}

#[test]
fn profile_use_posts_dsp_and_reapply() {
    let mut state = shared_with_default_profile();
    attach_filter(&mut state);
    let rx = attach_pw_commands(&mut state);
    let post = apply(ProfileEffects::profile_used("night"), &mut state);
    assert!(post.push_dsp, "expected dsp update");
    check_counts(&drain_pw(&rx), 1, 1);
}

#[test]
fn profile_reload_posts_dsp_and_reapply() {
    let mut state = shared_with_default_profile();
    attach_filter(&mut state);
    let rx = attach_pw_commands(&mut state);
    let post = apply(
        ProfileEffects::profile_reloaded(vec!["night".to_string()]),
        &mut state,
    );
    assert!(post.push_dsp, "expected dsp update");
    check_counts(&drain_pw(&rx), 1, 1);
}

#[test]
fn bypass_set_posts_route_reapply() {
    let mut state = shared_with_default_profile();
    let rx = attach_pw_commands(&mut state);
    apply(ProfileEffects::bypass_changed(), &mut state);
    check_counts(&drain_pw(&rx), 1, 0);
}

#[test]
fn route_set_and_unset_post_route_reapply() {
    let mut state = shared_with_default_profile();
    let rx = attach_pw_commands(&mut state);
    apply(ProfileEffects::route_rule_changed(), &mut state);
    check_counts(&drain_pw(&rx), 1, 0);
    apply(ProfileEffects::route_rule_changed(), &mut state);
    check_counts(&drain_pw(&rx), 1, 0);
}

#[test]
fn per_app_set_and_master_post_layer_a_reapply() {
    let mut state = shared_with_default_profile();
    let rx = attach_pw_commands(&mut state);
    apply(ProfileEffects::per_app_changed(), &mut state);
    check_counts(&drain_pw(&rx), 0, 1);
    apply(ProfileEffects::per_app_changed(), &mut state);
    check_counts(&drain_pw(&rx), 0, 1);
}

#[test]
fn profile_use_publishes_used_event() {
    let mut state = shared_with_default_profile();
    apply(ProfileEffects::profile_used("night"), &mut state);
    let events = &state.published;
    assert!(
        events.iter().any(|event| {
            event.topic == Topic::Profile
                && event.event == "used"
                && data_of(event)["name"] == Value::from("night")
        }),
        "expected profile used event, got {events:?}"
    );
}

#[test]
fn profile_reload_publishes_reloaded_event() {
    let mut state = shared_with_default_profile();
    apply(
        ProfileEffects::profile_reloaded(vec!["night".to_string()]),
        &mut state,
    );
    let events = &state.published;
    assert!(
        events.iter().any(|event| {
            event.topic == Topic::Profile
                && event.event == "reloaded"
                && data_of(event)["loaded"]
                    .as_array()
                    .is_some_and(|loaded| loaded.iter().any(|name| name == "night"))
        }),
        "expected profile reloaded event, got {events:?}"
    );
}

#[test]
fn route_rule_mutations_publish_rule_changed() {
    let mut state = shared_with_default_profile();
    apply(ProfileEffects::route_rule_changed(), &mut state);
    let events = &state.published;
    assert!(
        events
            .iter()
            .any(|event| event.topic == Topic::Routing && event.event == "rule_changed"),
        "expected route rule change event, got {events:?}"
    );
}

#[test]
fn commands_are_posted_in_order_with_their_outcomes() {
    let mut state = shared_with_default_profile();
    let rx = attach_pw_commands(&mut state);
    let post = apply(ProfileEffects::profile_used("night"), &mut state);
    let cmds: Vec<PwCommand> = post.posts.iter().map(|p| p.command).collect();
    assert_eq!(cmds, vec![PwCommand::ReevaluateAll, PwCommand::ReevaluateLayerA]);
    assert!(post.posts.iter().all(|p| p.outcome == PostOutcome::Posted));
    assert_eq!(drain_pw(&rx), cmds);
}

#[test]
fn without_a_channel_every_command_is_skipped() {
    let mut state = shared_with_default_profile();
    let post = apply(ProfileEffects::settings_changed(), &mut state);
    assert_eq!(post.posts.len(), 2);
    assert!(post.posts.iter().all(|p| p.outcome == PostOutcome::Skipped));
}

#[test]
fn closed_channel_loses_commands() {
    let mut state = shared_with_default_profile();
    let rx = attach_pw_commands(&mut state);
    drop(rx);
    let post = apply(ProfileEffects::bypass_changed(), &mut state);
    assert_eq!(post.posts.len(), 1);
    assert_eq!(post.posts[0].outcome, PostOutcome::Lost);
}

#[test]
fn dsp_is_not_pushed_without_a_filter_or_for_routing_changes() {
    let mut state = shared_with_default_profile();
    assert!(!apply(ProfileEffects::settings_changed(), &mut state).push_dsp);
    attach_filter(&mut state);
    assert!(!apply(ProfileEffects::route_rule_changed(), &mut state).push_dsp);
    assert!(!apply(ProfileEffects::bypass_changed(), &mut state).push_dsp);
    assert!(!apply(ProfileEffects::per_app_changed(), &mut state).push_dsp);
}

#[test]
fn settings_and_bypass_changes_publish_nothing() {
    let mut state = shared_with_default_profile();
    apply(ProfileEffects::settings_changed(), &mut state);
    apply(ProfileEffects::bypass_changed(), &mut state);
    assert!(state.published.is_empty());
}

#[test]
fn per_app_change_publishes_rule_changed() {
    let mut state = shared_with_default_profile();
    apply(ProfileEffects::per_app_changed(), &mut state);
    assert_eq!(state.published.len(), 1);
    assert_eq!(state.published[0].topic, Topic::Routing);
    assert_eq!(state.published[0].event, "rule_changed");
    assert_eq!(state.published[0].data, "{}");
}

#[test]
fn used_event_data_is_exact_json() {
    let mut state = shared_with_default_profile();
    apply(ProfileEffects::profile_used("night \"x\""), &mut state);
    assert_eq!(state.published[0].data, r#"{"name":"night \"x\""}"#);
    assert_eq!(data_of(&state.published[0])["name"], Value::from("night \"x\""));
}

#[test]
fn reloaded_event_data_is_exact_json() {
    let mut state = shared_with_default_profile();
    apply(
        ProfileEffects::profile_reloaded(vec!["a".to_string(), "b".to_string()]),
        &mut state,
    );
    assert_eq!(state.published[0].data, r#"{"loaded":["a","b"]}"#);
    apply(ProfileEffects::profile_reloaded(vec![]), &mut state);
    assert_eq!(state.published[1].data, r#"{"loaded":[]}"#);
}

#[test]
fn control_characters_are_escaped_like_serde_json() {
    let mut state = shared_with_default_profile();
    apply(ProfileEffects::profile_used("a\u{1}\u{1f}\tb\\"), &mut state);
    assert_eq!(state.published[0].data, "{\"name\":\"a\\u0001\\u001f\\tb\\\\\"}");
}

#[test]
fn each_apply_publishes_its_event_and_sends_its_plan() {
    let mut state = shared_with_default_profile();
    let rx = attach_pw_commands(&mut state);
    apply(ProfileEffects::profile_used("night"), &mut state);
    apply(ProfileEffects::profile_reloaded(vec!["night".to_string()]), &mut state);
    apply(ProfileEffects::settings_changed(), &mut state);
    assert_eq!(state.published.len(), 2);
    assert_eq!(drain_pw(&rx).len(), 6);
}
