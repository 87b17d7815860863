use headroom_effects::command::{
    assert_reevaluate_counts, count_reevaluate_all, count_reevaluate_layer_a, PwCommand,
};
use headroom_effects::effects::ProfileEffects;
use headroom_effects::event::{loaded_payload, name_payload, wire_event, EffectEvent, Topic};

#[test]
fn counts_each_command() {
    let cmds = [
        PwCommand::ReevaluateAll,
        PwCommand::ReevaluateLayerA,
        PwCommand::ReevaluateAll,
    ];
    assert_eq!(count_reevaluate_all(&cmds), 2);
    assert_eq!(count_reevaluate_layer_a(&cmds), 1);
    assert_eq!(count_reevaluate_all(&[]), 0);
}

#[test]
fn matching_counts_pass_the_check() {
    let cmds = [PwCommand::ReevaluateLayerA, PwCommand::ReevaluateAll];
    assert_reevaluate_counts(&cmds, 1, 1);
    assert_reevaluate_counts(&[], 0, 0);
}

#[test]
fn every_effect_posts_each_command_at_most_once() {
    let all = [
        ProfileEffects::profile_used("x"),
        ProfileEffects::profile_reloaded(vec![]),
        ProfileEffects::route_rule_changed(),
        ProfileEffects::settings_changed(),
        ProfileEffects::bypass_changed(),
        ProfileEffects::per_app_changed(),
    ];
    for e in all.iter() {
        assert!(count_reevaluate_all(&e.commands) <= 1);
        assert!(count_reevaluate_layer_a(&e.commands) <= 1);
        assert!(!e.commands.is_empty());
    }
}

#[test]
fn payload_framing_is_exact() {
    assert_eq!(name_payload("\"n\""), r#"{"name":"n"}"#);
    assert_eq!(
        loaded_payload(&vec!["\"a\"".to_string(), "\"b\"".to_string(), "\"c\"".to_string()]),
        r#"{"loaded":["a","b","c"]}"#
    );
    assert_eq!(loaded_payload(&vec![]), r#"{"loaded":[]}"#);
}

#[test]
fn wire_event_encodes_names() {
    let w = wire_event(&EffectEvent::ProfileUsed("movie\n".to_string()));
    assert_eq!(w.topic, Topic::Profile);
    assert_eq!(w.event, "used");
    assert_eq!(w.data, "{\"name\":\"movie\\n\"}");
    let w = wire_event(&EffectEvent::RouteRuleChanged);
    assert_eq!(w.topic, Topic::Routing);
    assert_eq!(w.data, "{}");
}
