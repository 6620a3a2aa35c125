use mstu::runtime::event::{Manager, Subscription};
use mstu::runtime::mapper::{Mapper, Mapping};

fn sub(plugin: usize, command: usize, fields: usize) -> Subscription {
    let mut mapper = Mapper::new();
    for field in 0..fields {
        mapper.add(Mapping {
            input: vec![field],
            output: vec![field],
        });
    }
    Subscription { mapper, command, plugin }
}

fn commands(manager: &Manager, id: &str, event: usize) -> Vec<(usize, usize, usize)> {
    manager
        .subscriptions(id, event)
        .map(|subs| subs.iter().map(|s| (s.plugin, s.command, s.mapper.len())).collect())
        .unwrap_or_default()
}

#[test]
fn subscribing_again_replaces_the_mapping() {
    let mut manager = Manager::new();
    manager.register("source", 2);
    manager.subscribe("source", 0, sub(7, 0, 1));
    manager.subscribe("source", 0, sub(8, 1, 1));
    manager.subscribe("source", 0, sub(7, 0, 2));
    assert_eq!(commands(&manager, "source", 0), vec![(7, 0, 2), (8, 1, 1)]);
    assert!(commands(&manager, "source", 1).is_empty());
}

#[test]
fn ignores_unknown_plugins_and_events() {
    let mut manager = Manager::new();
    manager.register("source", 1);
    manager.subscribe("nobody", 0, sub(7, 0, 1));
    manager.subscribe("source", 3, sub(7, 0, 1));
    assert!(manager.subscriptions("nobody", 0).is_none());
    assert!(manager.subscriptions("source", 3).is_none());
    assert!(commands(&manager, "source", 0).is_empty());
    assert!(!manager.new_event("source", 1, 5));
    assert!(manager.take_pending("nobody", 0).is_none());
}

#[test]
fn unsubscribes_only_that_command() {
    let mut manager = Manager::new();
    manager.register("source", 1);
    manager.subscribe("source", 0, sub(7, 0, 1));
    manager.subscribe("source", 0, sub(7, 1, 1));
    assert!(manager.unsubscribe("source", 0, 7, 0));
    assert!(!manager.unsubscribe("source", 0, 7, 0));
    assert_eq!(commands(&manager, "source", 0), vec![(7, 1, 1)]);
}

#[test]
fn removes_a_mapping_from_a_subscription() {
    let mut manager = Manager::new();
    manager.register("source", 1);
    manager.subscribe("source", 0, sub(7, 0, 2));
    assert_eq!(manager.remove_mapping("source", 0, 7, 0, &[1]), Some(true));
    assert_eq!(manager.remove_mapping("source", 0, 7, 0, &[1]), Some(false));
    assert_eq!(manager.remove_mapping("source", 0, 9, 0, &[0]), None);
    assert_eq!(commands(&manager, "source", 0), vec![(7, 0, 1)]);
}

#[test]
fn a_forgotten_plugin_is_unreachable() {
    let mut manager = Manager::new();
    manager.register("a", 1);
    manager.register("b", 1);
    manager.subscribe("a", 0, sub(2, 0, 1));
    manager.subscribe("a", 0, sub(3, 0, 1));
    manager.subscribe("b", 0, sub(2, 1, 1));
    // Plugin 2 goes: its channel "b" closes, and nothing reaches it.
    manager.forget("b", 2);
    assert!(manager.subscriptions("b", 0).is_none());
    assert_eq!(commands(&manager, "a", 0), vec![(3, 0, 1)]);
}

#[test]
fn publishing_takes_that_event_off_the_queue() {
    let mut manager = Manager::new();
    manager.register("source", 2);
    assert!(manager.new_event("source", 0, 10));
    assert!(manager.new_event("source", 1, 11));
    assert!(manager.new_event("source", 0, 12));
    assert_eq!(manager.take_pending("source", 0), Some(vec![10, 12]));
    assert_eq!(manager.take_pending("source", 0), Some(vec![]));
    assert_eq!(manager.take_pending("source", 1), Some(vec![11]));
}

#[test]
fn registering_again_starts_the_channel_over() {
    let mut manager = Manager::new();
    manager.register("source", 1);
    manager.subscribe("source", 0, sub(7, 0, 1));
    assert!(manager.new_event("source", 0, 1));
    manager.register("source", 2);
    assert!(commands(&manager, "source", 0).is_empty());
    assert_eq!(manager.take_pending("source", 0), Some(vec![]));
}

#[test]
fn skips_an_unmapped_command_that_takes_a_payload() {
    let unmapped = sub(1, 0, 0);
    assert!(unmapped.unmapped(2));
    assert!(!unmapped.unmapped(0));
    assert!(!sub(1, 0, 1).unmapped(2));
}
