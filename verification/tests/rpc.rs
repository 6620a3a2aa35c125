use mstu::rpc::{rpc_command, Command, Item, Param, RpcError};

fn params(entries: Vec<(&str, Param)>) -> Vec<(String, Param)> {
    entries.into_iter().map(|(k, v)| (k.to_string(), v)).collect()
}

#[test]
fn reads_a_connect_request_with_its_mappings() {
    let p = params(vec![
        ("pipeline", Param::Number(Some(3))),
        ("from", Param::Number(Some(1))),
        ("to", Param::Number(Some(2))),
        ("mappings", Param::List(vec![Item::List(Some(0), Some(1)), Item::List(Some(4), Some(4))])),
    ]);
    match rpc_command("connect", &p) {
        Ok(Command::Connect { pipeline, from, to, mappings }) => {
            assert_eq!((pipeline, from, to), (3, 1, 2));
            assert_eq!(mappings, vec![(0, 1), (4, 4)]);
        }
        other => panic!("unexpected {:?}", other),
    }
}

#[test]
fn the_first_missing_parameter_is_the_answer() {
    let p = params(vec![("from", Param::Number(Some(1)))]);
    assert!(matches!(rpc_command("connect", &p), Err(RpcError::Missing("pipeline"))));
    let p = params(vec![("pipeline", Param::Str("x".to_string()))]);
    assert!(matches!(rpc_command("start", &p), Err(RpcError::NotNumber("pipeline"))));
    let p = params(vec![("name", Param::Number(Some(1)))]);
    assert!(matches!(rpc_command("create_pipeline", &p), Err(RpcError::NotString("name"))));
}

#[test]
fn mappings_must_be_pairs_of_numbers() {
    let base = vec![
        ("pipeline", Param::Number(Some(0))),
        ("from", Param::Number(Some(0))),
        ("to", Param::Number(Some(1))),
    ];
    let mut p = params(base.clone());
    p.push(("mappings".to_string(), Param::List(vec![Item::Number])));
    assert!(matches!(rpc_command("connect", &p), Err(RpcError::MappingNotPair)));
    let mut p = params(base.clone());
    p.push(("mappings".to_string(), Param::List(vec![Item::List(Some(0), None)])));
    assert!(matches!(rpc_command("connect", &p), Err(RpcError::BadMapping)));
    let mut p = params(base);
    p.push(("mappings".to_string(), Param::Str("none".to_string())));
    match rpc_command("connect", &p) {
        Ok(Command::Connect { mappings, .. }) => assert!(mappings.is_empty()),
        other => panic!("unexpected {:?}", other),
    }
}

#[test]
fn a_value_to_set_is_checked_before_the_plugin() {
    let p = params(vec![("value", Param::Object)]);
    assert!(matches!(rpc_command("set_parameter", &p), Err(RpcError::ValueNotAcrossAbi)));
    let p = params(vec![("plugin", Param::Str("a".to_string()))]);
    assert!(matches!(rpc_command("set_parameter", &p), Err(RpcError::Missing("value"))));
    let p = params(vec![
        ("value", Param::Null),
        ("plugin", Param::Str("a".to_string())),
        ("field", Param::Number(Some(2))),
    ]);
    match rpc_command("set_parameter", &p) {
        Ok(Command::SetParameter { plugin, field }) => assert_eq!((plugin.as_str(), field), ("a", 2)),
        other => panic!("unexpected {:?}", other),
    }
}

#[test]
fn a_payload_element_that_cannot_cross_is_named() {
    let p = params(vec![
        ("payload", Param::List(vec![Item::Bool, Item::Str, Item::Object])),
        ("plugin", Param::Str("a".to_string())),
        ("command", Param::Number(Some(0))),
    ]);
    assert!(matches!(rpc_command("invoke", &p), Err(RpcError::PayloadNotAcrossAbi(2))));
}

#[test]
fn running_is_false_unless_it_is_true() {
    let p = params(vec![
        ("pipeline", Param::Number(Some(0))),
        ("node", Param::Number(Some(5))),
        ("running", Param::Str("yes".to_string())),
    ]);
    assert!(matches!(
        rpc_command("set_node_running", &p),
        Ok(Command::SetNodeRunning { pipeline: 0, node: 5, running: false })
    ));
    let p = params(vec![("pipeline", Param::Number(Some(0))), ("node", Param::Number(Some(5)))]);
    assert!(matches!(rpc_command("set_node_running", &p), Err(RpcError::Missing("running"))));
}

#[test]
fn an_unknown_method_is_refused() {
    assert!(matches!(rpc_command("reboot", &[]), Err(RpcError::UnknownMethod)));
    assert!(matches!(rpc_command("describe", &[]), Ok(Command::Describe)));
    let p = params(vec![
        ("from", Param::Str("a".to_string())),
        ("event", Param::Number(Some(1))),
        ("to", Param::Str("b".to_string())),
        ("command", Param::Number(Some(2))),
        ("mappings", Param::Object),
    ]);
    assert!(matches!(rpc_command("unsubscribe", &p), Ok(Command::Unsubscribe { event: 1, command: 2, .. })));
}
