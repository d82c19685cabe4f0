use codex_trace::spawn::{parse_spawn_agent_output, parse_spawn_task_name};

#[test]
fn parses_spawn_agent_output() {
    let parsed = parse_spawn_agent_output(
        r#"{"agent_id":"019dcd48-57d3-7a42-9952-bb488d179d0f","nickname":"Parfit"}"#,
    )
    .unwrap();

    assert_eq!(parsed.agent_id, "019dcd48-57d3-7a42-9952-bb488d179d0f");
    assert_eq!(parsed.nickname, "Parfit");
}

#[test]
fn parses_multi_agent_v2_task_name() {
    assert_eq!(
        parse_spawn_task_name(r#"{"task_name":"/root/batch_1"}"#).as_deref(),
        Some("/root/batch_1")
    );
}

#[test]
fn ignores_spawn_output_without_task_name() {
    assert!(parse_spawn_task_name(r#"{"agent_id":"019dcd48-57d3-7a42-9952-bb488d179d0f"}"#).is_none());
    assert!(parse_spawn_task_name(r#"{"task_name":""}"#).is_none());
    assert!(parse_spawn_task_name("spawn failed: no capacity").is_none());
}

#[test]
fn ignores_non_json_spawn_agent_output() {
    assert!(parse_spawn_agent_output("Full-history forked agents inherit parent config").is_none());
}

#[test]
fn a_missing_nickname_is_empty_and_an_empty_id_is_no_spawn() {
    let parsed = parse_spawn_agent_output(r#"{"agent_id":"a1","nickname":7}"#).unwrap();
    assert_eq!(parsed.nickname, "");
    assert!(parse_spawn_agent_output(r#"{"agent_id":""}"#).is_none());
    assert!(parse_spawn_agent_output(r#"["agent_id"]"#).is_none());
}
