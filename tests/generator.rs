use amenhotep::event::{CairoArgument, CairoEvent};
use amenhotep::generator::{
    events_to_graphql, generate_data_writer_content, generate_graphql_model, generate_indexer,
    CheckpointConfiguration, CheckpointEvent,
};
use amenhotep::scanner::parse_cairo_source;
use amenhotep::types::CairoType;

fn lines(src: &[&str]) -> Vec<String> {
    src.iter().map(|l| l.to_string()).collect()
}

fn transfer() -> CairoEvent {
    CairoEvent::from_signature("fn Transfer(from: ContractAddress, value: u8)").unwrap()
}

#[test]
fn event_names() {
    let mut e = transfer();
    e.definined_at(7);
    assert_eq!(e.definition_at, 7);
    assert_eq!(e.to_js_function_string(), "handleTransfer");
    assert_eq!(e.to_js_function_name_string(), "new_transfer");
    let a = CairoArgument::new("from".to_string(), CairoType::ContractAddress);
    assert_eq!(a.js_function_name(), "handlefrom");
    assert_eq!(a.to_string(), "from: String!,");
}

#[test]
fn event_schema_lines() {
    assert_eq!(transfer().to_string(), "from: String!,\n\tvalue: Int!,");
    let two = vec![transfer(), CairoEvent::from_signature("fn Paused()").unwrap()];
    assert_eq!(
        events_to_graphql(&two),
        "from: String!,\n\tvalue: Int!,\n"
    );
}

#[test]
fn graphql_model_text() {
    let evs = vec![transfer()];
    assert_eq!(
        generate_graphql_model("Token", &evs),
        "\nscalar Text\n\ntype Token {\n    id: String!\n    from: String!,\n\tvalue: Int!,\n}\n"
    );
}

#[test]
fn handler_text() {
    let e = transfer();
    assert_eq!(
        e.to_js_function(),
        "\nexport async function handleTransfer({ block, tx, event, mysql }: Parameters<CheckpointWriter>[0]) {\n    if (!event) return;\n\n    new Error('Not implemented yet !');\n}\n            "
    );
    let content = generate_data_writer_content(&[e]);
    assert!(content.starts_with("\nimport type { CheckpointWriter } from '@snapshot-labs/checkpoint';\n"));
    assert!(content.contains("export async function handleDeploy()"));
    assert!(content.contains("export async function handleTransfer("));
    assert!(content.ends_with("}\n            \n        "));
}

#[test]
fn indexer_files_skip_units_without_events() {
    let a = parse_cairo_source("x/token.cairo", &lines(&["#[event]", "fn Transfer(a: u8)"])).unwrap();
    let b = parse_cairo_source("x/empty.cairo", &lines(&["mod Empty {}"])).unwrap();
    let domains = vec![a, b];
    let files = generate_indexer(&domains, "{}".to_string());
    let names: Vec<&str> = files.iter().map(|f| f.name.as_str()).collect();
    assert_eq!(
        names,
        vec!["Token.gql", "TokenDataWriter.js", "configuration.json"]
    );
    assert_eq!(files[2].content, "{}");
    assert!(files[0].content.contains("type Token {"));
}

#[test]
fn configuration_of_units() {
    let a = parse_cairo_source("token.cairo", &lines(&["#[event]", "fn Transfer(a: u8)"])).unwrap();
    let b = parse_cairo_source("empty.cairo", &lines(&[])).unwrap();
    let config = CheckpointConfiguration::from_domains(&[b, a]);
    assert_eq!(config.network_node_url, "<CHANGE_ME>");
    assert_eq!(config.sources.len(), 1);
    let s = &config.sources[0];
    assert_eq!(s.contract, "<CHANGE_ME>");
    assert_eq!(s.start, 0);
    assert_eq!(s.deploy_fn, "handleDeploy");
    assert_eq!(s.events.len(), 1);
    let CheckpointEvent { name, function } = &s.events[0];
    assert_eq!(name, "new_transfer");
    assert_eq!(function, "handleTransfer");
}

#[test]
fn names_from_lowered_and_upper_forms() {
    assert_eq!(amenhotep::event::trigger_name_of("approval"), "new_approval");
    assert_eq!(amenhotep::naming::capitalized_from("X", "xyz"), "Xyz");
}
