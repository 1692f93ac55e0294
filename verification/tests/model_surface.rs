use phenix::context::append_section;
use phenix::model_surface::{
    ParsedSection, model_surface_report, parse_header, parse_sections, ModelSurfaceRequest, ModelSurfaceSection,
    ModelSurfaceTool,
};
use serde_json::Value;

fn tool(id: &str, description: &str) -> ModelSurfaceTool {
    let mut fields = serde_json::Map::new();
    fields.insert("command".into(), Value::String("string".into()));
    ModelSurfaceTool {
        id: id.into(),
        description: description.into(),
        input_schema: Value::Object(fields),
        output_schema: Value::String("any".into()),
    }
}

#[test]
fn report_reflects_exact_model_visible_tools_and_skill_sections() {
    let request = ModelSurfaceRequest {
        model: "fixture-introspection".into(),
        tools: vec![tool("bash", "Run a shell command")],
        input: b"--- phenix instruction [phenix] ---\nidentity\n\n--- phenix skill [skills/review/SKILL.md] ---\nreview carefully\n\n--- phenix project-context [README.md] ---\nproject body\n\n--- phenix request [user] ---\nlist what you can see\n"
            .to_vec(),
        continuation_turns: 0,
    };

    let report = model_surface_report(request);
    assert_eq!(report.tools.len(), 1);
    assert_eq!(report.tools[0].id, "bash");
    assert_eq!(report.skills.len(), 1);
    assert_eq!(report.skills[0].source, "skills/review/SKILL.md");
    assert_eq!(report.skills[0].content, "review carefully");
    assert_eq!(report.instructions[0].source, "phenix");
    assert_eq!(report.context[0].source, "README.md");
    assert_eq!(report.request, "list what you can see");
}

#[test]
fn raw_unmaterialized_input_is_reported_as_the_request() {
    let request = ModelSurfaceRequest {
        model: "fixture-introspection".into(),
        tools: Vec::new(),
        input: b"hello".to_vec(),
        continuation_turns: 0,
    };
    assert_eq!(model_surface_report(request).request, "hello");
}

#[test]
fn tools_are_reported_in_identity_order() {
    let request = ModelSurfaceRequest {
        model: "m".into(),
        tools: vec![tool("read", "r"), tool("bash", "b"), tool("edit", "e")],
        input: Vec::new(),
        continuation_turns: 3,
    };
    let report = model_surface_report(request);
    let ids: Vec<&str> = report.tools.iter().map(|t| t.id.as_str()).collect();
    assert_eq!(ids, ["bash", "edit", "read"]);
    assert_eq!(report.continuation_turns, 3);
    assert_eq!(report.model, "m");
    assert_eq!(report.request, "");
}

#[test]
fn invalid_utf8_is_reported_with_replacement_characters() {
    let request = ModelSurfaceRequest {
        model: "m".into(),
        tools: Vec::new(),
        input: vec![b'h', 0xff, b'i'],
        continuation_turns: 0,
    };
    assert_eq!(model_surface_report(request).request, "h\u{fffd}i");
}

#[test]
fn headers_and_sections_parse_exactly() {
    assert_eq!(
        parse_header("--- phenix skill [a b] ---"),
        Some(("skill".to_string(), "a b".to_string()))
    );
    assert_eq!(parse_header("--- phenix skill a ---"), None);
    assert_eq!(parse_header("-- phenix skill [a] ---"), None);
    let sections = parse_sections("preamble\n--- phenix note [x] ---\none\ntwo\n\n--- phenix request [user] ---\nask");
    assert_eq!(sections.len(), 2);
    assert_eq!(sections[0].kind, "note");
    assert_eq!(sections[0].content, "one\ntwo");
    assert_eq!(sections[1].content, "ask");
    let public = sections[0].clone().into_public();
    assert_eq!(public, ModelSurfaceSection { source: "x".into(), content: "one\ntwo".into() });
}

#[test]
fn parsing_gives_back_the_sections_that_were_appended() {
    let sections = [
        ("skill", "skills/review", "line one\n\nline three"),
        ("project-instruction", "AGENTS.md", ""),
        ("request", "user", "do it"),
    ];
    let mut out = Vec::new();
    for (kind, source, content) in sections {
        append_section(&mut out, kind, source, content.as_bytes());
    }
    let parsed = parse_sections(std::str::from_utf8(&out).unwrap());
    let expected: Vec<ParsedSection> = sections
        .iter()
        .map(|(kind, source, content)| ParsedSection {
            kind: kind.to_string(),
            source: source.to_string(),
            content: content.to_string(),
        })
        .collect();
    assert_eq!(parsed, expected);
}
