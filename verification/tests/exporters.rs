use c4c::compiler::compile;
use c4c::exporters::{
    alias, archimate, c4plantuml, d2, dot, drawio, plantuml, quoted, safe_name, view_artifacts, view_graph, xml_attr,
    xml_text, ExportFormat,
};
use c4c::json::{json, quoted_json};
use c4c::validate::validate;

const BANK: &str = "workspace \"Bank\" {\n  model {\n    customer = person \"Customer\"\n    bank = softwareSystem \"Bank\" {\n      api = container \"API\" \"Serves requests\" \"Rust\"\n    }\n    customer -> bank \"Uses\"\n  }\n  views {\n    systemContext bank \"system-context\" {\n      include *\n    }\n  }\n}\n";

const ESCAPES: &str = "workspace \"Escapes\" {\n  model {\n    user = person \"User <Admin> & Owner\"\n    shop = softwareSystem \"Shop\"\n    user -> shop \"Buys\"\n  }\n  views {\n    systemContext shop \"context\" {\n      include *\n    }\n  }\n}\n";

#[test]
fn text_exports_name_elements_and_relationships() {
    let workspace = compile(BANK).unwrap();
    validate(&workspace).unwrap();
    let view = &workspace.views[0];
    assert!(d2(&workspace, view).contains("n_customer -> n_bank: \"Uses\""));
    let plantuml = plantuml(&workspace, view);
    assert!(plantuml.starts_with("@startuml\n"));
    assert!(plantuml.contains("n_customer --> n_bank : Uses"));
    assert!(plantuml.ends_with("@enduml\n"));
    let c4 = c4plantuml(&workspace, view);
    assert!(c4.contains("Person(n_customer"));
    assert!(c4.contains("Rel(n_customer, n_bank, \"Uses\")"));
    assert!(!c4.to_ascii_lowercase().contains("!includeurl"));
    let dot = dot(&workspace, view);
    assert!(dot.contains("digraph \"system-context\""));
    assert!(dot.contains("\"customer\" -> \"bank\" [label=\"Uses\"]"));
    let drawio = drawio(&workspace, view);
    assert!(drawio.contains("<mxfile"));
    assert!(drawio.contains("source=\"element-1\" target=\"element-2\""));
    let json_first = json(&workspace);
    assert_eq!(json_first, json(&workspace));
    for key in ["\"people\"", "\"softwareSystems\"", "\"containers\"", "\"relationships\"", "\"systemContextViews\""] {
        assert!(json_first.contains(key), "{key}");
    }
    assert!(json_first.ends_with("}\n"));
}

#[test]
fn exporters_escape_content_and_never_emit_remote_plantuml_includes() {
    let workspace = compile(ESCAPES).unwrap();
    validate(&workspace).unwrap();
    let c4 = c4plantuml(&workspace, &workspace.views[0]);
    assert!(c4.contains("Person("));
    assert!(c4.contains("Rel("));
    assert!(!c4.to_ascii_lowercase().contains("!includeurl"));
    assert!(!plantuml(&workspace, &workspace.views[0]).contains("!include"));
    assert!(dot(&workspace, &workspace.views[0]).contains("digraph"));
    let drawio = drawio(&workspace, &workspace.views[0]);
    assert!(drawio.contains("&lt;Admin&gt; &amp; Owner"));
    assert!(drawio.contains("<mxfile"));
    let archimate = archimate(&workspace);
    assert!(archimate.contains("xsi:type=\"BusinessActor\""));
    assert!(archimate.contains("xsi:type=\"ApplicationComponent\""));
    assert!(archimate.contains("xsi:type=\"Association\""));
    assert!(archimate.contains("User &lt;Admin&gt; &amp; Owner"));
    assert!(archimate.contains("c4c.id"));
}

#[test]
fn view_graph_drops_repeated_edges() {
    let source = "workspace {\n  model {\n    a = person A\n    b = softwareSystem B\n    a -> b Uses\n    a -> b Uses\n    a -> b Reads\n  }\n  views {\n    systemLandscape landscape {\n      include *\n    }\n  }\n}\n";
    let workspace = compile(source).unwrap();
    let graph = view_graph(&workspace, &workspace.views[0]);
    assert_eq!(graph.element_ids, vec!["a".to_string(), "b".to_string()]);
    assert_eq!(graph.relationships.len(), 2);
    assert_eq!(graph.relationships[0].relationship_index, Some(0));
    assert_eq!(graph.relationships[1].description, "Reads");
}

#[test]
fn escaping_helpers() {
    assert_eq!(quoted("a\"b\\c\r\nd"), "\"a\\\"b\\\\c\\nd\"");
    assert_eq!(xml_text("<a & b>\u{1}"), "&lt;a &amp; b&gt;\u{fffd}");
    assert_eq!(xml_attr("\"x'\n"), "&quot;x&apos;&#10;");
    assert_eq!(alias("api.v1-x"), "n_api_2ev1_2dx");
    assert_eq!(safe_name("system context"), "system_20context");
    assert_eq!(safe_name(""), "view");
    assert_eq!(quoted_json("a\"\n\u{7}"), "\"a\\\"\\n\\u0007\"");
}

#[test]
fn export_formats_and_artifacts() {
    assert_eq!(ExportFormat::parse("PUML"), Ok(ExportFormat::PlantUml));
    assert_eq!(ExportFormat::parse("draw.io"), Ok(ExportFormat::DrawIo));
    assert!(ExportFormat::parse("pdf").unwrap_err().contains("unsupported export format 'pdf'"));
    let workspace = compile(BANK).unwrap();
    let artifacts = view_artifacts(&workspace, ExportFormat::Dot);
    assert_eq!(artifacts.len(), 1);
    assert_eq!(artifacts[0].path, "system-context.dot");
}

#[test]
fn archimate_opens_each_element_entry_with_identifier_type_and_name() {
    let workspace = compile(BANK).unwrap();
    let document = archimate(&workspace);
    assert!(document.starts_with(
        "<?xml version=\"1.0\" encoding=\"UTF-8\"?>\n<model xmlns=\"http://www.opengroup.org/xsd/archimate/3.0/\" xmlns:xsi=\"http://www.w3.org/2001/XMLSchema-instance\" identifier=\"id-c4c-workspace\">\n  <name xml:lang=\"en\">Bank</name>\n  <elements>\n    <element identifier=\"id-element-1-customer\" xsi:type=\"BusinessActor\">\n      <name xml:lang=\"en\">Customer</name>\n"
    ));
    assert!(document.contains("xsi:type=\"ApplicationComponent\">\n      <name xml:lang=\"en\">API</name>\n"));
    assert!(document.contains(
        "  </elements>\n  <relationships>\n    <relationship identifier=\"id-relationship-1\" source=\"id-element-1-customer\" target=\"id-element-2-bank\" xsi:type=\"Association\">"
    ));
    assert!(document.contains(
        "  </relationships>\n  <propertyDefinitions>\n    <propertyDefinition identifier=\"property-id\" type=\"string\"><name xml:lang=\"en\">c4c.id</name></propertyDefinition>\n"
    ));
}
