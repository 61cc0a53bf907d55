use c4c::archi_native::{
    canonical_diff, dsl_identifier, dsl_string, hash, number, parse, parse_i64, validate_connections,
    ArchiDiagramChild, ArchiSidecar,
};
use c4c::compiler::compile;
use c4c::projection::{i64_to_string, project_to_dsl, unique_keys};
use c4c::semantic::{diff_files, import, semantic_diff_files, semantic_difference, semantic_signature, sidecar_xml};
use c4c::validate::validate;
use c4c::xml::parse_xml;

const MINI: &str = "<?xml version=\"1.0\" encoding=\"UTF-8\"?>
<archimate:model xmlns:xsi=\"http://www.w3.org/2001/XMLSchema-instance\" xmlns:archimate=\"http://www.archimatetool.com/archimate\" name=\"Mini &amp; Model\" id=\"model-1\" version=\"5.0.0\">
  <folder name=\"Strategy\" id=\"folder-strategy\" type=\"strategy\"/>
  <folder name=\"Business\" id=\"folder-business\" type=\"business\">
    <element xsi:type=\"archimate:BusinessActor\" name=\"User &lt;Admin&gt;\" id=\"actor-1\">
      <documentation>Uses the shop</documentation>
    </element>
  </folder>
  <folder name=\"Application\" id=\"folder-application\" type=\"application\">
    <element xsi:type=\"archimate:ApplicationComponent\" name=\"Orders\" id=\"app-1\"/>
  </folder>
  <folder name=\"Technology &amp; Physical\" id=\"folder-technology\" type=\"technology\">
    <element xsi:type=\"archimate:Node\" name=\"Primary Node\" id=\"node-1\"/>
  </folder>
  <folder name=\"Motivation\" id=\"folder-motivation\" type=\"motivation\"/>
  <folder name=\"Implementation &amp; Migration\" id=\"folder-implementation\" type=\"implementation_migration\"/>
  <folder name=\"Other\" id=\"folder-other\" type=\"other\">
    <element xsi:type=\"archimate:Grouping\" name=\"Boundary\" id=\"boundary-1\"/>
  </folder>
  <folder name=\"Relations\" id=\"folder-relations\" type=\"relations\">
    <element xsi:type=\"archimate:FlowRelationship\" name=\"Uses\" id=\"rel-1\" source=\"actor-1\" target=\"app-1\"/>
    <element xsi:type=\"archimate:CompositionRelationship\" id=\"rel-2\" source=\"boundary-1\" target=\"app-1\"/>
  </folder>
  <folder name=\"Views\" id=\"folder-views\" type=\"diagrams\">
    <element xsi:type=\"archimate:ArchimateDiagramModel\" name=\"Context\" id=\"view-1\">
      <child xsi:type=\"archimate:Group\" id=\"group-1\" name=\"Customers\">
        <bounds x=\"12\" y=\"24\" width=\"220\" height=\"140\"/>
        <child xsi:type=\"archimate:DiagramObject\" id=\"object-actor\" archimateElement=\"actor-1\">
          <bounds x=\"24\" y=\"48\" width=\"120\" height=\"55\"/>
          <sourceConnection xsi:type=\"archimate:Connection\" id=\"connection-1\" source=\"object-actor\" target=\"object-app\" archimateRelationship=\"rel-1\">
            <bendpoint startX=\"10\" startY=\"0\" endX=\"-10\" endY=\"0\"/>
          </sourceConnection>
        </child>
      </child>
      <child xsi:type=\"archimate:DiagramObject\" id=\"object-app\" targetConnections=\"connection-1\" archimateElement=\"app-1\" fillColor=\"#b5ffff\">
        <bounds x=\"300\" y=\"48\" width=\"120\" height=\"55\"/>
      </child>
    </element>
  </folder>
</archimate:model>
";

#[test]
fn parses_native_model_and_preserves_diagram_metadata() {
    let model = parse(MINI).unwrap();
    assert_eq!(model.name, "Mini & Model");
    assert_eq!(model.id, "model-1");
    assert_eq!(model.version, "5.0.0");
    assert_eq!(model.folders.len(), 9);
    assert!(model
        .folders
        .iter()
        .flat_map(|folder| &folder.elements)
        .any(|element| element.native_type == "BusinessActor"));
    assert!(model
        .folders
        .iter()
        .flat_map(|folder| &folder.elements)
        .any(|element| element.native_type == "ApplicationComponent"));
    assert!(model
        .folders
        .iter()
        .flat_map(|folder| &folder.elements)
        .any(|element| element.native_type == "Node"));
    let relationships = model
        .folders
        .iter()
        .flat_map(|folder| &folder.relationships)
        .collect::<Vec<_>>();
    assert_eq!(relationships.len(), 2);
    assert_eq!(relationships[0].native_type, "FlowRelationship");
    let diagram = &model
        .folders
        .iter()
        .flat_map(|folder| &folder.diagrams)
        .next()
        .unwrap();
    let ArchiDiagramChild::Group(group) = &diagram.children[0] else {
        panic!("expected group");
    };
    assert_eq!(group.bounds.unwrap().width, 220);
    let ArchiDiagramChild::Object(actor) = &group.children[0] else {
        panic!("expected actor object");
    };
    assert_eq!(actor.element, "actor-1");
    assert_eq!(actor.connections[0].target, "object-app");
    assert_eq!(actor.connections[0].bendpoints.len(), 1);
    let ArchiDiagramChild::Object(app) = &diagram.children[1] else {
        panic!("expected app object");
    };
    assert_eq!(app.target_connections, ["connection-1"]);
    assert!(validate_connections(&model).is_empty());
}

#[test]
fn canonical_diff_ignores_formatting_attribute_order_and_target_order() {
    let a = parse_xml(
        "<root a=\"1\"><child targetConnections=\"b a\" id=\"x\"> value </child></root>",
    )
    .unwrap();
    let b = parse_xml(
        "<root a=\"1\">\n  <child id=\"x\" targetConnections=\"a b\">value</child>\n</root>",
    )
    .unwrap();
    assert!(canonical_diff(&a, &b).is_none());
    let changed = parse_xml("<root a=\"2\"><child id=\"x\">value</child></root>").unwrap();
    assert!(canonical_diff(&a, &changed).unwrap().contains("@a differs"));
}

#[test]
fn reports_dangling_native_connections() {
    let invalid = MINI.replace("target=\"object-app\"", "target=\"missing\"");
    let diagnostics = validate_connections(&parse(&invalid).unwrap());
    assert!(diagnostics
        .iter()
        .any(|message| message.contains("missing target")));
}

#[test]
fn dangling_connection_message_names_diagram_and_connection() {
    let invalid = MINI.replace("archimateRelationship=\"rel-1\"", "archimateRelationship=\"rel-9\"");
    let diagnostics = validate_connections(&parse(&invalid).unwrap());
    assert_eq!(
        diagnostics,
        vec!["diagram 'Context' connection 'connection-1' has missing relationship rel-9".to_string()]
    );
    let unlisted = MINI.replace("targetConnections=\"connection-1\" ", "");
    let diagnostics = validate_connections(&parse(&unlisted).unwrap());
    assert_eq!(
        diagnostics,
        vec!["diagram 'Context' connection 'connection-1' is absent from targetConnections on object-app".to_string()]
    );
}

#[test]
fn projects_mini_model_to_compilable_dsl() {
    let model = parse(MINI).unwrap();
    let dsl = project_to_dsl(&model);
    assert!(dsl.starts_with("workspace \"Mini & Model\" {\n  model {\n"));
    assert!(dsl.ends_with("}\n"));
    let workspace = compile(&dsl).unwrap();
    validate(&workspace).unwrap();
    assert_eq!(workspace.views.len(), 1);
    assert_eq!(workspace.groups.len(), 1);
    assert!(dsl.contains("businessActor \"User <Admin>\""));
    assert!(dsl.contains("applicationComponent \"Orders\""));
    assert!(dsl.contains("node \"Primary Node\""));
    assert!(dsl.contains("archimateView context"));
    assert!(dsl.contains("user_admin -> orders \"Uses\""));
    assert!(dsl.contains("boundary -> orders {"));
    assert!(dsl.contains("type CompositionRelationship"));
    assert!(dsl.contains("exclude relationship.tag!=archi_view_context"));
    assert!(dsl.contains("object orders {"));
    assert!(dsl.contains("background #b5ffff"));
    assert!(!dsl.contains("archi_id_"));
    assert!(!dsl.contains("actor-1"));
}

#[test]
fn import_keeps_source_and_hashes_projection() {
    let (dsl, warnings, sidecar) = import(MINI).unwrap();
    assert!(warnings.is_empty());
    assert_eq!(sidecar.format_version, 1);
    assert_eq!(sidecar.source_xml, MINI);
    assert_eq!(sidecar.projection_hash, hash(&dsl));
    assert_eq!(sidecar_xml(&sidecar, &dsl).unwrap().unwrap(), MINI);
    assert!(sidecar_xml(&sidecar, &format!("{dsl}\n")).unwrap().is_none());
    let old = ArchiSidecar { format_version: 2, projection_hash: sidecar.projection_hash.clone(), source_xml: MINI.to_string() };
    assert_eq!(sidecar_xml(&old, &dsl).unwrap_err(), "unsupported Archi sidecar version 2");
}

#[test]
fn diff_of_a_document_with_itself_is_empty() {
    assert_eq!(diff_files("a", MINI, "b", MINI), Ok(()));
    assert_eq!(semantic_diff_files(MINI, MINI), Ok(()));
    let renamed = MINI.replace("name=\"Orders\"", "name=\"Billing\"");
    let error = diff_files("a", MINI, "b", &renamed).unwrap_err();
    assert!(error.contains("@name differs: Some(\"Orders\") vs Some(\"Billing\")"));
    let error = semantic_diff_files(MINI, &renamed).unwrap_err();
    assert!(error.starts_with("semantic model differs at item "));
}

#[test]
fn semantic_signature_is_sorted_and_names_the_model() {
    let model = parse(MINI).unwrap();
    let signature = semantic_signature(&model).unwrap();
    let mut sorted = signature.clone();
    sorted.sort();
    assert_eq!(signature, sorted);
    assert!(signature.contains(&"model|Mini & Model".to_string()));
    assert!(signature.contains(&"view|Context|group|Customers|BusinessActor|User <Admin>|Uses the shop".to_string()));
}

#[test]
fn semantic_difference_reports_first_mismatch() {
    let a = vec!["a".to_string(), "b".to_string()];
    let b = vec!["a".to_string(), "c".to_string()];
    assert_eq!(semantic_difference(&a, &a), None);
    assert_eq!(
        semantic_difference(&a, &b).unwrap(),
        "semantic model differs at item 1: Some(\"b\") vs Some(\"c\")"
    );
    let short = vec!["a".to_string()];
    assert_eq!(
        semantic_difference(&a, &short).unwrap(),
        "semantic model differs at item 1: Some(\"b\") vs None"
    );
}

#[test]
fn dsl_identifiers_and_strings() {
    assert_eq!(dsl_identifier("User <Admin>"), "user_admin");
    assert_eq!(dsl_identifier("  Primary   Node "), "primary_node");
    assert_eq!(dsl_identifier("123 go"), "element_123_go");
    assert_eq!(dsl_identifier("<>"), "element");
    assert_eq!(dsl_string("a\"b\\c\nd\re"), "\"a\\\"b\\\\c\\nd\\re\"");
}

#[test]
fn unique_keys_add_suffixes_to_repeats() {
    let names = vec!["A".to_string(), "a".to_string(), "A".to_string(), "a 2".to_string()];
    assert_eq!(unique_keys(&names), vec!["a", "a_2", "a_3", "a_2_2"]);
}

#[test]
fn hash_is_fnv1a_64() {
    assert_eq!(hash(""), "fnv1a64:cbf29ce484222325");
    assert_eq!(hash("a"), "fnv1a64:af63dc4c8601ec8c");
}

#[test]
fn integers_parse_as_std_does() {
    assert_eq!(parse_i64("42"), Ok(42));
    assert_eq!(parse_i64("-9223372036854775808"), Ok(i64::MIN));
    assert_eq!(parse_i64("+7"), Ok(7));
    assert_eq!(parse_i64(""), Err("cannot parse integer from empty string".to_string()));
    assert_eq!(parse_i64("-"), Err("invalid digit found in string".to_string()));
    assert_eq!(parse_i64("12a"), Err("invalid digit found in string".to_string()));
    assert_eq!(parse_i64("9223372036854775808"), Err("number too large to fit in target type".to_string()));
    assert_eq!(parse_i64("-9223372036854775809"), Err("number too small to fit in target type".to_string()));
    assert_eq!(i64_to_string(-42), "-42");
    assert_eq!(i64_to_string(i64::MIN), "-9223372036854775808");
    let element = parse_xml("<bounds x=\"1x\" y=\"2\"/>").unwrap();
    assert_eq!(number(&element, "y"), Ok(2));
    assert_eq!(number(&element, "x"), Err("invalid bounds.x: invalid digit found in string".to_string()));
    assert_eq!(number(&element, "z"), Err("bounds is missing required attribute 'z'".to_string()));
}

#[test]
fn xml_is_read_with_sorted_attributes_and_normalized_text() {
    let root = parse_xml("<r b=\"2\" a=\"1\">  one \n two <c/>three</r>");
    let root = match root {
        Ok(root) => root,
        Err(error) => panic!("{error}"),
    };
    assert_eq!(root.name, "r");
    assert_eq!(root.text, "one two three");
    assert_eq!(root.children.len(), 1);
    assert_eq!(root.attributes[0].0, "a");
    assert!(parse_xml("<a></b>").is_err());
    assert_eq!(parse_xml("<a/><b/>").unwrap_err(), "XML document has multiple root elements");
    assert_eq!(parse_xml("").unwrap_err(), "XML document has no root element");
    assert!(parse_xml("<a>").is_err());
    assert_eq!(parse(&"<model/>").unwrap_err(), "expected archimate:model root, found model");
}

#[test]
fn canonical_diff_reads_target_connections_as_a_set() {
    let a = parse_xml("<root><child id=\"x\" targetConnections=\"b a a\"/></root>").unwrap();
    let b = parse_xml("<root><child id=\"x\" targetConnections=\"  a   b \"/></root>").unwrap();
    assert!(canonical_diff(&a, &b).is_none());
    let c = parse_xml("<root><child id=\"x\" targetConnections=\"a c\"/></root>").unwrap();
    assert!(canonical_diff(&a, &c).is_some());
}

#[test]
fn manual_object_bounds_are_kept_exactly() {
    let workspace = compile(
        "workspace {\n  model {\n    u = person U\n  }\n  views {\n    archimateView all {\n      include *\n      object u {\n        x 10\n        y 20\n        width 0\n        height 0\n      }\n    }\n  }\n}\n",
    )
    .unwrap();
    let default = c4c::archi_export::ArchiNativeBounds { x: 1, y: 2, width: 180, height: 80 };
    let bounds = c4c::archi_layout::archi_native_manual_bounds(&workspace.views[0], "u", default).unwrap();
    assert_eq!((bounds.x, bounds.y, bounds.width, bounds.height), (10, 20, 0, 0));
}
