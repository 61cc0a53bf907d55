use c4c::archimate::{
    archimate_element_keyword, archimate_element_layer, archimate_element_role,
    archimate_relationship_open_group_type, relationship_archimate_type,
};
use c4c::compiler::compile;
use c4c::mermaid::mermaid;
use c4c::model::ViewKind;
use c4c::validate::validate;

const SYSTEM_CONTEXT: &str = "flowchart LR\n  customer[\"Customer\\nPerson\"]\n  bank[\"Internet Banking System\\nSoftware System\"]\n  customer -->|Uses| bank\n";
const CONTAINER: &str = "flowchart LR\n  customer[\"Customer\\nPerson\"]\n  bank[\"Internet Banking System\\nSoftware System\"]\n  bank_web[\"Web Application\\nContainer\"]\n  bank_api[\"API Application\\nContainer\"]\n  bank_db[\"Database\\nContainer\"]\n  customer -->|Uses| bank_web\n  bank_web -->|Calls| bank_api\n  bank_api -->|Reads/writes| bank_db\n";

const INTERNET_BANKING: &str = "workspace \"Internet Banking\" {\n  !identifiers hierarchical\n  model {\n    customer = person Customer\n    bank = softwareSystem \"Internet Banking System\" {\n      web = container \"Web Application\"\n      api = container \"API Application\"\n      db = container Database\n    }\n    customer -> bank.web Uses\n    bank.web -> bank.api Calls\n    bank.api -> bank.db \"Reads/writes\"\n  }\n  views {\n    systemContext bank context {\n      include *\n    }\n    container bank containers {\n      include *\n    }\n  }\n}\n";

#[test]
fn preserves_m1_workspace_and_mermaid() {
    let workspace = compile(INTERNET_BANKING).unwrap();
    validate(&workspace).unwrap();
    assert_eq!(workspace.elements.len(), 5);
    assert_eq!(workspace.relationships.len(), 3);
    assert_eq!(workspace.views.len(), 2);
    assert_eq!(mermaid(&workspace, &workspace.views[0]), SYSTEM_CONTEXT);
    assert_eq!(mermaid(&workspace, &workspace.views[1]), CONTAINER);
}

const M3_UNSAFE: &str = "workspace {\n  !script groovy {\n    workspace.name = \"changed\"\n  }\n  !plugin com.example.Plugin\n  model {\n    user = person User\n  }\n}\n";

#[test]
fn safely_rejects_scripts_plugins_and_custom_implied_strategy() {
    let unsafe_error = compile(M3_UNSAFE).unwrap_err();
    assert!(unsafe_error.contains("!script is disabled and was not executed"));
    assert!(unsafe_error.contains("!plugin is disabled and was not executed"));
    let strategy = compile(
        "workspace {\n  model {\n    !impliedRelationships com.example.Custom\n  }\n}\n",
    )
    .unwrap_err();
    assert!(strategy.contains("external classes are never loaded"));
}

const M5_INVALID: &str = "workspace {\n  model {\n    user = person User\n    system = softwareSystem System\n    user -> system Uses\n  }\n  views {\n    systemContext system context {\n      include *\n    }\n    styles {\n      element Person {\n        shape Blob\n        width wide\n        strokeWidth 20\n        border double\n        opacity 150\n        metadata perhaps\n      }\n      relationship Relationship {\n        thickness thick\n        style broken\n        routing ZigZag\n        position 200\n      }\n    }\n    terminology {\n      metadata triangle\n    }\n  }\n}\n";

#[test]
fn reports_invalid_m5_style_values() {
    let workspace = compile(M5_INVALID).unwrap();
    let error = validate(&workspace).unwrap_err();
    for message in [
        "invalid shape 'Blob'",
        "width must be an integer",
        "strokeWidth must be between 1 and 10",
        "invalid border 'double'",
        "opacity must be between 0 and 100",
        "invalid boolean 'perhaps'",
        "thickness must be an integer",
        "invalid relationship style 'broken'",
        "invalid routing 'ZigZag'",
        "position must be between 0 and 100",
        "invalid metadata mode 'triangle'",
    ] {
        assert!(
            error.contains(message),
            "missing diagnostic: {message}\n{error}"
        );
    }
}

const M83_PROFILE: &str = "workspace {\n  model {\n    archimate {\n      customer = businessActor Customer\n      gateway = applicationComponent Gateway\n      customer -> gateway {\n        type FlowRelationship\n      }\n    }\n  }\n  views {\n    archimateView application {\n      include *\n      object gateway {\n        x 300\n        y 120\n      }\n    }\n  }\n}\n";

#[test]
fn parses_m83_archimate_profile() {
    let workspace = compile(M83_PROFILE).unwrap();
    validate(&workspace).unwrap();
    assert!(workspace.elements.iter().any(|element| element.id == "gateway"
        && element.kind == c4c::model::ElementKind::ArchiMate("ApplicationComponent")));
    assert_eq!(
        relationship_archimate_type(&workspace.relationships[0]),
        Some("FlowRelationship")
    );
    assert_eq!(workspace.views[0].kind, ViewKind::ArchiMate);
    assert!(workspace.views[0]
        .properties
        .iter()
        .any(|property| property.key == "object.gateway.x" && property.value == "300"));
}

#[test]
fn validates_m84_archimate_semantics_and_strict_mode() {
    assert_eq!(archimate_element_layer("Equipment"), Some("physical"));
    assert_eq!(archimate_element_role("DataObject"), Some("passive"));
    assert_eq!(
        archimate_relationship_open_group_type("AccessRelationship"),
        Some("Access")
    );
    assert_eq!(archimate_element_keyword("Junction"), Some("junction"));
}

#[test]
fn rejects_unsafe_m7_imports_and_custom_importers_in_strict_mode() {
    let unsupported = compile("workspace {\n  model {\n    !docs docs\n  }\n}\n").unwrap_err();
    assert!(unsupported.contains("is not allowed directly in the model"));
}
