use c4c::compiler::{compile, compile_sources, warnings};
use c4c::expand::expand_view;
use c4c::inspect::inspect;
use c4c::mermaid::mermaid;
use c4c::model::Workspace;
use c4c::source::SourceMap;
use c4c::validate::validate;

fn compile_named(path: &str, source: &str) -> Result<Workspace, String> {
    let (sources, source_id) = SourceMap::from_text(path.to_string(), source.to_string());
    compile_sources(&sources, source_id)
}

#[test]
fn reports_duplicate_and_missing_relationship_endpoints_with_source() {
    let workspace = compile_named(
        "tests/bad.dsl",
        "workspace {\n  model {\n    p = person User\n    p = person Other\n    missing -> nowhere Uses\n  }\n}\n",
    )
    .unwrap();
    let error = validate(&workspace).unwrap_err();
    assert!(error.contains("tests/bad.dsl:4:5: error: duplicate identifier 'p'"));
    assert!(error.contains("relationship source 'missing' is not defined"));
    assert!(error.contains("relationship destination 'nowhere' is not defined"));
    assert!(error.contains("|     ^^^^^^^"));
    assert!(error.contains("help:"));
}

#[test]
fn reports_unterminated_string() {
    let error = compile_named("tests/string.dsl", "workspace \"broken {\n").unwrap_err();
    assert!(error.contains("tests/string.dsl:1:11: error: unterminated string"));
    assert!(error.contains("^^^^^^^^^"));
}

#[test]
fn reports_missing_closing_braces() {
    let error = compile("workspace {\n  model {\n    p = person User\n").unwrap_err();
    assert!(error.contains("missing closing '}' for model"));
    assert!(error.contains("missing closing '}' for workspace"));
}

#[test]
fn accepts_case_insensitive_keywords_and_comments() {
    let workspace = compile(
        "WORKSPACE {\n  # workspace comment\n  !IDENTIFIERS HIERARCHICAL\n  MODEL {\n    // model comment\n    bank = SOFTWARESYSTEM Bank\n  }\n  VIEWS {\n    SYSTEMCONTEXT bank context {\n      INCLUDE *\n      AUTOLAYOUT LR\n    }\n  }\n}\n",
    )
    .unwrap();
    validate(&workspace).unwrap();
    assert_eq!(workspace.identifiers, "hierarchical");
    assert_eq!(
        workspace.views[0]
            .auto_layout
            .as_ref()
            .map(|layout| layout.direction.as_str()),
        Some("LR")
    );
}

#[test]
fn accepts_line_continuation_and_empty_placeholder() {
    let workspace = compile(
        "workspace \\\n  Continued {\n  !identifiers hierarchical\n  model {\n    bank = softwareSystem Bank {\n      api = container API \"\" Rust\n    }\n  }\n}\n",
    )
    .unwrap();
    validate(&workspace).unwrap();
    assert_eq!(workspace.name.as_deref(), Some("Continued"));
    assert_eq!(workspace.elements[1].description, None);
    assert_eq!(workspace.elements[1].technology.as_deref(), Some("Rust"));
}

#[test]
fn enforces_brace_line_rules() {
    let opening = compile("workspace\n{\n}\n").unwrap_err();
    assert!(opening.contains("opening '{' for workspace must be on the same line"));
    let closing = compile("workspace {\n} trailing\n").unwrap_err();
    assert!(closing.contains("closing '}' for workspace must be on a line of its own"));
}

#[test]
fn validates_identifier_modes_hierarchy_and_declaration_order() {
    let flat = compile(
        "workspace {\n  !identifiers flat\n  model {\n    a = softwareSystem A {\n      api = container API\n    }\n    b = softwareSystem B {\n      api = container API\n    }\n  }\n}\n",
    )
    .unwrap();
    assert!(validate(&flat)
        .unwrap_err()
        .contains("duplicate identifier 'api'"));

    let hierarchical = compile(
        "workspace {\n  !identifiers hierarchical\n  model {\n    s = softwareSystem S {\n      api = container One\n      api = container Two\n    }\n  }\n}\n",
    )
    .unwrap();
    assert!(validate(&hierarchical)
        .unwrap_err()
        .contains("duplicate identifier 's.api'"));

    let hierarchy =
        compile("workspace {\n  model {\n    c = container C\n    x = component X\n  }\n}\n")
            .unwrap();
    let error = validate(&hierarchy).unwrap_err();
    assert!(error.contains("container 'c' is not allowed"));
    assert!(error.contains("component 'x' is not allowed"));

    let forward = compile(
        "workspace {\n  model {\n    user -> system Uses\n    user = person User\n    system = softwareSystem System\n  }\n}\n",
    )
    .unwrap();
    assert!(validate(&forward)
        .unwrap_err()
        .contains("forward reference"));
}

#[test]
fn rejects_invalid_instances_health_checks_and_removals() {
    let workspace = compile(
        "workspace {\n  model {\n    system = softwareSystem System\n    user = person User {\n      healthCheck User /health\n    }\n    thing = element Thing Type {\n      instanceOf missing\n    }\n    env = deploymentEnvironment Production {\n      node = deploymentNode Node {\n        bad = containerInstance system\n      }\n    }\n    user -/> system Uses\n  }\n}\n",
    )
    .unwrap();
    let error = validate(&workspace).unwrap_err();
    assert!(error.contains("container instance must reference a container"));
    assert!(error.contains("healthCheck is only allowed"));
    assert!(error.contains("instanceOf reference 'missing' is not defined"));
    assert!(error.contains("has no earlier matching relationship"));

    let groups = compile(
        "workspace {\n  model {\n    system = softwareSystem System {\n      api = container API\n    }\n    one = deploymentEnvironment One {\n      blue = deploymentGroup Blue\n    }\n    two = deploymentEnvironment Two {\n      node = deploymentNode Node {\n        instance = containerInstance api blue\n      }\n    }\n  }\n}\n",
    )
    .unwrap();
    assert!(validate(&groups)
        .unwrap_err()
        .contains("is not in the same deployment environment"));
}

#[test]
fn never_silently_ignores_later_milestone_features() {
    let error = compile(
        "workspace {\n  !include other.dsl\n  styles {\n    element Person\n  }\n  views {\n    dynamic system key {\n    }\n  }\n}\n",
    )
    .unwrap_err();
    assert!(error.contains("cannot include 'other.dsl'"));
}

#[test]
fn reports_m4_view_validation_errors() {
    let workspace = compile(
        "workspace {\n  model {\n    user = person User\n    system = softwareSystem System {\n      api = container API\n    }\n    other = softwareSystem Other\n    production = deploymentEnvironment Production\n  }\n  views {\n    systemContext system duplicate {\n      include missing\n    }\n    container system duplicate {\n      autoLayout diagonal\n    }\n    component user wrongScope {\n      include *\n    }\n    filtered absent include Tag brokenFilter {\n    }\n    dynamic * badDynamic {\n      api -> other Uses\n    }\n    dynamic system relationshipReference {\n      unknownRelationship\n    }\n    deployment user absentEnvironment badDeployment {\n      include *\n    }\n  }\n}\n",
    )
    .unwrap();
    let error = validate(&workspace).unwrap_err();
    for message in [
        "duplicate view key 'duplicate'",
        "view selector 'missing' is not defined",
        "invalid autoLayout direction 'diagonal'",
        "component view scope 'user' has wrong kind",
        "filtered view base 'absent' is not defined",
        "dynamic element 'api' is outside the view scope",
        "dynamic relationship identifier 'unknownRelationship' cannot be resolved",
        "deployment view scope 'user' has wrong kind",
        "deployment view environment is missing or undefined",
    ] {
        assert!(
            error.contains(message),
            "missing diagnostic: {message}\n{error}"
        );
    }
}

#[test]
fn substitutes_m6_constants_and_rejects_invalid_definitions() {
    let workspace = compile(
        "!constant NAME \"Constant Workspace\"\n!constant TECH Rust\nworkspace \"${NAME}\" {\n  model {\n    system = softwareSystem System {\n      api = container API Backend ${TECH}\n    }\n  }\n}\n",
    )
    .unwrap();
    assert_eq!(workspace.name.as_deref(), Some("Constant Workspace"));
    assert_eq!(workspace.elements[1].technology.as_deref(), Some("Rust"));

    for (source, message) in [
        (
            "workspace \"${MISSING}\" {\n}\n",
            "undefined constant 'MISSING'",
        ),
        (
            "!constant A one\n!constant A two\nworkspace {\n}\n",
            "duplicate constant 'A'",
        ),
        (
            "!constant A ${B}\n!constant B ${A}\nworkspace {\n}\n",
            "recursive constant detected",
        ),
    ] {
        assert!(compile(source).unwrap_err().contains(message));
    }
}

#[test]
fn rejects_invalid_m83_archimate_profile_data() {
    for (source, message) in [
        (
            "workspace {\n  model {\n    archimate {\n      a = businessActor A {\n        background red\n      }\n    }\n  }\n}\n",
            "background must be a #RRGGBB color",
        ),
        (
            "workspace {\n  model {\n    archimate {\n      a = businessActor A\n      b = applicationComponent B\n      a -> b {\n        type UnknownRelationship\n      }\n    }\n  }\n}\n",
            "unknown ArchiMate relationship type",
        ),
        (
            "workspace {\n  model {\n    archimate {\n      a = businessActor A\n    }\n  }\n  views {\n    archimateView v {\n      include *\n      object missing {\n        x 1\n      }\n    }\n  }\n}\n",
            "archimateView object 'missing' is not included",
        ),
    ] {
        let workspace = compile(source).unwrap();
        assert!(validate(&workspace).unwrap_err().contains(message));
    }
    assert!(compile(
        "workspace {\n  model {\n    archimate {\n      a = noSuchType A\n    }\n  }\n}\n"
    )
    .unwrap_err()
    .contains("expected an ArchiMate element type"));
}

#[test]
fn evaluates_m6_boolean_and_property_expressions() {
    let workspace = compile(
        "workspace {\n  model {\n    keep = person Keep {\n      tags Keep\n      properties {\n        tier one\n      }\n    }\n    skip = person Skip {\n      tags Skip\n    }\n    system = softwareSystem System\n    keep -> system Uses \"\" Async\n  }\n  views {\n    systemLandscape selected {\n      include ( element.tag==Keep && ! element.tag==Skip ) || element.properties.tier==one\n      exclude relationship.tag==Async\n    }\n  }\n}\n",
    )
    .unwrap();
    validate(&workspace).unwrap();
    let expanded = expand_view(&workspace, &workspace.views[0]);
    assert_eq!(expanded.elements, vec!["keep".to_string()]);
    assert!(expanded.relationships.is_empty());

    let unsupported = compile(
        "workspace {\n  model {\n    keep = person Keep\n  }\n  views {\n    systemLandscape bad {\n      include element.name==Keep\n    }\n  }\n}\n",
    )
    .unwrap();
    assert!(warnings(&unsupported).unwrap().contains("not evaluated"));
    assert!(validate(&unsupported)
        .unwrap_err()
        .contains("unsupported expression field 'name'"));
}

#[test]
fn honors_boolean_implied_relationship_behavior() {
    let source = "workspace {\n  !identifiers hierarchical\n  model {\n    user = person User\n    system = softwareSystem System {\n      api = container API\n    }\n    user -> system.api Uses\n  }\n  views {\n    systemContext system context {\n      include *\n    }\n  }\n}\n";
    let enabled = compile(source).unwrap();
    assert!(mermaid(&enabled, &enabled.views[0]).contains("user -->|Uses| system"));
    let disabled =
        compile(&source.replace("  model {", "  model {\n    !impliedRelationships false"))
            .unwrap();
    assert!(!mermaid(&disabled, &disabled.views[0]).contains("Uses"));
}

#[test]
fn line_column_counts_byte_offsets_and_character_columns() {
    let (sources, id) = c4c::source::SourceMap::from_text("u.dsl".to_string(), "a\u{e9}\nb".to_string());
    let file = sources.get(id);
    assert_eq!(file.line_column(3), (1, 3));
    assert_eq!(file.line_column(4), (2, 1));
    assert_eq!(file.line_column(100), (2, 2));
    assert_eq!(file.line_start(2), 4);
}

#[test]
fn token_spans_are_byte_offsets() {
    let (sources, id) = c4c::source::SourceMap::from_text("u.dsl".to_string(), "\u{e9}x y\n".to_string());
    let tokens = c4c::lexer::lex(sources.get(id)).unwrap();
    assert_eq!(tokens[0].span.start, 0);
    assert_eq!(tokens[0].span.end, 3);
    assert_eq!(tokens[1].span.start, 4);
    let last = tokens.last().unwrap();
    assert_eq!(last.span.start, 6);
}

#[test]
fn inspect_of_a_plain_workspace_holds_only_its_lines() {
    let workspace = compile("workspace {\n  model {\n    u = person U\n  }\n}\n").unwrap();
    assert_eq!(
        inspect(&workspace),
        "workspace: <unnamed>\nelements:\n  u Person 'U' desc=None tech=None parent=None tags=[]\nrelationships:\nviews:\n"
    );
}

#[test]
fn expanded_views_list_each_element_and_relationship_once() {
    let workspace = compile(
        "workspace {\n  model {\n    u = person User\n    s = softwareSystem System\n    u -> s Uses\n  }\n  views {\n    systemContext s ctx {\n      include *\n      include u\n      include s\n    }\n  }\n}\n",
    )
    .unwrap();
    let expanded = expand_view(&workspace, &workspace.views[0]);
    let mut elements = expanded.elements.clone();
    elements.sort();
    elements.dedup();
    assert_eq!(elements.len(), expanded.elements.len());
    assert_eq!(expanded.elements.len(), 2);
    assert_eq!(expanded.relationships, vec![0]);
}

#[test]
fn mermaid_of_an_image_view_lists_its_sources() {
    let workspace = compile(
        "workspace {\n  model {\n    s = softwareSystem System\n  }\n  views {\n    image s pictures {\n      plantuml diagram.puml\n      kroki mermaid flow.mmd\n    }\n  }\n}\n",
    )
    .unwrap();
    assert_eq!(
        mermaid(&workspace, &workspace.views[0]),
        "%% Image view rendering is deferred\n%% plantuml diagram.puml\n%% kroki mermaid flow.mmd\n"
    );
}

#[test]
fn strict_safe_refuses_local_renderers_with_the_format_named() {
    assert_eq!(
        c4c::exporters::renderer_refusal(true, "svg").unwrap(),
        "--strict-safe rejects external local renderer execution for svg. Export --format dot or --format mermaid instead. No renderer was executed and no network request was made."
    );
    assert!(c4c::exporters::renderer_refusal(false, "png").is_none());
}

#[test]
fn finishing_a_compile_checks_only_what_the_options_ask_for() {
    let workspace = compile("workspace {\n  model {\n    u = person U\n  }\n}\n").unwrap();
    let plain = c4c::model::CompileOptions { allow_network: false, strict_safe: false, strict: false };
    assert!(c4c::compiler::finish_compile(&workspace, plain).is_ok());
    let strict = c4c::model::CompileOptions { allow_network: false, strict_safe: true, strict: true };
    assert!(c4c::compiler::finish_compile(&workspace, strict).is_ok());
    assert!(c4c::merge::is_shiftable(&workspace));
}
