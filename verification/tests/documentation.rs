use c4c::compiler::compile;
use c4c::documentation::{
    adr_list, decision_id, doc_safe_name, export_site, fallback_title, html_escape, import, labeled_value,
    render_markdown, section_value, DocFile, DocTarget, FileContent, LoadedDocs,
};
use c4c::model::{DecisionFormat, DocumentationFormat, DocumentationOwner};

fn docs_workspace() -> c4c::model::Workspace {
    compile("workspace \"Docs\" {\n  !docs docs\n  !adrs decisions madr\n  model {\n    bank = softwareSystem Bank\n  }\n}\n").unwrap()
}

fn loaded() -> Vec<LoadedDocs> {
    vec![
        LoadedDocs {
            base: String::new(),
            value: "docs".to_string(),
            target: DocTarget::Directory {
                path: "/site/docs".to_string(),
                files: vec![
                    DocFile { path: "/site/docs/02-operating-notes.md".to_string(), content: FileContent::Text("No heading here.\n".to_string()) },
                    DocFile { path: "/site/docs/notes.txt".to_string(), content: FileContent::Text("ignored".to_string()) },
                    DocFile { path: "/site/docs/01-overview.md".to_string(), content: FileContent::Text("# Workspace overview\n\nText <script>\n".to_string()) },
                    DocFile { path: "/site/docs/03-guide.adoc".to_string(), content: FileContent::Text("= Guide\n".to_string()) },
                ],
            },
        },
        LoadedDocs {
            base: String::new(),
            value: "decisions".to_string(),
            target: DocTarget::Directory {
                path: "/site/decisions".to_string(),
                files: vec![DocFile {
                    path: "/site/decisions/0001-use-postgresql.md".to_string(),
                    content: FileContent::Text("# Use PostgreSQL for audit storage\n\n## Status\n\n**Accepted**\n\nDate: 2026-01-10\n".to_string()),
                }],
            },
        },
    ]
}

#[test]
fn import_asks_for_each_path_then_imports_in_order() {
    let workspace = docs_workspace();
    let first = import(&workspace, false, &Vec::new()).unwrap_err();
    assert_eq!(first.needs, Some((String::new(), "docs".to_string())));
    let imported = import(&workspace, false, &loaded()).unwrap();
    assert_eq!(imported.documentation.len(), 3);
    assert_eq!(imported.documentation[0].title, "Workspace overview");
    assert_eq!(imported.documentation[0].source_path, "docs/01-overview.md");
    assert_eq!(imported.documentation[1].title, "02 operating notes");
    assert_eq!(imported.documentation[2].format, DocumentationFormat::AsciiDoc);
    assert_eq!(imported.documentation[2].title, "Guide");
    assert_eq!(imported.documentation[2].owner, DocumentationOwner::Workspace);
    for (index, section) in imported.documentation.iter().enumerate() {
        assert_eq!(section.order, index);
    }
    assert_eq!(imported.decisions.len(), 1);
    assert_eq!(imported.decisions[0].id, "ADR-0001");
    assert_eq!(imported.decisions[0].status.as_deref(), Some("Accepted"));
    assert_eq!(imported.decisions[0].date.as_deref(), Some("2026-01-10"));
    assert_eq!(imported.decisions[0].format, DecisionFormat::Madr);
    assert!(imported.warnings.iter().any(|w| w.message.contains("MADR metadata import is partial")));
    assert!(imported.warnings.iter().any(|w| w.message.contains("AsciiDoc '/site/docs/03-guide.adoc' is preserved")));
}

#[test]
fn import_refuses_unsafe_paths_and_custom_importers_in_strict_mode() {
    let workspace = compile("workspace {\n  !docs \"http://example.com/docs\"\n  !adrs /abs\n  !docs ../up\n  !docs docs custom.Importer\n}\n").unwrap();
    let strict = import(&workspace, true, &Vec::new()).unwrap_err();
    assert!(strict.needs.is_none());
    for message in [
        "remote documentation import is disabled",
        "absolute ADR paths are not allowed",
        "documentation path may not escape the DSL directory with '..'",
        "custom documentation importer 'custom.Importer' was preserved but not loaded",
    ] {
        assert!(strict.message.contains(message), "missing '{message}' in {}", strict.message);
    }
}

#[test]
fn lists_adrs_and_builds_an_escaped_site() {
    let mut workspace = docs_workspace();
    assert_eq!(adr_list(&workspace), "No ADRs found.\n");
    let imported = import(&workspace, false, &loaded()).unwrap();
    workspace.documentation = imported.documentation;
    workspace.decisions = imported.decisions;
    assert_eq!(
        adr_list(&workspace),
        "ADR-0001 | Accepted | 2026-01-10 | Use PostgreSQL for audit storage | workspace | decisions/0001-use-postgresql.md\n"
    );
    let files = export_site(&workspace);
    let page = files.iter().find(|file| file.path == "docs/workspace/0001-workspace-overview.html").unwrap();
    assert!(page.content.contains("Text &lt;script&gt;"));
    assert!(!page.content.contains("<script>"));
    assert!(files.iter().any(|file| file.path == "decisions/0001-adr-0001.html"));
    assert!(files.iter().any(|file| file.path == "index.html"));
    assert_eq!(export_site(&workspace).len(), files.len());
}

#[test]
fn markdown_and_metadata_helpers() {
    assert_eq!(html_escape("<a href=\"x\">'&'</a>"), "&lt;a href=&quot;x&quot;&gt;&#39;&amp;&#39;&lt;/a&gt;");
    assert_eq!(
        render_markdown("# Title\n\ntext\n```rust\nlet x = 1 < 2;\n```\n## Sub\n"),
        "<h1>Title</h1><p>text</p><pre data-language=\"rust\"><code>let x = 1 &lt; 2;\n</code></pre><h2>Sub</h2>"
    );
    assert_eq!(decision_id("/x/adr-0007-choose.md"), "ADR-0007");
    assert_eq!(decision_id("/x/choose.md"), "CHOOSE");
    assert_eq!(fallback_title("/x/my_first-doc.md"), "My first doc");
    assert_eq!(section_value("## Status\n\n`Proposed`\n", "status"), Some("Proposed".to_string()));
    assert_eq!(labeled_value("Date: 2026-02-01\n", "Date:"), Some("2026-02-01".to_string()));
    assert_eq!(doc_safe_name("  Hello, World!! "), "hello-world");
    assert_eq!(doc_safe_name("***"), "item");
}
