use boxferry_quadlet::source::{native_finding, DocumentSetIssue};
use boxferry_quadlet::{
    QuadletDocumentInput, QuadletOutput, QuadletParseDiagnosticOrigin, QuadletParseDiagnosticSeverity,
    QuadletParseFailureStage, QuadletSource,
};
use quadlet_lens::model::{ContainerKey, QuadletUnitType};
use quadlet_lens::render::{EntryValue, QuadletDocumentBuilder};
use quadlet_lens::source::SourceId;

fn container(name: &str, id: u32, text: &str) -> QuadletDocumentInput {
    QuadletDocumentInput::new(name, id, text)
}

#[test]
fn inputs_keep_what_they_were_given() {
    let input = container("web.container", 7, "[Container]\nImage=example.invalid/web\n");
    assert_eq!(input.name(), "web.container");
    assert_eq!(input.source_id(), 7);
    assert_eq!(input.text(), "[Container]\nImage=example.invalid/web\n");
}

#[test]
fn valid_documents_parse_into_a_source() {
    let inputs = vec![
        container("web.container", 1, "[Container]\nImage=example.invalid/web\n"),
        container("data.volume", 2, "[Volume]\n"),
    ];
    let result = QuadletSource::parse("shop", inputs).expect("valid units parse");
    let source = result.source();
    assert_eq!(source.application_name(), "shop");
    assert_eq!(source.source_id(1), "web.container");
    assert_eq!(source.source_id(2), "data.volume");
    assert_eq!(source.source_id(99), "quadlet-source");
    assert_eq!(source.native_findings().len(), result.diagnostics().len());
    assert!(result
        .diagnostics()
        .iter()
        .all(|d| !(d.severity() == QuadletParseDiagnosticSeverity::Error
            && d.origin() != QuadletParseDiagnosticOrigin::DocumentSet)));
    let source = result.into_source();
    let renamed = source.with_source_id(1, "compose/web.yaml");
    assert_eq!(renamed.source_id(1), "compose/web.yaml");
}

#[test]
fn invalid_filenames_fail_with_their_index() {
    let inputs = vec![
        container("web.container", 1, "[Container]\nImage=example.invalid/web\n"),
        container("notes", 2, "[Container]\n"),
        container("web.txt", 3, "[Container]\n"),
    ];
    let error = QuadletSource::parse("shop", inputs).expect_err("bad names fail");
    assert_eq!(error.message(), "Quadlet parse failed");
    let failures = error.failures();
    let invalid = failures.iter().find(|f| f.input_index() == Some(1)).expect("second input reported");
    assert_eq!(invalid.stage(), QuadletParseFailureStage::Filename);
    assert_eq!(invalid.source_id(), Some(2));
    assert_eq!(invalid.span(), None);
    assert_eq!(invalid.summary(), "Quadlet unit filename is invalid");
    let unsupported = failures.iter().find(|f| f.input_index() == Some(2)).expect("third input reported");
    assert_eq!(unsupported.summary(), "Quadlet unit filename has an unsupported extension");
}

#[test]
fn syntax_errors_block_the_parse_and_keep_their_diagnostics() {
    let inputs = vec![container("web.container", 5, "[Container\nImage=example.invalid/web\n")];
    let error = QuadletSource::parse("shop", inputs).expect_err("malformed section header fails");
    assert!(!error.diagnostics().is_empty() || !error.failures().is_empty());
    for diagnostic in error.diagnostics() {
        let finding = native_finding(diagnostic);
        assert_eq!(finding.code(), diagnostic.code());
        assert_eq!(finding.severity(), diagnostic.severity());
        assert_eq!(finding.summary(), diagnostic.summary());
        assert_eq!(finding.format(), "quadlet");
        assert_eq!(finding.producer(), "quadlet-lens");
        let origin = diagnostic.origin();
        let layer = if origin == QuadletParseDiagnosticOrigin::Syntax {
            "syntax"
        } else if origin == QuadletParseDiagnosticOrigin::Model {
            "model"
        } else {
            "document-set"
        };
        assert_eq!(finding.layer(), layer);
        assert_eq!(finding.labels().len(), diagnostic.labels().len());
        for label in diagnostic.labels() {
            assert!(label.start() <= label.end());
            assert_eq!(label.source_id(), 5);
            let _ = label.message();
        }
    }
}

#[test]
fn duplicate_source_ids_fail_at_the_document_set() {
    let inputs = vec![
        container("web.container", 4, "[Container]\nImage=example.invalid/web\n"),
        container("api.container", 4, "[Container]\nImage=example.invalid/api\n"),
    ];
    let error = QuadletSource::parse("shop", inputs).expect_err("duplicate identities fail");
    let set = error
        .failures()
        .iter()
        .find(|f| f.stage() == QuadletParseFailureStage::DocumentSet)
        .expect("document-set failure");
    assert_eq!(set.summary(), "Quadlet document set has duplicate source identities");
    assert_eq!(set.source_id(), Some(4));
    assert_eq!(set.input_index(), None);
}

fn generated(text_image: &str, id: u32) -> quadlet_lens::render::GeneratedQuadletDocument {
    let mut builder = QuadletDocumentBuilder::new(QuadletUnitType::Container);
    builder.push_container(ContainerKey::Image, EntryValue::new(text_image).unwrap()).unwrap();
    builder.build(SourceId::new(id)).unwrap()
}

#[test]
fn generated_files_are_validated_and_found_by_name() {
    let output = QuadletOutput::from_generated(vec![
        ("web.container".to_string(), generated("example.invalid/web", 1)),
        ("api.container".to_string(), generated("example.invalid/api", 2)),
    ])
    .expect("valid generated units");
    assert_eq!(output.files().len(), 2);
    assert_eq!(output.files()[0].name().as_str(), "web.container");
    assert_eq!(output.files()[1].name().as_str(), "api.container");
    let api = output.file("api.container").expect("api file");
    assert!(api.text().contains("Image=example.invalid/api"));
    assert!(output.file("db.container").is_none());
    assert_eq!(output.document_set().documents().len(), 2);
}

#[test]
fn generated_files_with_bad_names_are_refused() {
    let refused = QuadletOutput::from_generated(vec![("web".to_string(), generated("example.invalid/web", 1))]);
    assert!(matches!(refused, Err(DocumentSetIssue::InvalidUnitFileName)));
    let mismatched =
        QuadletOutput::from_generated(vec![("web.volume".to_string(), generated("example.invalid/web", 1))]);
    assert!(mismatched.is_err());
}
