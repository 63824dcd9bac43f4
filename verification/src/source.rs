//! Value-free diagnostics and failures retained at the native parse boundary.

use vstd::prelude::*;
use quadlet_lens::diagnostic::{Diagnostic as NativeDiagnostic, Label as NativeLabel, Severity as NativeSeverity};
use quadlet_lens::model::{
    DocumentSetError, NamedQuadletDocument, QuadletDocument, QuadletDocumentSet, QuadletParseResult as NativeParse,
    TypedModelError, UnitFileName,
};
use quadlet_lens::source::SourceId as NativeSourceId;
use crate::number::{decimal_text, push_decimal};
use crate::scalar::last_index_of;
use crate::text::{chars_of, has_char, string_from};

verus! {

/// Origin of one native diagnostic retained by the parse boundary.
#[derive(Clone, Copy, Debug, Eq, PartialEq, Structural)]
#[non_exhaustive]
pub enum QuadletParseDiagnosticOrigin {
    /// Syntax parsing.
    Syntax,
    /// Typed-model validation.
    Model,
    /// Cross-document validation.
    DocumentSet,
}

/// Severity of one native diagnostic retained by the parse boundary.
#[derive(Clone, Copy, Debug, Eq, PartialEq, Structural)]
#[non_exhaustive]
pub enum QuadletParseDiagnosticSeverity {
    /// The native input cannot cross the parse boundary.
    Error,
    /// The native input remains usable but requires attention.
    Warning,
    /// Informational native context.
    Note,
}

/// One labelled byte range on a [`QuadletParseDiagnostic`].
///
/// Only the numeric source identity, half-open byte offsets, and the static label message are
/// retained; never source text or a source name.
#[derive(Clone, Debug, Eq, PartialEq)]
#[non_exhaustive]
pub struct QuadletParseDiagnosticLabel {
    pub(crate) source_id: u32,
    pub(crate) start: usize,
    pub(crate) end: usize,
    pub(crate) message: &'static str,
}

/// Mathematical model of a [`QuadletParseDiagnosticLabel`].
pub struct LabelModel {
    pub source_id: u32,
    pub start: usize,
    pub end: usize,
    pub message: Seq<char>,
}

impl View for QuadletParseDiagnosticLabel {
    type V = LabelModel;

    closed spec fn view(&self) -> LabelModel {
        LabelModel {
            source_id: self.source_id,
            start: self.start,
            end: self.end,
            message: self.message@,
        }
    }
}

impl QuadletParseDiagnosticLabel {
    /// Returns the caller-owned numeric source identity.
    pub fn source_id(&self) -> (id: u32)
        ensures
            id == self@.source_id,
    {
        self.source_id
    }

    /// Returns the inclusive byte offset of this label.
    pub fn start(&self) -> (start: usize)
        ensures
            start == self@.start,
    {
        self.start
    }

    /// Returns the exclusive byte offset of this label.
    pub fn end(&self) -> (end: usize)
        ensures
            end == self@.end,
    {
        self.end
    }

    /// Returns the static, value-free native label message.
    pub fn message(&self) -> (message: &'static str)
        ensures
            message@ == self@.message,
    {
        self.message
    }
}

/// One recoverable native diagnostic retained without source contents.
#[derive(Clone, Debug, Eq, PartialEq)]
#[non_exhaustive]
pub struct QuadletParseDiagnostic {
    pub(crate) code: &'static str,
    pub(crate) severity: QuadletParseDiagnosticSeverity,
    pub(crate) summary: &'static str,
    pub(crate) origin: QuadletParseDiagnosticOrigin,
    pub(crate) labels: Vec<QuadletParseDiagnosticLabel>,
}

/// Mathematical model of a [`QuadletParseDiagnostic`].
pub struct DiagnosticModel {
    pub code: Seq<char>,
    pub severity: QuadletParseDiagnosticSeverity,
    pub summary: Seq<char>,
    pub origin: QuadletParseDiagnosticOrigin,
    pub labels: Seq<LabelModel>,
}

impl View for QuadletParseDiagnostic {
    type V = DiagnosticModel;

    closed spec fn view(&self) -> DiagnosticModel {
        DiagnosticModel {
            code: self.code@,
            severity: self.severity,
            summary: self.summary@,
            origin: self.origin,
            labels: self.labels@.map_values(|label: QuadletParseDiagnosticLabel| label@),
        }
    }
}

impl QuadletParseDiagnostic {
    /// Returns the stable native diagnostic code.
    pub fn code(&self) -> (code: &'static str)
        ensures
            code@ == self@.code,
    {
        self.code
    }

    /// Returns the native diagnostic severity.
    pub fn severity(&self) -> (severity: QuadletParseDiagnosticSeverity)
        ensures
            severity == self@.severity,
    {
        self.severity
    }

    /// Returns the static, value-free native diagnostic summary.
    pub fn summary(&self) -> (summary: &'static str)
        ensures
            summary@ == self@.summary,
    {
        self.summary
    }

    /// Returns the native diagnostic layer that produced this diagnostic.
    pub fn origin(&self) -> (origin: QuadletParseDiagnosticOrigin)
        ensures
            origin == self@.origin,
    {
        self.origin
    }

    /// Returns every labelled native source span in native order.
    pub fn labels(&self) -> (labels: &[QuadletParseDiagnosticLabel])
        ensures
            labels@.map_values(|label: QuadletParseDiagnosticLabel| label@) == self@.labels,
    {
        self.labels.as_slice()
    }
}

/// Stage that produced a non-recoverable parse failure.
#[derive(Clone, Copy, Debug, Eq, PartialEq, Structural)]
#[non_exhaustive]
pub enum QuadletParseFailureStage {
    /// Native unit filename validation.
    Filename,
    /// Native typed-model construction.
    TypedModel,
    /// Native named-document metadata construction.
    DocumentMetadata,
    /// Native document-set construction.
    DocumentSet,
    /// Neutral source construction.
    NeutralModel,
}

/// A non-recoverable failure that prevented a parse result.
///
/// Only structured stage and location metadata are retained; never a filename, source text,
/// native display rendering, or model value.
#[derive(Clone, Debug, Eq, PartialEq)]
#[non_exhaustive]
pub struct QuadletParseFailure {
    pub(crate) stage: QuadletParseFailureStage,
    pub(crate) input_index: Option<usize>,
    pub(crate) source_id: Option<u32>,
    pub(crate) span: Option<QuadletParseDiagnosticLabel>,
    pub(crate) summary: &'static str,
}

/// Mathematical model of a [`QuadletParseFailure`].
pub struct FailureModel {
    pub stage: QuadletParseFailureStage,
    pub input_index: Option<usize>,
    pub source_id: Option<u32>,
    pub span: Option<LabelModel>,
    pub summary: Seq<char>,
}

impl View for QuadletParseFailure {
    type V = FailureModel;

    closed spec fn view(&self) -> FailureModel {
        FailureModel {
            stage: self.stage,
            input_index: self.input_index,
            source_id: self.source_id,
            span: match self.span {
                Some(label) => Some(label@),
                None => None,
            },
            summary: self.summary@,
        }
    }
}

impl QuadletParseFailure {
    /// Returns the stage that could not recover.
    pub fn stage(&self) -> (stage: QuadletParseFailureStage)
        ensures
            stage == self@.stage,
    {
        self.stage
    }

    /// Returns the caller-order index of the input when known.
    pub fn input_index(&self) -> (index: Option<usize>)
        ensures
            index == self@.input_index,
    {
        self.input_index
    }

    /// Returns the caller-owned numeric source identity when known.
    pub fn source_id(&self) -> (id: Option<u32>)
        ensures
            id == self@.source_id,
    {
        self.source_id
    }

    /// Returns the parser-owned span when the failure has one.
    pub fn span(&self) -> (span: Option<&QuadletParseDiagnosticLabel>)
        ensures
            match span {
                Some(label) => self@.span == Some(label@),
                None => self@.span is None,
            },
    {
        self.span.as_ref()
    }

    /// Returns a static, value-free failure summary.
    pub fn summary(&self) -> (summary: &'static str)
        ensures
            summary@ == self@.summary,
    {
        self.summary
    }
}

/// Parse failure with every recoverable diagnostic retained.
#[derive(Clone, Debug, Eq, PartialEq)]
#[non_exhaustive]
pub struct QuadletParseError {
    pub(crate) diagnostics: Vec<QuadletParseDiagnostic>,
    pub(crate) failures: Vec<QuadletParseFailure>,
}

/// Mathematical model of a [`QuadletParseError`].
pub struct ParseErrorModel {
    pub diagnostics: Seq<DiagnosticModel>,
    pub failures: Seq<FailureModel>,
}

impl View for QuadletParseError {
    type V = ParseErrorModel;

    closed spec fn view(&self) -> ParseErrorModel {
        ParseErrorModel {
            diagnostics: self.diagnostics@.map_values(|d: QuadletParseDiagnostic| d@),
            failures: self.failures@.map_values(|f: QuadletParseFailure| f@),
        }
    }
}

impl QuadletParseError {
    /// Returns every recoverable native diagnostic collected before the boundary failed.
    pub fn diagnostics(&self) -> (diagnostics: &[QuadletParseDiagnostic])
        ensures
            diagnostics@.map_values(|d: QuadletParseDiagnostic| d@) == self@.diagnostics,
    {
        self.diagnostics.as_slice()
    }

    /// Returns non-recoverable native or neutral-model failures in collection order.
    pub fn failures(&self) -> (failures: &[QuadletParseFailure])
        ensures
            failures@.map_values(|f: QuadletParseFailure| f@) == self@.failures,
    {
        self.failures.as_slice()
    }

    /// Returns the fixed, value-free description of every parse failure.
    pub fn message(&self) -> (message: &'static str)
        ensures
            message@ == "Quadlet parse failed"@,
    {
        "Quadlet parse failed"
    }
}


// ---------------------------------------------------------------------------------------------
// Native findings
// ---------------------------------------------------------------------------------------------

/// The shared protected finding envelope for one retained native diagnostic: the format
/// `quadlet`, the producer `quadlet-lens`, the native code, the diagnostic layer, the severity,
/// the static summary, and every label as a primary label.
#[derive(Clone, Debug, Eq, PartialEq)]
pub struct QuadletNativeFinding {
    code: &'static str,
    layer: &'static str,
    severity: QuadletParseDiagnosticSeverity,
    summary: &'static str,
    labels: Vec<QuadletParseDiagnosticLabel>,
}

/// Mathematical model of a [`QuadletNativeFinding`].
pub struct FindingModel {
    pub code: Seq<char>,
    pub layer: Seq<char>,
    pub severity: QuadletParseDiagnosticSeverity,
    pub summary: Seq<char>,
    pub labels: Seq<LabelModel>,
}

impl View for QuadletNativeFinding {
    type V = FindingModel;

    closed spec fn view(&self) -> FindingModel {
        FindingModel {
            code: self.code@,
            layer: self.layer@,
            severity: self.severity,
            summary: self.summary@,
            labels: self.labels@.map_values(|label: QuadletParseDiagnosticLabel| label@),
        }
    }
}

/// The layer name of a diagnostic origin.
pub open spec fn layer_name(origin: QuadletParseDiagnosticOrigin) -> Seq<char> {
    match origin {
        QuadletParseDiagnosticOrigin::Syntax => seq!['s', 'y', 'n', 't', 'a', 'x'],
        QuadletParseDiagnosticOrigin::Model => seq!['m', 'o', 'd', 'e', 'l'],
        QuadletParseDiagnosticOrigin::DocumentSet => seq![
            'd',
            'o',
            'c',
            'u',
            'm',
            'e',
            'n',
            't',
            '-',
            's',
            'e',
            't',
        ],
    }
}

/// The finding a diagnostic converts into.
pub open spec fn finding_of(d: DiagnosticModel) -> FindingModel {
    FindingModel {
        code: d.code,
        layer: layer_name(d.origin),
        severity: d.severity,
        summary: d.summary,
        labels: d.labels,
    }
}

impl QuadletNativeFinding {
    /// The source format of the finding: always `quadlet`.
    pub fn format(&self) -> (format: &'static str)
        ensures
            format@ == seq!['q', 'u', 'a', 'd', 'l', 'e', 't'],
    {
        proof {
            reveal_strlit("quadlet");
        }
        "quadlet"
    }

    /// The producing library: always `quadlet-lens`.
    pub fn producer(&self) -> (producer: &'static str)
        ensures
            producer@ == seq!['q', 'u', 'a', 'd', 'l', 'e', 't', '-', 'l', 'e', 'n', 's'],
    {
        proof {
            reveal_strlit("quadlet-lens");
        }
        "quadlet-lens"
    }

    /// The stable native code.
    pub fn code(&self) -> (code: &'static str)
        ensures
            code@ == self@.code,
    {
        self.code
    }

    /// The diagnostic layer: `syntax`, `model`, or `document-set`.
    pub fn layer(&self) -> (layer: &'static str)
        ensures
            layer@ == self@.layer,
    {
        self.layer
    }

    /// The severity.
    pub fn severity(&self) -> (severity: QuadletParseDiagnosticSeverity)
        ensures
            severity == self@.severity,
    {
        self.severity
    }

    /// The static, value-free summary.
    pub fn summary(&self) -> (summary: &'static str)
        ensures
            summary@ == self@.summary,
    {
        self.summary
    }

    /// The primary labels, in native order.
    pub fn labels(&self) -> (labels: &[QuadletParseDiagnosticLabel])
        ensures
            labels@.map_values(|label: QuadletParseDiagnosticLabel| label@) == self@.labels,
    {
        self.labels.as_slice()
    }
}

fn clone_label(label: &QuadletParseDiagnosticLabel) -> (copy: QuadletParseDiagnosticLabel)
    ensures
        copy@ == label@,
{
    QuadletParseDiagnosticLabel {
        source_id: label.source_id,
        start: label.start,
        end: label.end,
        message: label.message,
    }
}

fn clone_labels(labels: &Vec<QuadletParseDiagnosticLabel>) -> (copy: Vec<QuadletParseDiagnosticLabel>)
    ensures
        copy@.map_values(|label: QuadletParseDiagnosticLabel| label@) == labels@.map_values(
            |label: QuadletParseDiagnosticLabel| label@,
        ),
{
    let mut copy: Vec<QuadletParseDiagnosticLabel> = Vec::new();
    let mut i: usize = 0;
    while i < labels.len()
        invariant
            i <= labels@.len(),
            copy@.len() == i,
            forall|j: int| 0 <= j < i ==> #[trigger] copy@[j]@ == labels@[j]@,
        decreases labels@.len() - i,
    {
        copy.push(clone_label(&labels[i]));
        i += 1;
    }
    assert(copy@.map_values(|label: QuadletParseDiagnosticLabel| label@) =~= labels@.map_values(
        |label: QuadletParseDiagnosticLabel| label@,
    ));
    copy
}

/// Converts one retained diagnostic into the shared finding envelope.
pub fn native_finding(diagnostic: &QuadletParseDiagnostic) -> (finding: QuadletNativeFinding)
    ensures
        finding@ == finding_of(diagnostic@),
{
    let layer = match diagnostic.origin {
        QuadletParseDiagnosticOrigin::Syntax => {
            proof {
                reveal_strlit("syntax");
                assert("syntax"@ =~= layer_name(diagnostic.origin));
            }
            "syntax"
        },
        QuadletParseDiagnosticOrigin::Model => {
            proof {
                reveal_strlit("model");
                assert("model"@ =~= layer_name(diagnostic.origin));
            }
            "model"
        },
        QuadletParseDiagnosticOrigin::DocumentSet => {
            proof {
                reveal_strlit("document-set");
                assert("document-set"@ =~= layer_name(diagnostic.origin));
            }
            "document-set"
        },
    };
    assert(layer@ == layer_name(diagnostic@.origin));
    QuadletNativeFinding {
        code: diagnostic.code,
        layer,
        severity: diagnostic.severity,
        summary: diagnostic.summary,
        labels: clone_labels(&diagnostic.labels),
    }
}

impl QuadletParseDiagnostic {
    /// Converts this diagnostic into the shared protected finding envelope.
    pub fn native_finding(&self) -> (finding: QuadletNativeFinding)
        ensures
            finding@ == finding_of(self@),
    {
        native_finding(self)
    }
}

fn findings_of(diagnostics: &Vec<QuadletParseDiagnostic>) -> (findings: Vec<QuadletNativeFinding>)
    ensures
        findings@.len() == diagnostics@.len(),
        forall|i: int| 0 <= i < findings@.len() ==> #[trigger] findings@[i]@ == finding_of(diagnostics@[i]@),
{
    let mut findings: Vec<QuadletNativeFinding> = Vec::new();
    let mut i: usize = 0;
    while i < diagnostics.len()
        invariant
            i <= diagnostics@.len(),
            findings@.len() == i,
            forall|j: int| 0 <= j < i ==> #[trigger] findings@[j]@ == finding_of(diagnostics@[j]@),
        decreases diagnostics@.len() - i,
    {
        findings.push(native_finding(&diagnostics[i]));
        i += 1;
    }
    findings
}

// ---------------------------------------------------------------------------------------------
// Native document metadata
// ---------------------------------------------------------------------------------------------

#[verifier::external_type_specification]
#[verifier::external_body]
pub struct ExUnitFileName(UnitFileName);

#[verifier::external_type_specification]
#[verifier::external_body]
pub struct ExNativeParse(NativeParse);

#[verifier::external_type_specification]
#[verifier::external_body]
pub struct ExNamedQuadletDocument(NamedQuadletDocument);

#[verifier::external_type_specification]
#[verifier::external_body]
pub struct ExQuadletDocumentSet(QuadletDocumentSet);

#[verifier::external_type_specification]
#[verifier::external_body]
pub struct ExNativeDiagnostic(NativeDiagnostic);

#[verifier::external_type_specification]
#[verifier::external_body]
pub struct ExNativeLabel(NativeLabel);

#[verifier::external_type_specification]
#[verifier::external_body]
pub struct ExDocumentSetError(DocumentSetError);

/// Copies a unit filename with its derived `Clone`; nothing is promised of the copy.
pub assume_specification[ <UnitFileName as Clone>::clone ](name: &UnitFileName) -> (copy: UnitFileName);

/// Copies a document set with its derived `Clone`; nothing is promised of the copy.
pub assume_specification[ <QuadletDocumentSet as Clone>::clone ](set: &QuadletDocumentSet) -> (copy:
    QuadletDocumentSet);

/// Why native unit metadata or a document set could not be constructed.
#[derive(Clone, Copy, Debug, Eq, PartialEq, Structural)]
pub enum DocumentSetIssue {
    /// A unit name is empty, contains path separators, or lacks a complete suffix.
    InvalidUnitFileName,
    /// A unit suffix is outside the typed-model surface.
    UnsupportedUnitFileExtension,
    /// The filename suffix and the typed document kind differ.
    UnitTypeMismatch,
    /// Two documents use the same caller-owned source identity.
    DuplicateSourceId(u32),
    /// Another native construction failure.
    Other,
}

/// The unit-file extensions of the native typed model.
pub open spec fn known_extension(e: Seq<char>) -> bool {
    ||| e =~= seq!['c', 'o', 'n', 't', 'a', 'i', 'n', 'e', 'r']
    ||| e =~= seq!['p', 'o', 'd']
    ||| e =~= seq!['n', 'e', 't', 'w', 'o', 'r', 'k']
    ||| e =~= seq!['v', 'o', 'l', 'u', 'm', 'e']
    ||| e =~= seq!['b', 'u', 'i', 'l', 'd']
    ||| e =~= seq!['i', 'm', 'a', 'g', 'e']
    ||| e =~= seq!['k', 'u', 'b', 'e']
    ||| e =~= seq!['a', 'r', 't', 'i', 'f', 'a', 'c', 't']
}

/// Why a unit-file basename is refused: empty, a path, without a non-empty stem and extension
/// around its last `.`, or with an extension outside the typed model.
pub open spec fn filename_issue(s: Seq<char>) -> Option<DocumentSetIssue> {
    let i = last_index_of(s, '.');
    if s.len() == 0 || has_char(s, '/') || has_char(s, '\\') || i < 0 || i == 0 || i == s.len() - 1 {
        Some(DocumentSetIssue::InvalidUnitFileName)
    } else if !known_extension(s.skip(i + 1)) {
        Some(DocumentSetIssue::UnsupportedUnitFileExtension)
    } else {
        None
    }
}

/// Tells the variants of a native `DocumentSetError` apart, reading a duplicate's identity with
/// `SourceId::get`; variants outside the four named ones become `Other`.
#[verifier::external_body]
pub(crate) fn document_set_issue(error: &DocumentSetError) -> (issue: DocumentSetIssue) {
    match error {
        DocumentSetError::InvalidUnitFileName(_) => DocumentSetIssue::InvalidUnitFileName,
        DocumentSetError::UnsupportedUnitFileExtension(_) => DocumentSetIssue::UnsupportedUnitFileExtension,
        DocumentSetError::UnitTypeMismatch { .. } => DocumentSetIssue::UnitTypeMismatch,
        DocumentSetError::DuplicateSourceId(id) => DocumentSetIssue::DuplicateSourceId(id.get()),
        _ => DocumentSetIssue::Other,
    }
}

/// Validates a unit-file basename with `UnitFileName::new`.
///
/// The contract restates the crate's rule: refused when empty, holding `/` or a backslash, or without a
/// non-empty stem and extension around the last `.`; refused as unsupported when the extension
/// is not one of the typed model's unit kinds.
#[verifier::external_body]
pub(crate) fn native_unit_file_name(name: &str) -> (file: Result<UnitFileName, DocumentSetIssue>)
    ensures
        match file {
            Ok(_) => filename_issue(name@) is None,
            Err(issue) => filename_issue(name@) == Some(issue),
        },
{
    match UnitFileName::new(name) {
        Ok(file) => Ok(file),
        Err(error) => Err(document_set_issue(&error)),
    }
}

/// Parses one document with `QuadletDocument::parse` under the unit type its filename implies.
///
/// Parsing is the outside crate's; the only failure it reports is a parser span it cannot
/// resolve, returned here as that span's source identity and offsets when present.
#[verifier::external_body]
fn native_parse(file: &UnitFileName, source_id: u32, text: &str) -> (parsed: Result<NativeParse, Option<(u32, usize, usize)>>)
{
    match QuadletDocument::parse(file.unit_type(), NativeSourceId::new(source_id), text) {
        Ok(parsed) => Ok(parsed),
        Err(TypedModelError::InvalidSourceSpan(span)) => Err(Some((span.source_id().get(), span.start(), span.end()))),
        Err(_) => Err(None),
    }
}

/// The syntax diagnostics of a parse, with `ParseResult::diagnostics`.
#[verifier::external_body]
fn native_syntax_diagnostics(parsed: &NativeParse) -> (diagnostics: &[NativeDiagnostic]) {
    parsed.syntax().diagnostics()
}

/// The typed-model diagnostics of a parse, with `QuadletParseResult::model_diagnostics`.
#[verifier::external_body]
fn native_model_diagnostics(parsed: &NativeParse) -> (diagnostics: &[NativeDiagnostic]) {
    parsed.model_diagnostics()
}

/// Pairs the parsed document with its basename, with `NamedQuadletDocument::new` on a copy of
/// `QuadletParseResult::document`. The basename is already a valid unit filename, so the only
/// failure the crate's source can return here is a unit-type mismatch; whether it comes back is
/// not claimed.
#[verifier::external_body]
fn native_named_document(file: &UnitFileName, parsed: &NativeParse) -> (named: Result<NamedQuadletDocument, DocumentSetIssue>)
    ensures
        named matches Err(issue) ==> issue == DocumentSetIssue::UnitTypeMismatch,
{
    match NamedQuadletDocument::new(file.as_str(), parsed.document().clone()) {
        Ok(named) => Ok(named),
        Err(error) => Err(document_set_issue(&error)),
    }
}

/// Builds the document set with `QuadletDocumentSet::new`. As its documentation and source say,
/// the only failure is a duplicated source identity; whether it comes back rests on the
/// documents, which are opaque here, and is not claimed.
#[verifier::external_body]
pub(crate) fn native_document_set(documents: Vec<NamedQuadletDocument>) -> (set: Result<QuadletDocumentSet, DocumentSetIssue>)
    ensures
        set matches Err(issue) ==> issue is DuplicateSourceId,
{
    match QuadletDocumentSet::new(documents) {
        Ok(set) => Ok(set),
        Err(error) => Err(document_set_issue(&error)),
    }
}

/// The cross-document diagnostics of a set, with `QuadletDocumentSet::diagnostics`.
#[verifier::external_body]
fn native_set_diagnostics(set: &QuadletDocumentSet) -> (diagnostics: &[NativeDiagnostic]) {
    set.diagnostics()
}

/// The source identity of the document at `index` in set order, with
/// `QuadletDocumentSet::documents` and `QuadletDocument::source_id`.
#[verifier::external_body]
fn native_document_source_id(set: &QuadletDocumentSet, index: usize) -> (id: Option<u32>) {
    set.documents().get(index).map(|named| named.document().source_id().get())
}

/// The code, severity, summary, and labels of one native diagnostic, with its accessors.
#[verifier::external_body]
fn native_diagnostic_parts(
    diagnostic: &NativeDiagnostic,
) -> (parts: (&'static str, QuadletParseDiagnosticSeverity, &'static str, &[NativeLabel])) {
    let severity = match diagnostic.severity() {
        NativeSeverity::Error => QuadletParseDiagnosticSeverity::Error,
        NativeSeverity::Warning => QuadletParseDiagnosticSeverity::Warning,
        NativeSeverity::Note => QuadletParseDiagnosticSeverity::Note,
    };
    (diagnostic.code().as_str(), severity, diagnostic.summary(), diagnostic.labels())
}

/// The source identity, offsets, and message of one native label, with its accessors.
#[verifier::external_body]
fn native_label_parts(label: &NativeLabel) -> (parts: (u32, usize, usize, &'static str)) {
    let span = label.span();
    (span.source_id().get(), span.start(), span.end(), label.message())
}

/// Copies native diagnostics without source contents, tagging each with `origin`.
fn copy_diagnostics(origin: QuadletParseDiagnosticOrigin, natives: &[NativeDiagnostic]) -> (copied: Vec<
    QuadletParseDiagnostic,
>)
    ensures
        copied@.len() == natives@.len(),
        forall|i: int| 0 <= i < copied@.len() ==> (#[trigger] copied@[i])@.origin == origin,
{
    let mut copied: Vec<QuadletParseDiagnostic> = Vec::new();
    let mut i: usize = 0;
    while i < natives.len()
        invariant
            i <= natives@.len(),
            copied@.len() == i,
            forall|j: int| 0 <= j < i ==> (#[trigger] copied@[j])@.origin == origin,
        decreases natives@.len() - i,
    {
        let (code, severity, summary, native_labels) = native_diagnostic_parts(&natives[i]);
        let mut labels: Vec<QuadletParseDiagnosticLabel> = Vec::new();
        let mut k: usize = 0;
        while k < native_labels.len()
            decreases native_labels@.len() - k,
        {
            let (source_id, start, end, message) = native_label_parts(&native_labels[k]);
            labels.push(QuadletParseDiagnosticLabel { source_id, start, end, message });
            k += 1;
        }
        copied.push(QuadletParseDiagnostic { code, severity, summary, origin, labels });
        i += 1;
    }
    copied
}

/// The failure summary for metadata that could not be constructed.
pub open spec fn metadata_summary(issue: DocumentSetIssue) -> &'static str {
    match issue {
        DocumentSetIssue::InvalidUnitFileName => "Quadlet unit filename is invalid",
        DocumentSetIssue::UnsupportedUnitFileExtension => "Quadlet unit filename has an unsupported extension",
        DocumentSetIssue::UnitTypeMismatch => "Quadlet unit filename and typed document kind differ",
        DocumentSetIssue::DuplicateSourceId(_) => "Quadlet named document has a duplicate source identity",
        DocumentSetIssue::Other => "Quadlet native document metadata could not be constructed",
    }
}

/// The failure summary for a document set that could not be constructed.
pub open spec fn set_summary(issue: DocumentSetIssue) -> &'static str {
    match issue {
        DocumentSetIssue::InvalidUnitFileName => "Quadlet document set contains an invalid unit filename",
        DocumentSetIssue::UnsupportedUnitFileExtension => "Quadlet document set contains an unsupported unit extension",
        DocumentSetIssue::UnitTypeMismatch => "Quadlet document set has mismatched document metadata",
        DocumentSetIssue::DuplicateSourceId(_) => "Quadlet document set has duplicate source identities",
        DocumentSetIssue::Other => "Quadlet document set could not be constructed",
    }
}

fn document_metadata_failure(
    stage: QuadletParseFailureStage,
    input_index: usize,
    source_id: u32,
    issue: DocumentSetIssue,
) -> (failure: QuadletParseFailure)
    ensures
        failure@ == (FailureModel {
            stage,
            input_index: Some(input_index),
            source_id: Some(source_id),
            span: None,
            summary: metadata_summary(issue)@,
        }),
{
    let summary = match issue {
        DocumentSetIssue::InvalidUnitFileName => "Quadlet unit filename is invalid",
        DocumentSetIssue::UnsupportedUnitFileExtension => "Quadlet unit filename has an unsupported extension",
        DocumentSetIssue::UnitTypeMismatch => "Quadlet unit filename and typed document kind differ",
        DocumentSetIssue::DuplicateSourceId(_) => "Quadlet named document has a duplicate source identity",
        DocumentSetIssue::Other => "Quadlet native document metadata could not be constructed",
    };
    QuadletParseFailure { stage, input_index: Some(input_index), source_id: Some(source_id), span: None, summary }
}

fn document_set_failure(issue: DocumentSetIssue) -> (failure: QuadletParseFailure)
    ensures
        failure@ == (FailureModel {
            stage: QuadletParseFailureStage::DocumentSet,
            input_index: None,
            source_id: match issue {
                DocumentSetIssue::DuplicateSourceId(id) => Some(id),
                _ => None,
            },
            span: None,
            summary: set_summary(issue)@,
        }),
{
    let source_id = match issue {
        DocumentSetIssue::DuplicateSourceId(id) => Some(id),
        _ => None,
    };
    let summary = match issue {
        DocumentSetIssue::InvalidUnitFileName => "Quadlet document set contains an invalid unit filename",
        DocumentSetIssue::UnsupportedUnitFileExtension => "Quadlet document set contains an unsupported unit extension",
        DocumentSetIssue::UnitTypeMismatch => "Quadlet document set has mismatched document metadata",
        DocumentSetIssue::DuplicateSourceId(_) => "Quadlet document set has duplicate source identities",
        DocumentSetIssue::Other => "Quadlet document set could not be constructed",
    };
    QuadletParseFailure { stage: QuadletParseFailureStage::DocumentSet, input_index: None, source_id, span: None, summary }
}

fn typed_model_failure(input_index: usize, source_id: u32, span: Option<(u32, usize, usize)>) -> (failure:
    QuadletParseFailure)
    ensures
        failure@ == (FailureModel {
            stage: QuadletParseFailureStage::TypedModel,
            input_index: Some(input_index),
            source_id: Some(source_id),
            span: match span {
                Some((id, start, end)) => Some(
                    LabelModel {
                        source_id: id,
                        start,
                        end,
                        message: "native typed-model span could not be resolved"@,
                    },
                ),
                None => None,
            },
            summary: "Quadlet typed-model construction failed"@,
        }),
{
    let label = match span {
        Some((id, start, end)) => Some(
            QuadletParseDiagnosticLabel {
                source_id: id,
                start,
                end,
                message: "native typed-model span could not be resolved",
            },
        ),
        None => None,
    };
    QuadletParseFailure {
        stage: QuadletParseFailureStage::TypedModel,
        input_index: Some(input_index),
        source_id: Some(source_id),
        span: label,
        summary: "Quadlet typed-model construction failed",
    }
}

// ---------------------------------------------------------------------------------------------
// Inputs, sources, and the parse boundary
// ---------------------------------------------------------------------------------------------

/// One caller-supplied Quadlet unit file held entirely in memory.
#[derive(Clone, Debug, Eq, PartialEq)]
pub struct QuadletDocumentInput {
    name: String,
    source_id: u32,
    text: String,
}

/// Mathematical model of a [`QuadletDocumentInput`].
pub struct InputModel {
    pub name: Seq<char>,
    pub source_id: u32,
    pub text: Seq<char>,
}

impl View for QuadletDocumentInput {
    type V = InputModel;

    closed spec fn view(&self) -> InputModel {
        InputModel { name: self.name@, source_id: self.source_id, text: self.text@ }
    }
}

impl QuadletDocumentInput {
    /// Creates an input without reading or validating an external path.
    pub fn new(name: &str, source_id: u32, text: &str) -> (input: Self)
        ensures
            input@ == (InputModel { name: name@, source_id, text: text@ }),
    {
        QuadletDocumentInput {
            name: string_from(chars_of(name).as_slice()),
            source_id,
            text: string_from(chars_of(text).as_slice()),
        }
    }

    /// Returns the caller-supplied unit-file basename.
    pub fn name(&self) -> (name: &str)
        ensures
            name@ == self@.name,
    {
        self.name.as_str()
    }

    /// Returns the caller-owned native source identity.
    pub fn source_id(&self) -> (id: u32)
        ensures
            id == self@.source_id,
    {
        self.source_id
    }

    /// Returns the complete authored unit text.
    pub fn text(&self) -> (text: &str)
        ensures
            text@ == self@.text,
    {
        self.text.as_str()
    }
}

/// A named Quadlet document set and caller-owned source identities.
#[derive(Clone, Debug, PartialEq, Eq)]
pub struct QuadletSource {
    application_name: String,
    documents: QuadletDocumentSet,
    source_ids: Vec<(u32, String)>,
    native_findings: Vec<QuadletNativeFinding>,
}

/// Mathematical model of a [`QuadletSource`]'s identities and findings.
pub struct SourceModel {
    pub application_name: Seq<char>,
    pub source_ids: Map<u32, Seq<char>>,
    pub native_findings: Seq<FindingModel>,
}

/// The identity map that `(native, neutral)` entries denote; later entries override.
pub open spec fn identity_map(entries: Seq<(u32, Seq<char>)>) -> Map<u32, Seq<char>>
    decreases entries.len(),
{
    if entries.len() == 0 {
        Map::empty()
    } else {
        identity_map(entries.drop_last()).insert(entries.last().0, entries.last().1)
    }
}

impl View for QuadletSource {
    type V = SourceModel;

    closed spec fn view(&self) -> SourceModel {
        SourceModel {
            application_name: self.application_name@,
            source_ids: identity_map(self.source_ids@.map_values(|e: (u32, String)| (e.0, e.1@))),
            native_findings: self.native_findings@.map_values(|f: QuadletNativeFinding| f@),
        }
    }
}

/// `quadlet-source`, the identity of documents without an assigned one.
pub open spec fn fallback_source_id() -> Seq<char> {
    seq!['q', 'u', 'a', 'd', 'l', 'e', 't', '-', 's', 'o', 'u', 'r', 'c', 'e']
}

/// `quadlet-source-<n>`, the initial identity of the document with native identity `n`.
pub open spec fn generated_source_id(n: u32) -> Seq<char> {
    fallback_source_id() + seq!['-'] + decimal_text(n as nat)
}

fn generated_source_id_text(n: u32) -> (text: String)
    ensures
        text@ == generated_source_id(n),
{
    let prefix: [char; 15] = ['q', 'u', 'a', 'd', 'l', 'e', 't', '-', 's', 'o', 'u', 'r', 'c', 'e', '-'];
    let mut out: Vec<char> = Vec::new();
    crate::mount::push_chars(&mut out, prefix.as_slice());
    push_decimal(&mut out, n as u64);
    assert(prefix@ =~= fallback_source_id() + seq!['-']);
    string_from(out.as_slice())
}

proof fn lemma_identity_map_last(entries: Seq<(u32, Seq<char>)>, i: int, k: u32)
    requires
        0 < i <= entries.len(),
        entries[i - 1].0 == k,
        forall|j: int| i <= j < entries.len() ==> #[trigger] entries[j].0 != k,
    ensures
        identity_map(entries).contains_key(k),
        identity_map(entries)[k] == entries[i - 1].1,
    decreases entries.len(),
{
    if entries.len() > i {
        let prev = entries.drop_last();
        assert(entries.last().0 != k) by {
            assert(entries[entries.len() - 1] == entries.last());
        }
        assert forall|j: int| i <= j < prev.len() implies #[trigger] prev[j].0 != k by {
            assert(prev[j] == entries[j]);
        }
        lemma_identity_map_last(prev, i, k);
    }
}

proof fn lemma_identity_map_absent(entries: Seq<(u32, Seq<char>)>, k: u32)
    requires
        forall|j: int| 0 <= j < entries.len() ==> #[trigger] entries[j].0 != k,
    ensures
        !identity_map(entries).contains_key(k),
    decreases entries.len(),
{
    if entries.len() > 0 {
        let prev = entries.drop_last();
        assert forall|j: int| 0 <= j < prev.len() implies #[trigger] prev[j].0 != k by {
            assert(prev[j] == entries[j]);
        }
        lemma_identity_map_absent(prev, k);
        assert(entries.last().0 != k) by {
            assert(entries[entries.len() - 1] == entries.last());
        }
    }
}

impl QuadletSource {
    /// Creates an explicit source from a validated document set. Every document initially
    /// receives the identity `quadlet-source-<numeric-id>`; the findings are those of the set's
    /// cross-document diagnostics.
    pub fn from_validated_documents(application_name: &str, documents: QuadletDocumentSet) -> (source: Self)
        ensures
            source@.application_name == application_name@,
            source.document_set() == documents,
            forall|k: u32| #[trigger] source@.source_ids.contains_key(k) ==> source@.source_ids[k]
                == generated_source_id(k),
            forall|i: int|
                0 <= i < source@.native_findings.len() ==> (#[trigger] source@.native_findings[i]).layer
                    == layer_name(QuadletParseDiagnosticOrigin::DocumentSet),
    {
        let diagnostics = copy_diagnostics(
            QuadletParseDiagnosticOrigin::DocumentSet,
            native_set_diagnostics(&documents),
        );
        let native_findings = findings_of(&diagnostics);
        let mut source_ids: Vec<(u32, String)> = Vec::new();
        let mut index: usize = 0;
        loop
            invariant
                forall|j: int| 0 <= j < source_ids@.len() ==> (#[trigger] source_ids@[j]).1@ == generated_source_id(
                    source_ids@[j].0,
                ),
            decreases usize::MAX - index,
        {
            match native_document_source_id(&documents, index) {
                Some(id) => {
                    source_ids.push((id, generated_source_id_text(id)));
                },
                None => break,
            }
            if index == usize::MAX {
                break;
            }
            index += 1;
        }
        let source = QuadletSource {
            application_name: string_from(chars_of(application_name).as_slice()),
            documents,
            source_ids,
            native_findings,
        };
        proof {
            let entries = source.source_ids@.map_values(|e: (u32, String)| (e.0, e.1@));
            assert forall|k: u32| #[trigger] identity_map(entries).contains_key(k) implies identity_map(entries)[k]
                == generated_source_id(k) by {
                lemma_identity_map_values(entries, k);
            }
            assert forall|i: int| 0 <= i < source@.native_findings.len() implies (
            #[trigger] source@.native_findings[i]).layer == layer_name(QuadletParseDiagnosticOrigin::DocumentSet) by {
                assert(source@.native_findings[i] == native_findings@[i]@);
                assert(native_findings@[i]@ == finding_of(diagnostics@[i]@));
            }
        }
        source
    }

    /// Assigns a caller-owned neutral identity to one Quadlet source document.
    pub fn with_source_id(self, quadlet: u32, neutral: &str) -> (source: Self)
        ensures
            source@ == (SourceModel { source_ids: self@.source_ids.insert(quadlet, neutral@), ..self@ }),
            source.document_set() == self.document_set(),
    {
        let mut source = self;
        let ghost before = source.source_ids@.map_values(|e: (u32, String)| (e.0, e.1@));
        source.source_ids.push((quadlet, string_from(chars_of(neutral).as_slice())));
        proof {
            let after = source.source_ids@.map_values(|e: (u32, String)| (e.0, e.1@));
            assert(after.drop_last() =~= before);
        }
        source
    }

    /// Returns the caller-selected neutral application name.
    pub fn application_name(&self) -> (name: &str)
        ensures
            name@ == self@.application_name,
    {
        self.application_name.as_str()
    }

    /// The named native document set this source holds.
    pub closed spec fn document_set(&self) -> QuadletDocumentSet {
        self.documents
    }

    /// Returns the complete named native document set.
    pub fn documents(&self) -> (documents: &QuadletDocumentSet)
        ensures
            *documents == self.document_set(),
    {
        &self.documents
    }

    /// Resolves a Quadlet source identity into its neutral identity, or `quadlet-source`.
    pub fn source_id(&self, quadlet: u32) -> (neutral: &str)
        ensures
            neutral@ == if self@.source_ids.contains_key(quadlet) {
                self@.source_ids[quadlet]
            } else {
                fallback_source_id()
            },
    {
        let ghost entries = self.source_ids@.map_values(|e: (u32, String)| (e.0, e.1@));
        let mut i: usize = self.source_ids.len();
        while i > 0
            invariant
                i <= self.source_ids@.len(),
                entries == self.source_ids@.map_values(|e: (u32, String)| (e.0, e.1@)),
                forall|j: int| i <= j < entries.len() ==> #[trigger] entries[j].0 != quadlet,
            decreases i,
        {
            if self.source_ids[i - 1].0 == quadlet {
                proof {
                    lemma_identity_map_last(entries, i as int, quadlet);
                }
                return self.source_ids[i - 1].1.as_str();
            }
            i -= 1;
        }
        proof {
            lemma_identity_map_absent(entries, quadlet);
            reveal_strlit("quadlet-source");
        }
        "quadlet-source"
    }

    /// Returns every recoverable native finding retained by the source boundary.
    pub fn native_findings(&self) -> (findings: &[QuadletNativeFinding])
        ensures
            findings@.map_values(|f: QuadletNativeFinding| f@) == self@.native_findings,
    {
        self.native_findings.as_slice()
    }
}

proof fn lemma_identity_map_values(entries: Seq<(u32, Seq<char>)>, k: u32)
    requires
        forall|j: int| 0 <= j < entries.len() ==> (#[trigger] entries[j]).1 == generated_source_id(entries[j].0),
        identity_map(entries).contains_key(k),
    ensures
        identity_map(entries)[k] == generated_source_id(k),
    decreases entries.len(),
{
    if entries.len() > 0 {
        let prev = entries.drop_last();
        assert forall|j: int| 0 <= j < prev.len() implies (#[trigger] prev[j]).1 == generated_source_id(prev[j].0) by {
            assert(prev[j] == entries[j]);
        }
        if entries.last().0 != k {
            lemma_identity_map_values(prev, k);
        } else {
            assert(entries[entries.len() - 1] == entries.last());
        }
    }
}

/// Whether a diagnostic blocks the parse boundary: an error from syntax or typed-model
/// validation.
pub open spec fn blocking(d: DiagnosticModel) -> bool {
    d.severity == QuadletParseDiagnosticSeverity::Error && d.origin != QuadletParseDiagnosticOrigin::DocumentSet
}

/// Successful native parse with every recoverable diagnostic retained.
#[derive(Clone, Debug, PartialEq, Eq)]
#[non_exhaustive]
pub struct QuadletParseResult {
    source: QuadletSource,
    diagnostics: Vec<QuadletParseDiagnostic>,
}

/// Mathematical model of a [`QuadletParseResult`].
pub struct ParseResultModel {
    pub source: SourceModel,
    pub diagnostics: Seq<DiagnosticModel>,
}

impl View for QuadletParseResult {
    type V = ParseResultModel;

    closed spec fn view(&self) -> ParseResultModel {
        ParseResultModel {
            source: self.source@,
            diagnostics: self.diagnostics@.map_values(|d: QuadletParseDiagnostic| d@),
        }
    }
}

impl QuadletParseResult {
    /// The named native document set of the parsed source.
    pub closed spec fn source_document_set(&self) -> QuadletDocumentSet {
        self.source.document_set()
    }

    /// Returns the native source boundary, including a recoverably incomplete document graph.
    pub fn source(&self) -> (source: &QuadletSource)
        ensures
            source@ == self@.source,
            source.document_set() == self.source_document_set(),
    {
        &self.source
    }

    /// Returns native syntax, model, and document-set diagnostics in collection order.
    pub fn diagnostics(&self) -> (diagnostics: &[QuadletParseDiagnostic])
        ensures
            diagnostics@.map_values(|d: QuadletParseDiagnostic| d@) == self@.diagnostics,
    {
        self.diagnostics.as_slice()
    }

    /// Consumes this result and returns the source boundary.
    pub fn into_source(self) -> (source: QuadletSource)
        ensures
            source@ == self@.source,
            source.document_set() == self.source_document_set(),
    {
        self.source
    }
}

fn append_diagnostics(all: &mut Vec<QuadletParseDiagnostic>, more: Vec<QuadletParseDiagnostic>)
    ensures
        final(all)@ == old(all)@ + more@,
{
    let mut more = more;
    all.append(&mut more);
}

fn has_blocking(diagnostics: &Vec<QuadletParseDiagnostic>) -> (b: bool)
    ensures
        b == exists|i: int| 0 <= i < diagnostics@.len() && blocking(#[trigger] diagnostics@[i]@),
{
    let mut i: usize = 0;
    while i < diagnostics.len()
        invariant
            i <= diagnostics@.len(),
            forall|j: int| 0 <= j < i ==> !blocking(#[trigger] diagnostics@[j]@),
        decreases diagnostics@.len() - i,
    {
        let d = &diagnostics[i];
        if d.severity == QuadletParseDiagnosticSeverity::Error && d.origin != QuadletParseDiagnosticOrigin::DocumentSet {
            assert(blocking(diagnostics@[i as int]@));
            return true;
        }
        i += 1;
    }
    false
}

/// No document-set diagnostic comes before a syntax or typed-model one.
pub open spec fn set_diagnostics_last(diagnostics: Seq<DiagnosticModel>) -> bool {
    forall|i: int, j: int|
        0 <= i < j < diagnostics.len() && (#[trigger] diagnostics[i]).origin == QuadletParseDiagnosticOrigin::DocumentSet
            ==> (#[trigger] diagnostics[j]).origin == QuadletParseDiagnosticOrigin::DocumentSet
}

proof fn lemma_set_diagnostics_last(all: Seq<QuadletParseDiagnostic>, n: int)
    requires
        0 <= n <= all.len(),
        forall|i: int| 0 <= i < n ==> (#[trigger] all[i])@.origin != QuadletParseDiagnosticOrigin::DocumentSet,
        forall|i: int| n <= i < all.len() ==> (#[trigger] all[i])@.origin == QuadletParseDiagnosticOrigin::DocumentSet,
    ensures
        set_diagnostics_last(all.map_values(|d: QuadletParseDiagnostic| d@)),
{
    let models = all.map_values(|d: QuadletParseDiagnostic| d@);
    assert forall|i: int, j: int|
        0 <= i < j < models.len() && (#[trigger] models[i]).origin == QuadletParseDiagnosticOrigin::DocumentSet
            implies (#[trigger] models[j]).origin == QuadletParseDiagnosticOrigin::DocumentSet by {
        assert(models[i] == all[i]@);
        assert(models[j] == all[j]@);
    }
}

/// The failure recorded for the input at `index` whose basename is refused.
pub open spec fn filename_failure(index: int, input: InputModel) -> FailureModel {
    FailureModel {
        stage: QuadletParseFailureStage::Filename,
        input_index: Some(index as usize),
        source_id: Some(input.source_id),
        span: None,
        summary: metadata_summary(filename_issue(input.name)->Some_0)@,
    }
}

/// Every one of the first `n` inputs whose basename is refused has its filename failure among
/// `failures`.
pub open spec fn filenames_reported(inputs: Seq<InputModel>, n: int, failures: Seq<FailureModel>) -> bool {
    forall|i: int|
        0 <= i < n && (#[trigger] filename_issue(inputs[i].name)) is Some ==> exists|j: int|
            0 <= j < failures.len() && #[trigger] failures[j] == filename_failure(i, inputs[i])
}

/// Every one of the first `n` inputs has its source identity among the first components of
/// `names`.
pub open spec fn identities_recorded(inputs: Seq<InputModel>, n: int, names: Seq<(u32, Seq<char>)>) -> bool {
    forall|i: int| 0 <= i < n ==> recorded(names, #[trigger] inputs[i].source_id)
}

/// `id` is the first component of one of `names`.
pub open spec fn recorded(names: Seq<(u32, Seq<char>)>, id: u32) -> bool {
    exists|j: int| 0 <= j < names.len() && (#[trigger] names[j]).0 == id
}

proof fn lemma_reports_kept(inputs: Seq<InputModel>, n: int, before: Seq<FailureModel>, after: Seq<FailureModel>)
    requires
        filenames_reported(inputs, n, before),
        before.len() <= after.len(),
        forall|j: int| 0 <= j < before.len() ==> after[j] == before[j],
    ensures
        filenames_reported(inputs, n, after),
{
    assert forall|i: int|
        0 <= i < n && (#[trigger] filename_issue(inputs[i].name)) is Some implies exists|j: int|
            0 <= j < after.len() && #[trigger] after[j] == filename_failure(i, inputs[i]) by {
        let j = choose|j: int| 0 <= j < before.len() && #[trigger] before[j] == filename_failure(i, inputs[i]);
        assert(after[j] == before[j]);
    }
}

proof fn lemma_identities_kept(
    inputs: Seq<InputModel>,
    n: int,
    before: Seq<(u32, Seq<char>)>,
    after: Seq<(u32, Seq<char>)>,
)
    requires
        identities_recorded(inputs, n, before),
        before.len() <= after.len(),
        forall|j: int| 0 <= j < before.len() ==> after[j] == before[j],
    ensures
        identities_recorded(inputs, n, after),
{
    assert forall|i: int| 0 <= i < n implies recorded(after, #[trigger] inputs[i].source_id) by {
        assert(recorded(before, inputs[i].source_id));
        let j = choose|j: int| 0 <= j < before.len() && (#[trigger] before[j]).0 == inputs[i].source_id;
        assert(after[j] == before[j]);
    }
}

/// The place of a stage among failures: per-input stages first, then the document set, then the
/// neutral model.
pub open spec fn stage_rank(stage: QuadletParseFailureStage) -> int {
    match stage {
        QuadletParseFailureStage::DocumentSet => 1,
        QuadletParseFailureStage::NeutralModel => 2,
        _ => 0,
    }
}

/// Whether a failure of `stage` is about one input.
pub open spec fn input_stage(stage: QuadletParseFailureStage) -> bool {
    stage == QuadletParseFailureStage::Filename || stage == QuadletParseFailureStage::TypedModel || stage
        == QuadletParseFailureStage::DocumentMetadata
}

/// The summary of a typed-model failure.
pub open spec fn typed_model_summary() -> Seq<char> {
    "Quadlet typed-model construction failed"@
}

/// The message of a typed-model failure's span label.
pub open spec fn typed_model_span_message() -> Seq<char> {
    "native typed-model span could not be resolved"@
}

/// What one failure says of `inputs`: no neutral-model failure; an input index exactly for the
/// per-input stages, below the input count, with that input's source identity; a filename
/// failure exactly for a refused basename, and then the filename failure of that input; a span
/// only on a typed-model failure, whose summary and span message are fixed; a metadata failure
/// only for a unit-type mismatch; and a document-set failure only for a duplicated source
/// identity, which it carries.
pub open spec fn failure_fits(inputs: Seq<InputModel>, f: FailureModel) -> bool {
    &&& f.stage != QuadletParseFailureStage::NeutralModel
    &&& (f.input_index is Some <==> input_stage(f.stage))
    &&& (f.span is Some ==> f.stage == QuadletParseFailureStage::TypedModel)
    &&& (f.input_index matches Some(i) ==> {
        &&& i < inputs.len()
        &&& f.source_id == Some(inputs[i as int].source_id)
        &&& (f.stage == QuadletParseFailureStage::Filename <==> filename_issue(inputs[i as int].name) is Some)
        &&& (f.stage == QuadletParseFailureStage::Filename ==> f == filename_failure(i as int, inputs[i as int]))
    })
    &&& (f.stage == QuadletParseFailureStage::TypedModel ==> {
        &&& f.summary == typed_model_summary()
        &&& (f.span matches Some(l) ==> l.message == typed_model_span_message())
    })
    &&& (f.stage == QuadletParseFailureStage::DocumentMetadata ==> f.summary == metadata_summary(
        DocumentSetIssue::UnitTypeMismatch,
    )@)
    &&& (f.stage == QuadletParseFailureStage::DocumentSet ==> f.source_id is Some && f.summary == set_summary(
        DocumentSetIssue::DuplicateSourceId(0),
    )@)
}

/// The failures of a parse of `inputs`, in order: each fits the inputs; stages come in stage
/// order; at most one is a document-set failure; and the input indices strictly increase, so
/// that each input has at most one failure and inputs fail in caller order.
pub open spec fn failures_ordered(inputs: Seq<InputModel>, fs: Seq<FailureModel>) -> bool {
    &&& forall|k: int| 0 <= k < fs.len() ==> failure_fits(inputs, #[trigger] fs[k])
    &&& forall|k: int, l: int|
        0 <= k < l < fs.len() ==> stage_rank((#[trigger] fs[k]).stage) <= stage_rank((#[trigger] fs[l]).stage)
    &&& forall|k: int, l: int|
        0 <= k < l < fs.len() ==> !((#[trigger] fs[k]).stage == QuadletParseFailureStage::DocumentSet && (
        #[trigger] fs[l]).stage == QuadletParseFailureStage::DocumentSet)
    &&& forall|k: int, l: int|
        0 <= k < l < fs.len() && (#[trigger] fs[k]).input_index is Some && (#[trigger] fs[l]).input_index is Some
            ==> fs[k].input_index->Some_0 < fs[l].input_index->Some_0
}

/// Every failure so far is about one of the first `n` inputs.
pub open spec fn failures_before(fs: Seq<FailureModel>, n: int) -> bool {
    forall|k: int| 0 <= k < fs.len() ==> ((#[trigger] fs[k]).input_index matches Some(i) && i < n)
}

proof fn lemma_push_input_failure(inputs: Seq<InputModel>, fs: Seq<FailureModel>, f: FailureModel, n: int)
    requires
        failures_ordered(inputs, fs),
        failures_before(fs, n),
        failure_fits(inputs, f),
        f.input_index == Some(n as usize),
        0 <= n <= usize::MAX,
    ensures
        failures_ordered(inputs, fs.push(f)),
        failures_before(fs.push(f), n + 1),
{
    let t = fs.push(f);
    assert forall|k: int| 0 <= k < t.len() implies failure_fits(inputs, #[trigger] t[k]) by {
        if k < fs.len() {
            assert(t[k] == fs[k]);
        }
    }
    assert forall|k: int, l: int| 0 <= k < l < t.len() implies stage_rank((#[trigger] t[k]).stage) <= stage_rank(
        (#[trigger] t[l]).stage,
    ) && !(t[k].stage == QuadletParseFailureStage::DocumentSet && t[l].stage == QuadletParseFailureStage::DocumentSet)
        && (t[k].input_index is Some && t[l].input_index is Some ==> t[k].input_index->Some_0
        < t[l].input_index->Some_0) by {
        assert(t[k] == fs[k]);
        assert(failure_fits(inputs, fs[k]));
        assert(fs[k].input_index matches Some(i) && i < n);
        assert(input_stage(fs[k].stage));
        assert(stage_rank(fs[k].stage) == 0);
        if l < fs.len() {
            assert(t[l] == fs[l]);
            assert(failure_fits(inputs, fs[l]));
            assert(fs[l].input_index matches Some(i) && i < n);
            assert(input_stage(fs[l].stage));
            assert(fs[k].input_index->Some_0 < fs[l].input_index->Some_0);
        } else {
            assert(t[l] == f);
            assert(input_stage(f.stage));
            assert(fs[k].input_index->Some_0 < n);
        }
    }
    assert forall|k: int| 0 <= k < t.len() implies ((#[trigger] t[k]).input_index matches Some(i) && i < n + 1) by {
        if k < fs.len() {
            assert(t[k] == fs[k]);
        }
    }
}

proof fn lemma_push_set_failure(inputs: Seq<InputModel>, fs: Seq<FailureModel>, f: FailureModel, n: int)
    requires
        failures_ordered(inputs, fs),
        failures_before(fs, n),
        failure_fits(inputs, f),
        f.stage == QuadletParseFailureStage::DocumentSet,
    ensures
        failures_ordered(inputs, fs.push(f)),
{
    let t = fs.push(f);
    assert forall|k: int| 0 <= k < t.len() implies failure_fits(inputs, #[trigger] t[k]) by {
        if k < fs.len() {
            assert(t[k] == fs[k]);
        }
    }
    assert forall|k: int, l: int| 0 <= k < l < t.len() implies stage_rank((#[trigger] t[k]).stage) <= stage_rank(
        (#[trigger] t[l]).stage,
    ) && !(t[k].stage == QuadletParseFailureStage::DocumentSet && t[l].stage == QuadletParseFailureStage::DocumentSet)
        && (t[k].input_index is Some && t[l].input_index is Some ==> t[k].input_index->Some_0
        < t[l].input_index->Some_0) by {
        assert(t[k] == fs[k]);
        assert(failure_fits(inputs, fs[k]));
        assert(fs[k].input_index is Some);
        if l < fs.len() {
            assert(t[l] == fs[l]);
            assert(failure_fits(inputs, fs[l]));
        } else {
            assert(t[l] == f);
        }
    }
}

/// The source identities of `inputs` are pairwise distinct.
pub open spec fn distinct_source_ids(inputs: Seq<InputModel>) -> bool {
    forall|i: int, j: int|
        0 <= i < inputs.len() && 0 <= j < inputs.len() && i != j ==> (#[trigger] inputs[i]).source_id != (
        #[trigger] inputs[j]).source_id
}

/// The identity entries of accepted inputs: each input's source identity with its basename.
pub open spec fn input_identities(inputs: Seq<InputModel>) -> Seq<(u32, Seq<char>)> {
    inputs.map_values(|m: InputModel| (m.source_id, m.name))
}

impl QuadletSource {
    /// Parses explicit in-memory unit files while retaining every recoverable native diagnostic.
    ///
    /// Diagnostics are collected in input order, syntax then typed-model diagnostics per input,
    /// then document-set diagnostics. An input whose name is not a valid unit filename, any
    /// non-recoverable native failure, or any error-severity syntax or typed-model diagnostic
    /// makes the parse fail; document-set diagnostics never do.
    pub fn parse(application_name: &str, inputs: Vec<QuadletDocumentInput>) -> (outcome: Result<
        QuadletParseResult,
        QuadletParseError,
    >)
        ensures
            match outcome {
                Ok(result) => {
                    &&& result@.source.application_name == application_name@
                    &&& set_diagnostics_last(result@.diagnostics)
                    &&& forall|i: int| 0 <= i < result@.diagnostics.len() ==> !blocking(
                        #[trigger] result@.diagnostics[i],
                    )
                    &&& result@.source.native_findings.len() == result@.diagnostics.len()
                    &&& forall|i: int|
                        0 <= i < result@.diagnostics.len() ==> #[trigger] result@.source.native_findings[i]
                            == finding_of(result@.diagnostics[i])
                    &&& forall|i: int|
                        0 <= i < inputs@.len() ==> filename_issue((#[trigger] inputs@[i])@.name) is None
                            && result@.source.source_ids.contains_key(inputs@[i]@.source_id)
                    &&& distinct_source_ids(inputs@.map_values(|input: QuadletDocumentInput| input@)) ==> forall|i: int|
                        0 <= i < inputs@.len() ==> result@.source.source_ids[(#[trigger] inputs@[i])@.source_id]
                            == inputs@[i]@.name
                },
                Err(error) => {
                    &&& set_diagnostics_last(error@.diagnostics)
                    &&& error@.failures.len() > 0 || exists|i: int|
                        0 <= i < error@.diagnostics.len() && blocking(#[trigger] error@.diagnostics[i])
                    &&& filenames_reported(
                        inputs@.map_values(|input: QuadletDocumentInput| input@),
                        inputs@.len() as int,
                        error@.failures,
                    )
                    &&& failures_ordered(inputs@.map_values(|input: QuadletDocumentInput| input@), error@.failures)
                },
            },
    {
        let ghost models = inputs@.map_values(|input: QuadletDocumentInput| input@);
        let mut documents: Vec<NamedQuadletDocument> = Vec::new();
        let mut source_names: Vec<(u32, String)> = Vec::new();
        let mut diagnostics: Vec<QuadletParseDiagnostic> = Vec::new();
        let mut failures: Vec<QuadletParseFailure> = Vec::new();
        let mut index: usize = 0;
        while index < inputs.len()
            invariant
                index <= inputs@.len(),
                models == inputs@.map_values(|input: QuadletDocumentInput| input@),
                filenames_reported(models, index as int, failures@.map_values(|f: QuadletParseFailure| f@)),
                failures@.len() == 0 ==> identities_recorded(
                    models,
                    index as int,
                    source_names@.map_values(|entry: (u32, String)| (entry.0, entry.1@)),
                ),
                failures@.len() == 0 ==> forall|i: int|
                    0 <= i < index ==> (#[trigger] filename_issue(models[i].name)) is None,
                forall|i: int|
                    0 <= i < diagnostics@.len() ==> (#[trigger] diagnostics@[i])@.origin
                        != QuadletParseDiagnosticOrigin::DocumentSet,
                failures_ordered(models, failures@.map_values(|f: QuadletParseFailure| f@)),
                failures_before(failures@.map_values(|f: QuadletParseFailure| f@), index as int),
                failures@.len() == 0 ==> source_names@.map_values(|entry: (u32, String)| (entry.0, entry.1@))
                    == input_identities(models.take(index as int)),
            decreases inputs@.len() - index,
        {
            let input = &inputs[index];
            let source_id = input.source_id;
            let ghost failures_before = failures@.map_values(|f: QuadletParseFailure| f@);
            let ghost names_before = source_names@.map_values(|entry: (u32, String)| (entry.0, entry.1@));
            assert(models[index as int] == input@);
            let file = match native_unit_file_name(input.name.as_str()) {
                Ok(file) => file,
                Err(issue) => {
                    failures.push(
                        document_metadata_failure(QuadletParseFailureStage::Filename, index, source_id, issue),
                    );
                    proof {
                        let after = failures@.map_values(|f: QuadletParseFailure| f@);
                        lemma_reports_kept(models, index as int, failures_before, after);
                        assert(after[failures_before.len() as int] == filename_failure(index as int, models[index as int]));
                        assert(after =~= failures_before.push(after[failures_before.len() as int]));
                        lemma_push_input_failure(models, failures_before, after[failures_before.len() as int], index as int);
                    }
                    index += 1;
                    continue;
                },
            };
            let parsed = match native_parse(&file, source_id, input.text.as_str()) {
                Ok(parsed) => parsed,
                Err(span) => {
                    failures.push(typed_model_failure(index, source_id, span));
                    proof {
                        let after = failures@.map_values(|f: QuadletParseFailure| f@);
                        lemma_reports_kept(models, index as int, failures_before, after);
                        assert(after =~= failures_before.push(after[failures_before.len() as int]));
                        lemma_push_input_failure(models, failures_before, after[failures_before.len() as int], index as int);
                    }
                    index += 1;
                    continue;
                },
            };
            append_diagnostics(
                &mut diagnostics,
                copy_diagnostics(QuadletParseDiagnosticOrigin::Syntax, native_syntax_diagnostics(&parsed)),
            );
            append_diagnostics(
                &mut diagnostics,
                copy_diagnostics(QuadletParseDiagnosticOrigin::Model, native_model_diagnostics(&parsed)),
            );
            match native_named_document(&file, &parsed) {
                Ok(named) => {
                    source_names.push((source_id, string_from(chars_of(input.name.as_str()).as_slice())));
                    documents.push(named);
                    proof {
                        let after = source_names@.map_values(|entry: (u32, String)| (entry.0, entry.1@));
                        if failures@.len() == 0 {
                            lemma_identities_kept(models, index as int, names_before, after);
                            assert(after[names_before.len() as int].0 == models[index as int].source_id);
                            assert(recorded(after, models[index as int].source_id));
                            assert(after =~= names_before.push((source_id, input.name@)));
                            assert(models.take(index + 1) =~= models.take(index as int).push(models[index as int]));
                            assert(input_identities(models.take(index + 1)) =~= input_identities(
                                models.take(index as int),
                            ).push((models[index as int].source_id, models[index as int].name)));
                        }
                    }
                },
                Err(issue) => {
                    failures.push(
                        document_metadata_failure(QuadletParseFailureStage::DocumentMetadata, index, source_id, issue),
                    );
                    proof {
                        let after = failures@.map_values(|f: QuadletParseFailure| f@);
                        lemma_reports_kept(models, index as int, failures_before, after);
                        assert(after =~= failures_before.push(after[failures_before.len() as int]));
                        lemma_push_input_failure(models, failures_before, after[failures_before.len() as int], index as int);
                    }
                },
            }
            index += 1;
        }
        let ghost failures_before = failures@.map_values(|f: QuadletParseFailure| f@);
        let set = match native_document_set(documents) {
            Ok(set) => set,
            Err(issue) => {
                failures.push(document_set_failure(issue));
                let ghost all = diagnostics@;
                let error = QuadletParseError { diagnostics, failures };
                proof {
                    lemma_reports_kept(models, inputs@.len() as int, failures_before, error@.failures);
                    lemma_set_diagnostics_last(all, all.len() as int);
                    assert(error@.failures =~= failures_before.push(error@.failures[failures_before.len() as int]));
                    lemma_push_set_failure(
                        models,
                        failures_before,
                        error@.failures[failures_before.len() as int],
                        inputs@.len() as int,
                    );
                }
                return Err(error);
            },
        };
        let ghost before_set = diagnostics@.len();
        append_diagnostics(
            &mut diagnostics,
            copy_diagnostics(QuadletParseDiagnosticOrigin::DocumentSet, native_set_diagnostics(&set)),
        );
        proof {
            lemma_set_diagnostics_last(diagnostics@, before_set as int);
        }
        if has_blocking(&diagnostics) || failures.len() > 0 {
            let ghost diagnostics_seq = diagnostics@;
            let error = QuadletParseError { diagnostics, failures };
            proof {
                if failures_before.len() == 0 {
                    let i = choose|i: int| 0 <= i < diagnostics_seq.len() && blocking(#[trigger] diagnostics_seq[i]@);
                    assert(error@.diagnostics[i] == diagnostics_seq[i]@);
                }
            }
            return Err(error);
        }
        let mut source = QuadletSource::from_validated_documents(application_name, set);
        let ghost idents = source_names@.map_values(|entry: (u32, String)| (entry.0, entry.1@));
        proof {
            assert(models.take(inputs@.len() as int) =~= models);
        }
        let mut k: usize = 0;
        while k < source_names.len()
            invariant
                k <= source_names@.len(),
                source@.application_name == application_name@,
                forall|j: int| 0 <= j < k ==> source@.source_ids.contains_key(#[trigger] source_names@[j].0),
                idents == source_names@.map_values(|entry: (u32, String)| (entry.0, entry.1@)),
                idents == input_identities(models),
                distinct_source_ids(models) ==> forall|j: int|
                    0 <= j < k ==> source@.source_ids[(#[trigger] idents[j]).0] == idents[j].1,
            decreases source_names@.len() - k,
        {
            let (native, name) = (source_names[k].0, source_names[k].1.as_str());
            let ghost before = source@;
            source = source.with_source_id(native, name);
            proof {
                assert(idents[k as int] == (native, name@));
                assert(idents.len() == source_names@.len());
                assert(input_identities(models).len() == models.len());
                if distinct_source_ids(models) {
                    assert forall|j: int| 0 <= j < k + 1 implies source@.source_ids[(#[trigger] idents[j]).0]
                        == idents[j].1 by {
                        if j < k {
                            assert(input_identities(models)[j] == (models[j].source_id, models[j].name));
                            assert(input_identities(models)[k as int] == (
                                models[k as int].source_id,
                                models[k as int].name,
                            ));
                            assert(idents[j] == (models[j].source_id, models[j].name));
                            assert(idents[k as int] == (models[k as int].source_id, models[k as int].name));
                            assert(models[j].source_id != models[k as int].source_id);
                            assert(before.source_ids[idents[j].0] == idents[j].1);
                        }
                    }
                }
            }
            k += 1;
        }
        source.native_findings = findings_of(&diagnostics);
        let result = QuadletParseResult { source, diagnostics };
        proof {
            let names = source_names@.map_values(|entry: (u32, String)| (entry.0, entry.1@));
            assert forall|i: int| 0 <= i < result@.diagnostics.len() implies !blocking(#[trigger] result@.diagnostics[i]) by {
                assert(result@.diagnostics[i] == diagnostics@[i]@);
            }
            assert forall|i: int| 0 <= i < result@.diagnostics.len() implies #[trigger] result@.source.native_findings[i]
                == finding_of(result@.diagnostics[i]) by {
                assert(result@.diagnostics[i] == diagnostics@[i]@);
            }
            assert forall|i: int| 0 <= i < inputs@.len() implies filename_issue((#[trigger] inputs@[i])@.name) is None
                && result@.source.source_ids.contains_key(inputs@[i]@.source_id) by {
                assert(models[i] == inputs@[i]@);
                assert(recorded(names, models[i].source_id));
                let j = choose|j: int| 0 <= j < names.len() && (#[trigger] names[j]).0 == models[i].source_id;
                assert(names[j].0 == source_names@[j].0);
            }
            if distinct_source_ids(models) {
                assert forall|i: int| 0 <= i < inputs@.len() implies result@.source.source_ids[(
                #[trigger] inputs@[i])@.source_id] == inputs@[i]@.name by {
                    assert(models[i] == inputs@[i]@);
                    assert(input_identities(models)[i] == (models[i].source_id, models[i].name));
                    assert(idents[i] == (models[i].source_id, models[i].name));
                }
            }
        }
        Ok(result)
    }
}
} // verus!
