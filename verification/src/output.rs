//! The validated set of generated unit files.

use vstd::prelude::*;
use quadlet_lens::model::{NamedQuadletDocument, QuadletDocumentSet, UnitFileName};
use quadlet_lens::render::GeneratedQuadletDocument;
use crate::source::{document_set_issue, filename_issue, native_document_set, native_unit_file_name, DocumentSetIssue};
use crate::text::{chars_of, same_chars, string_from};

verus! {

broadcast use vstd::string::group_string_axioms;

#[verifier::external_type_specification]
#[verifier::external_body]
pub struct ExGeneratedQuadletDocument(GeneratedQuadletDocument);

/// The generated source text of a document, with `GeneratedQuadletDocument::text`.
///
/// Nothing is claimed of the text: it is what the crate's renderer produced.
#[verifier::external_body]
fn generated_text(generated: &GeneratedQuadletDocument) -> String {
    generated.text().to_owned()
}

/// Pairs a generated document with its basename, with `NamedQuadletDocument::new` on a copy of
/// `GeneratedQuadletDocument::document`.
///
/// A refused basename fails as `UnitFileName::new` refuses it; a valid one can fail only when its
/// suffix and the typed document kind differ, which is the crate's check and not claimed here.
#[verifier::external_body]
fn generated_named_document(name: &str, generated: &GeneratedQuadletDocument) -> (named: Result<
    NamedQuadletDocument,
    DocumentSetIssue,
>)
    ensures
        named matches Err(issue) ==> filename_issue(name@) == Some(issue) || (filename_issue(name@) is None && issue
            == DocumentSetIssue::UnitTypeMismatch),
        filename_issue(name@) is Some ==> named is Err,
{
    match NamedQuadletDocument::new(name, generated.document().clone()) {
        Ok(named) => Ok(named),
        Err(error) => Err(document_set_issue(&error)),
    }
}

/// One generated Quadlet file whose contents passed native parse-back validation.
#[derive(Clone, PartialEq, Eq)]
pub struct QuadletFile {
    name: UnitFileName,
    basename: String,
    text: String,
}

/// Mathematical model of a [`QuadletFile`]: its basename and its text.
pub struct FileModel {
    pub name: Seq<char>,
    pub text: Seq<char>,
}

impl View for QuadletFile {
    type V = FileModel;

    closed spec fn view(&self) -> FileModel {
        FileModel { name: self.basename@, text: self.text@ }
    }
}

impl QuadletFile {
    /// The validated unit filename this file was created with.
    pub closed spec fn unit_file_name(&self) -> UnitFileName {
        self.name
    }

    /// Returns the validated unit-file basename.
    pub fn name(&self) -> (name: &UnitFileName)
        ensures
            *name == self.unit_file_name(),
    {
        &self.name
    }

    /// Explicitly exposes the generated file contents.
    ///
    /// Generated files may contain environment values and other sensitive application data.
    pub fn text(&self) -> (text: &str)
        ensures
            text@ == self@.text,
    {
        self.text.as_str()
    }
}

/// Deterministically ordered generated files and their validated dependency graph.
#[derive(Clone, PartialEq, Eq)]
pub struct QuadletOutput {
    files: Vec<QuadletFile>,
    documents: QuadletDocumentSet,
}

/// The models of a list of files.
pub open spec fn file_models(files: Seq<QuadletFile>) -> Seq<FileModel> {
    files.map_values(|f: QuadletFile| f@)
}

/// The index of the first file named `name`, or `-1`.
pub open spec fn first_named(files: Seq<FileModel>, name: Seq<char>) -> int
    decreases files.len(),
{
    if files.len() == 0 {
        -1
    } else if first_named(files.drop_last(), name) >= 0 {
        first_named(files.drop_last(), name)
    } else if files.last().name == name {
        files.len() - 1
    } else {
        -1
    }
}

impl View for QuadletOutput {
    type V = Seq<FileModel>;

    closed spec fn view(&self) -> Seq<FileModel> {
        file_models(self.files@)
    }
}

proof fn lemma_first_named_prefix(files: Seq<FileModel>, name: Seq<char>, k: int)
    requires
        0 <= k <= files.len(),
        forall|j: int| 0 <= j < k ==> (#[trigger] files[j]).name != name,
    ensures
        first_named(files.take(k), name) == -1,
    decreases k,
{
    if k > 0 {
        assert(files.take(k).drop_last() =~= files.take(k - 1));
        lemma_first_named_prefix(files, name, k - 1);
        assert(files.take(k).last() == files[k - 1]);
    }
}

proof fn lemma_first_named_extend(files: Seq<FileModel>, name: Seq<char>, k: int)
    requires
        0 <= k <= files.len(),
        first_named(files.take(k), name) >= 0,
    ensures
        first_named(files, name) == first_named(files.take(k), name),
    decreases files.len() - k,
{
    if k < files.len() {
        assert(files.take(k + 1).drop_last() =~= files.take(k));
        lemma_first_named_extend(files, name, k + 1);
    } else {
        assert(files.take(k) =~= files);
    }
}

impl QuadletOutput {
    /// Validates generated documents: each basename is a unit filename, each pairs with its
    /// document, and the documents form a valid set; the files keep the given order.
    pub fn from_generated(generated: Vec<(String, GeneratedQuadletDocument)>) -> (output: Result<
        Self,
        DocumentSetIssue,
    >)
        ensures
            output is Ok ==> output->Ok_0@.len() == generated@.len() && forall|i: int|
                0 <= i < generated@.len() ==> filename_issue((#[trigger] generated@[i]).0@) is None
                    && output->Ok_0@[i].name == generated@[i].0@,
            (exists|i: int| 0 <= i < generated@.len() && (#[trigger] filename_issue(generated@[i].0@)) is Some)
                ==> output is Err,
            generated@.len() > 0 && filename_issue(generated@[0].0@) is Some ==> output == Err::<Self, DocumentSetIssue>(
                filename_issue(generated@[0].0@)->Some_0,
            ),
            output matches Err(issue) ==> (exists|i: int|
                0 <= i < generated@.len() && #[trigger] filename_issue(generated@[i].0@) == Some(issue))
                || issue == DocumentSetIssue::UnitTypeMismatch || issue is DuplicateSourceId,
    {
        let mut files: Vec<QuadletFile> = Vec::new();
        let mut documents: Vec<NamedQuadletDocument> = Vec::new();
        let mut i: usize = 0;
        while i < generated.len()
            invariant
                i <= generated@.len(),
                files@.len() == i,
                forall|j: int|
                    0 <= j < i ==> filename_issue((#[trigger] generated@[j]).0@) is None && files@[j]@.name
                        == generated@[j].0@,
            decreases generated@.len() - i,
        {
            let name = generated[i].0.as_str();
            let file_name = match native_unit_file_name(name) {
                Ok(file_name) => file_name,
                Err(issue) => {
                    assert(filename_issue(generated@[i as int].0@) == Some(issue));
                    return Err(issue);
                },
            };
            let named = match generated_named_document(name, &generated[i].1) {
                Ok(named) => named,
                Err(issue) => {
                    return Err(issue);
                },
            };
            documents.push(named);
            files.push(
                QuadletFile {
                    name: file_name,
                    basename: string_from(chars_of(name).as_slice()),
                    text: generated_text(&generated[i].1),
                },
            );
            i += 1;
        }
        match native_document_set(documents) {
            Ok(documents) => Ok(QuadletOutput { files, documents }),
            Err(issue) => Err(issue),
        }
    }

    /// Returns generated files in deterministic network, volume, optional pod, then service
    /// order.
    pub fn files(&self) -> (files: &[QuadletFile])
        ensures
            file_models(files@) == self@,
    {
        self.files.as_slice()
    }

    /// Returns the first generated file with exactly this basename.
    pub fn file(&self, name: &str) -> (file: Option<&QuadletFile>)
        ensures
            match file {
                Some(f) => first_named(self@, name@) >= 0 && f@ == self@[first_named(self@, name@)],
                None => first_named(self@, name@) == -1,
            },
    {
        let wanted = chars_of(name);
        let ghost models = file_models(self.files@);
        let mut k: usize = 0;
        while k < self.files.len()
            invariant
                k <= self.files@.len(),
                models == file_models(self.files@),
                wanted@ == name@,
                forall|j: int| 0 <= j < k ==> (#[trigger] models[j]).name != name@,
            decreases self.files@.len() - k,
        {
            let basename = chars_of(self.files[k].basename.as_str());
            if same_chars(basename.as_slice(), wanted.as_slice()) {
                proof {
                    lemma_first_named_prefix(models, name@, k as int);
                    assert(models.take(k + 1).drop_last() =~= models.take(k as int));
                    assert(models.take(k + 1).last() == models[k as int]);
                    assert(first_named(models.take(k + 1), name@) == k);
                    lemma_first_named_extend(models, name@, k + 1);
                }
                return Some(&self.files[k]);
            }
            k += 1;
        }
        proof {
            lemma_first_named_prefix(models, name@, models.len() as int);
            assert(models.take(models.len() as int) =~= models);
        }
        None
    }

    /// The validated native document set of these files.
    pub closed spec fn document_graph(&self) -> QuadletDocumentSet {
        self.documents
    }

    /// Returns the parse-back-validated native document set and dependency graph.
    pub fn document_set(&self) -> (documents: &QuadletDocumentSet)
        ensures
            *documents == self.document_graph(),
    {
        &self.documents
    }
}

} // verus!
