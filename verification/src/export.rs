//! Caller-selected settings of the Quadlet exporter and the source spellings they decide.

use vstd::prelude::*;
use quadlet_lens::capability::{CapabilityCatalogue, CatalogueError};
use crate::grammar::{native_atom, native_atom_chars, safe_mount_part, safe_mount_part_chars, valid_mapping_source};
use crate::mount::{mount_target, mount_text, mount_value, MountSource, MountSpec};
use crate::path::{
    PathForm, classify_path, normalize_absolute_path, normalized_absolute_path, path_form, resolve_relative_path,
    resolved_relative_path,
};
use crate::scalar::{lemma_last_index_of_concat, stem};
use crate::text::{chars_of, has_char, same_chars, string_from};

verus! {

broadcast use vstd::string::group_string_axioms;

#[verifier::external_type_specification]
#[verifier::external_body]
pub struct ExCapabilityCatalogue(CapabilityCatalogue);

#[verifier::external_type_specification]
#[verifier::external_body]
pub struct ExCatalogueError(CatalogueError);

/// Copies a loaded catalogue with its derived `Clone`; nothing is promised of the copy.
pub assume_specification[ <CapabilityCatalogue as Clone>::clone ](catalogue: &CapabilityCatalogue) -> (copy:
    CapabilityCatalogue);

/// Loads the built-in supported-range catalogue with `CapabilityCatalogue::supported_range`.
///
/// The catalogue is embedded data; whether it validates is decided by the outside crate, so the
/// contract promises nothing about the outcome.
#[verifier::external_body]
fn load_supported_range() -> (catalogue: Result<CapabilityCatalogue, CatalogueError>) {
    CapabilityCatalogue::supported_range()
}

/// Caller-selected relationship between source services and generated Quadlet units.
#[derive(Clone, Copy, Debug, Eq, PartialEq, Structural)]
#[non_exhaustive]
pub enum QuadletGroupingPolicy {
    /// Preserve each service as an independently networked `.container` unit.
    SeparateContainers,
    /// Place every service in one application-owned `.pod` unit when declared topology permits.
    SinglePod,
    /// Preserve one application-owned neutral service group as its correspondingly named `.pod`.
    PreserveSingleGroup,
}

impl Default for QuadletGroupingPolicy {
    /// Separate `.container` units: the lossless default.
    fn default() -> (policy: Self)
        ensures
            policy == QuadletGroupingPolicy::SeparateContainers,
    {
        QuadletGroupingPolicy::SeparateContainers
    }
}

/// Ownership of a declared volume or network.
#[derive(Clone, Copy, Debug, Eq, PartialEq, Structural)]
pub enum ResourceOwnership {
    /// Declared and owned by the application; generated as its own unit.
    Application,
    /// Provided outside the application and referenced by name.
    External,
    /// Implied by use without a declaration.
    Implicit,
}

/// Failure while configuring a Quadlet exporter.
#[derive(Debug)]
#[non_exhaustive]
pub enum QuadletExporterError {
    /// The embedded capability catalogue failed validation.
    Catalogue(CatalogueError),
    /// A caller-selected relative bind root was not a safe absolute POSIX path.
    InvalidRelativeBindRoot(String),
    /// An explicit bind-source mapping contained an invalid source or target spelling.
    InvalidBindSourceMapping {
        /// Exact source spelling supplied by the caller.
        source: String,
        /// Requested Quadlet target spelling.
        target: String,
    },
    /// One source spelling was assigned two different target paths.
    ConflictingBindSourceMapping {
        /// Exact source spelling supplied by the caller.
        source: String,
        /// Previously configured target spelling.
        existing: String,
        /// Conflicting replacement target spelling.
        replacement: String,
    },
}

/// Native target adapter settings for validated Podman Quadlet output.
#[derive(Clone, Debug)]
pub struct QuadletExporter {
    catalogue: CapabilityCatalogue,
    relative_bind_root: Option<String>,
    bind_source_mappings: Vec<(String, String)>,
    grouping_policy: QuadletGroupingPolicy,
    pod_name: Option<String>,
}

/// Mathematical model of a [`QuadletExporter`]'s caller-selected settings.
pub struct ExporterModel {
    pub relative_bind_root: Option<Seq<char>>,
    pub bind_source_mappings: Map<Seq<char>, Seq<char>>,
    pub grouping_policy: QuadletGroupingPolicy,
    pub pod_name: Option<Seq<char>>,
}

/// The mapping that a list of `(source, target)` entries denotes; a later entry for a source
/// overrides an earlier one.
pub open spec fn entries_map(entries: Seq<(Seq<char>, Seq<char>)>) -> Map<Seq<char>, Seq<char>>
    decreases entries.len(),
{
    if entries.len() == 0 {
        Map::empty()
    } else {
        entries_map(entries.drop_last()).insert(entries.last().0, entries.last().1)
    }
}

/// The views of `(source, target)` string entries.
pub open spec fn entry_views(entries: Seq<(String, String)>) -> Seq<(Seq<char>, Seq<char>)> {
    entries.map_values(|e: (String, String)| (e.0@, e.1@))
}

pub open spec fn view_option(s: Option<String>) -> Option<Seq<char>> {
    match s {
        Some(v) => Some(v@),
        None => None,
    }
}

impl View for QuadletExporter {
    type V = ExporterModel;

    closed spec fn view(&self) -> ExporterModel {
        ExporterModel {
            relative_bind_root: view_option(self.relative_bind_root),
            bind_source_mappings: entries_map(entry_views(self.bind_source_mappings@)),
            grouping_policy: self.grouping_policy,
            pod_name: view_option(self.pod_name),
        }
    }
}

/// Settings of a freshly created exporter.
pub open spec fn default_settings(model: ExporterModel) -> bool {
    &&& model.relative_bind_root is None
    &&& model.bind_source_mappings == Map::<Seq<char>, Seq<char>>::empty()
    &&& model.grouping_policy == QuadletGroupingPolicy::SeparateContainers
    &&& model.pod_name is None
}

/// How a container bind source spelling is resolved: an explicit mapping first; then an absolute
/// or specifier path of the mount-part set as written; then a unit-relative path against the
/// project root; otherwise the reason it cannot be written.
pub open spec fn container_bind_source(model: ExporterModel, path: Seq<char>) -> Result<Seq<char>, &'static str> {
    if model.bind_source_mappings.contains_key(path) {
        Ok(model.bind_source_mappings[path])
    } else {
        let form = path_form(path);
        if (form == PathForm::AbsoluteLiteral || form == PathForm::SystemdSpecifier) && safe_mount_part(path) {
            Ok(path)
        } else if form == PathForm::UnitRelativeLiteral {
            match model.relative_bind_root {
                Some(root) => match resolved_relative_path(root, path) {
                    Some(resolved) => Ok(resolved),
                    None => Err("relative bind source traverses above the filesystem root"),
                },
                None => Err("relative bind source needs an explicit Compose project root"),
            }
        } else if form == PathForm::RelativeLiteral {
            Err("relative bind form needs an explicit source-to-target mapping")
        } else {
            Err("bind source needs an explicit source-to-target mapping for Quadlet")
        }
    }
}

/// How a pod bind source spelling is resolved: an explicit mapping, or an absolute or specifier
/// path of the mount-part set as written.
pub open spec fn pod_bind_source(model: ExporterModel, path: Seq<char>) -> Result<Seq<char>, &'static str> {
    if model.bind_source_mappings.contains_key(path) {
        Ok(model.bind_source_mappings[path])
    } else {
        let form = path_form(path);
        if (form == PathForm::AbsoluteLiteral || form == PathForm::SystemdSpecifier) && safe_mount_part(path) {
            Ok(path)
        } else {
            Err("pod bind source needs an explicit safe source-to-target mapping")
        }
    }
}

/// How an environment-file path is resolved: absolute paths are normalized; relative paths of
/// the mount-part set that do not start with `~` resolve against the project root.
pub open spec fn environment_file_path(model: ExporterModel, path: Seq<char>) -> Result<Seq<char>, &'static str> {
    let form = path_form(path);
    let resolved = if form == PathForm::AbsoluteLiteral {
        normalized_absolute_path(path)
    } else if (form == PathForm::UnitRelativeLiteral || form == PathForm::RelativeLiteral) && safe_mount_part(
        path,
    ) && !(path.len() > 0 && path[0] == '~') {
        match model.relative_bind_root {
            Some(root) => resolved_relative_path(root, path),
            None => None,
        }
    } else {
        None
    };
    match resolved {
        Some(p) => Ok(p),
        None => if (form == PathForm::UnitRelativeLiteral || form == PathForm::RelativeLiteral)
            && model.relative_bind_root is None {
            Err("relative environment-file path needs an explicit Compose project root")
        } else if form == PathForm::SystemdSpecifier {
            Err("Compose environment-file paths cannot acquire systemd specifier semantics implicitly")
        } else {
            Err("environment-file path is not a safely encodable POSIX path")
        },
    }
}

/// A volume's native source spelling from its declared ownership.
pub open spec fn volume_source(name: Seq<char>, ownership: Option<ResourceOwnership>) -> Result<Seq<char>, &'static str> {
    if !native_atom(name) {
        Err("volume name requires target-specific escaping")
    } else {
        match ownership {
            Some(ResourceOwnership::Application) => Ok(name + seq!['.', 'v', 'o', 'l', 'u', 'm', 'e']),
            Some(ResourceOwnership::External) => Ok(name),
            _ => Err("implicit volume cannot yet be reproduced safely"),
        }
    }
}

/// A network's native source spelling from its declared ownership; `host` is written as is.
pub open spec fn network_source(name: Seq<char>, ownership: Option<ResourceOwnership>) -> Result<Seq<char>, &'static str> {
    if name =~= seq!['h', 'o', 's', 't'] {
        Ok(name)
    } else if !native_atom(name) {
        Err("network name requires target-specific escaping")
    } else {
        match ownership {
            Some(ResourceOwnership::Application) => Ok(name + seq!['.', 'n', 'e', 't', 'w', 'o', 'r', 'k']),
            Some(ResourceOwnership::External) => Ok(name),
            _ => Err("implicit network cannot yet be reproduced safely"),
        }
    }
}

impl From<CatalogueError> for QuadletExporterError {
    fn from(error: CatalogueError) -> (converted: Self) {
        QuadletExporterError::Catalogue(error)
    }
}

impl vstd::std_specs::convert::FromSpecImpl<CatalogueError> for QuadletExporterError {
    open spec fn obeys_from_spec() -> bool {
        true
    }

    open spec fn from_spec(v: CatalogueError) -> QuadletExporterError {
        QuadletExporterError::Catalogue(v)
    }
}

/// The text of a capability catalogue failure, with its `Display` implementation.
///
/// Nothing is claimed of the text: it is the crate's own wording of the failure.
#[verifier::external_body]
fn catalogue_error_text(error: &CatalogueError) -> String {
    format!("{error}")
}

/// `` `text` ``: the text in backticks.
pub open spec fn quoted(text: Seq<char>) -> Seq<char> {
    seq!['`'] + text + seq!['`']
}

fn push_str(out: &mut Vec<char>, text: &str)
    ensures
        final(out)@ == old(out)@ + text@,
{
    crate::mount::push_chars(out, chars_of(text).as_slice());
}

fn push_quoted(out: &mut Vec<char>, text: &str)
    ensures
        final(out)@ == old(out)@ + quoted(text@),
{
    let ghost before = out@;
    out.push('`');
    push_str(out, text);
    out.push('`');
    assert(out@ =~= before + quoted(text@));
}

impl QuadletExporterError {
    /// The human-readable description of this failure.
    pub fn message(&self) -> (message: String)
        ensures
            match self {
                QuadletExporterError::Catalogue(_) => "cannot load Quadlet capability catalogue: "@.is_prefix_of(
                    message@,
                ),
                QuadletExporterError::InvalidRelativeBindRoot(root) => message@ == "invalid absolute relative-bind root "@
                    + quoted(root@),
                QuadletExporterError::InvalidBindSourceMapping { source, target } => message@
                    == "invalid explicit bind-source mapping "@ + quoted(source@) + " to "@ + quoted(target@),
                QuadletExporterError::ConflictingBindSourceMapping { source, existing, replacement } => message@
                    == "conflicting bind-source mapping for "@ + quoted(source@) + ": "@ + quoted(existing@)
                    + " versus "@ + quoted(replacement@),
            },
    {
        let mut out: Vec<char> = Vec::new();
        match self {
            QuadletExporterError::Catalogue(error) => {
                push_str(&mut out, "cannot load Quadlet capability catalogue: ");
                let ghost prefix = out@;
                push_str(&mut out, catalogue_error_text(error).as_str());
                assert(out@.subrange(0, prefix.len() as int) =~= prefix);
            },
            QuadletExporterError::InvalidRelativeBindRoot(root) => {
                push_str(&mut out, "invalid absolute relative-bind root ");
                push_quoted(&mut out, root.as_str());
            },
            QuadletExporterError::InvalidBindSourceMapping { source, target } => {
                push_str(&mut out, "invalid explicit bind-source mapping ");
                push_quoted(&mut out, source.as_str());
                push_str(&mut out, " to ");
                push_quoted(&mut out, target.as_str());
            },
            QuadletExporterError::ConflictingBindSourceMapping { source, existing, replacement } => {
                push_str(&mut out, "conflicting bind-source mapping for ");
                push_quoted(&mut out, source.as_str());
                push_str(&mut out, ": ");
                push_quoted(&mut out, existing.as_str());
                push_str(&mut out, " versus ");
                push_quoted(&mut out, replacement.as_str());
            },
        }
        string_from(out.as_slice())
    }
}

impl QuadletExporter {
    /// The loaded capability catalogue.
    pub closed spec fn loaded_catalogue(&self) -> CapabilityCatalogue {
        self.catalogue
    }

    /// Creates an exporter backed by the built-in capability catalogue, with default settings.
    pub fn new() -> (exporter: Result<Self, QuadletExporterError>)
        ensures
            match exporter {
                Ok(e) => default_settings(e@),
                Err(error) => error is Catalogue,
            },
    {
        match load_supported_range() {
            Ok(catalogue) => {
                let exporter = QuadletExporter {
                    catalogue,
                    relative_bind_root: None,
                    bind_source_mappings: Vec::new(),
                    grouping_policy: QuadletGroupingPolicy::SeparateContainers,
                    pod_name: None,
                };
                assert(entry_views(exporter.bind_source_mappings@) =~= Seq::<(Seq<char>, Seq<char>)>::empty());
                Ok(exporter)
            },
            Err(error) => Err(QuadletExporterError::Catalogue(error)),
        }
    }

    /// Returns the exact capability catalogue used for target planning.
    pub fn catalogue(&self) -> (catalogue: &CapabilityCatalogue)
        ensures
            *catalogue == self.loaded_catalogue(),
    {
        &self.catalogue
    }

    /// Resolves relative bind sources against an explicit absolute project root, which is stored
    /// in normalized form.
    pub fn with_relative_bind_root(self, root: &str) -> (exporter: Result<Self, QuadletExporterError>)
        ensures
            match exporter {
                Ok(e) => normalized_absolute_path(root@) matches Some(n) && e@ == (ExporterModel {
                    relative_bind_root: Some(n),
                    ..self@
                }) && e.loaded_catalogue() == self.loaded_catalogue(),
                Err(QuadletExporterError::InvalidRelativeBindRoot(r)) => normalized_absolute_path(root@) is None
                    && r@ == root@,
                Err(_) => false,
            },
    {
        match normalize_absolute_path(root) {
            Some(normalized) => {
                let mut exporter = self;
                exporter.relative_bind_root = Some(normalized);
                Ok(exporter)
            },
            None => Err(QuadletExporterError::InvalidRelativeBindRoot(string_from(chars_of(root).as_slice()))),
        }
    }

    /// The general form of [`Self::with_relative_bind_root`], also applied to environment files.
    pub fn with_relative_host_path_root(self, root: &str) -> (exporter: Result<Self, QuadletExporterError>)
        ensures
            match exporter {
                Ok(e) => normalized_absolute_path(root@) matches Some(n) && e@ == (ExporterModel {
                    relative_bind_root: Some(n),
                    ..self@
                }) && e.loaded_catalogue() == self.loaded_catalogue(),
                Err(QuadletExporterError::InvalidRelativeBindRoot(r)) => normalized_absolute_path(root@) is None
                    && r@ == root@,
                Err(_) => false,
            },
    {
        self.with_relative_bind_root(root)
    }

    /// Returns the normalized project root, when configured.
    pub fn relative_bind_root(&self) -> (root: Option<&str>)
        ensures
            match root {
                Some(r) => self@.relative_bind_root == Some(r@),
                None => self@.relative_bind_root is None,
            },
    {
        match &self.relative_bind_root {
            Some(root) => Some(root.as_str()),
            None => None,
        }
    }

    /// Returns the normalized project root, when configured.
    pub fn relative_host_path_root(&self) -> (root: Option<&str>)
        ensures
            match root {
                Some(r) => self@.relative_bind_root == Some(r@),
                None => self@.relative_bind_root is None,
            },
    {
        self.relative_bind_root()
    }

    /// Index of the last entry for `source`, which is the one in force.
    fn mapping_index(&self, source: &[char]) -> (index: Option<usize>)
        ensures
            match index {
                Some(i) => i < self.bind_source_mappings@.len() && self@.bind_source_mappings.contains_key(
                    source@,
                ) && self@.bind_source_mappings[source@] == self.bind_source_mappings@[i as int].1@,
                None => !self@.bind_source_mappings.contains_key(source@),
            },
    {
        let ghost entries = entry_views(self.bind_source_mappings@);
        let mut i: usize = self.bind_source_mappings.len();
        while i > 0
            invariant
                i <= self.bind_source_mappings@.len(),
                entries == entry_views(self.bind_source_mappings@),
                forall|j: int| i <= j < entries.len() ==> #[trigger] entries[j].0 != source@,
            decreases i,
        {
            let key = chars_of(self.bind_source_mappings[i - 1].0.as_str());
            if same_chars(key.as_slice(), source) {
                proof {
                    lemma_entries_map_last(entries, i as int, source@);
                }
                return Some(i - 1);
            }
            i -= 1;
        }
        proof {
            lemma_entries_map_absent(entries, source@);
        }
        None
    }

    /// Adds one explicit authored bind-source to target-path mapping.
    pub fn with_bind_source_mapping(self, source: &str, target: &str) -> (exporter: Result<
        Self,
        QuadletExporterError,
    >)
        ensures
            match exporter {
                Ok(e) => valid_mapping_source(source@) && crate::path::bind_source_target(target@)
                    && (!self@.bind_source_mappings.contains_key(source@) || self@.bind_source_mappings[source@]
                    == target@) && e@ == (ExporterModel {
                    bind_source_mappings: self@.bind_source_mappings.insert(source@, target@),
                    ..self@
                }) && e.loaded_catalogue() == self.loaded_catalogue(),
                Err(QuadletExporterError::InvalidBindSourceMapping { source: s, target: t }) => !(
                valid_mapping_source(source@) && crate::path::bind_source_target(target@)) && s@ == source@
                    && t@ == target@,
                Err(QuadletExporterError::ConflictingBindSourceMapping { source: s, existing, replacement }) => {
                    &&& valid_mapping_source(source@) && crate::path::bind_source_target(target@)
                    &&& self@.bind_source_mappings.contains_key(source@)
                    &&& self@.bind_source_mappings[source@] != target@
                    &&& s@ == source@ && existing@ == self@.bind_source_mappings[source@]
                    &&& replacement@ == target@
                },
                Err(_) => false,
            },
    {
        let s = chars_of(source);
        let t = chars_of(target);
        if !(s.len() > 0 && crate::charset::no_char_in(s.as_slice(), crate::charset::Charset::LineBreak))
            || !crate::path::is_valid_quadlet_bind_source(target) {
            return Err(
                QuadletExporterError::InvalidBindSourceMapping {
                    source: string_from(s.as_slice()),
                    target: string_from(t.as_slice()),
                },
            );
        }
        match self.mapping_index(s.as_slice()) {
            Some(i) => {
                let existing = chars_of(self.bind_source_mappings[i].1.as_str());
                if !same_chars(existing.as_slice(), t.as_slice()) {
                    return Err(
                        QuadletExporterError::ConflictingBindSourceMapping {
                            source: string_from(s.as_slice()),
                            existing: string_from(existing.as_slice()),
                            replacement: string_from(t.as_slice()),
                        },
                    );
                }
                proof {
                    assert(self@.bind_source_mappings.insert(source@, target@) =~= self@.bind_source_mappings);
                }
                Ok(self)
            },
            None => {
                let mut exporter = self;
                let ghost before = entry_views(exporter.bind_source_mappings@);
                exporter.bind_source_mappings.push((string_from(s.as_slice()), string_from(t.as_slice())));
                proof {
                    let after = entry_views(exporter.bind_source_mappings@);
                    assert(after.drop_last() =~= before);
                    assert(after.last() == (source@, target@));
                }
                Ok(exporter)
            },
        }
    }

    /// Returns the exact target selected for an authored bind-source spelling.
    pub fn bind_source_mapping(&self, source: &str) -> (target: Option<&str>)
        ensures
            match target {
                Some(t) => self@.bind_source_mappings.contains_key(source@) && self@.bind_source_mappings[source@]
                    == t@,
                None => !self@.bind_source_mappings.contains_key(source@),
            },
    {
        match self.mapping_index(chars_of(source).as_slice()) {
            Some(i) => Some(self.bind_source_mappings[i].1.as_str()),
            None => None,
        }
    }

    /// Selects how services are grouped into native Quadlet units.
    pub fn with_grouping_policy(self, policy: QuadletGroupingPolicy) -> (exporter: Self)
        ensures
            exporter@ == (ExporterModel { grouping_policy: policy, ..self@ }),
            exporter.loaded_catalogue() == self.loaded_catalogue(),
    {
        let mut exporter = self;
        exporter.grouping_policy = policy;
        exporter
    }

    /// Returns the caller-selected service grouping policy.
    pub fn grouping_policy(&self) -> (policy: QuadletGroupingPolicy)
        ensures
            policy == self@.grouping_policy,
    {
        self.grouping_policy
    }

    /// Selects the native name for a caller-requested single Podman pod.
    pub fn with_pod_name(self, name: &str) -> (exporter: Self)
        ensures
            exporter@ == (ExporterModel { pod_name: Some(name@), ..self@ }),
            exporter.loaded_catalogue() == self.loaded_catalogue(),
    {
        let mut exporter = self;
        exporter.pod_name = Some(string_from(chars_of(name).as_slice()));
        exporter
    }

    /// Returns the caller-selected native pod name, when one was supplied.
    pub fn pod_name(&self) -> (name: Option<&str>)
        ensures
            match name {
                Some(n) => self@.pod_name == Some(n@),
                None => self@.pod_name is None,
            },
    {
        match &self.pod_name {
            Some(name) => Some(name.as_str()),
            None => None,
        }
    }

    /// Resolves the host-path source of a container mount.
    pub fn container_bind_source(&self, path: &str) -> (source: Result<String, &'static str>)
        ensures
            match source {
                Ok(s) => container_bind_source(self@, path@) == Ok::<Seq<char>, &'static str>(s@),
                Err(reason) => container_bind_source(self@, path@) == Err::<Seq<char>, &'static str>(reason),
            },
    {
        let p = chars_of(path);
        if let Some(i) = self.mapping_index(p.as_slice()) {
            return Ok(string_from(chars_of(self.bind_source_mappings[i].1.as_str()).as_slice()));
        }
        let form = classify_path(path);
        if (form == PathForm::AbsoluteLiteral || form == PathForm::SystemdSpecifier) && safe_mount_part_chars(
            p.as_slice(),
        ) {
            return Ok(string_from(p.as_slice()));
        }
        if form == PathForm::UnitRelativeLiteral {
            return match &self.relative_bind_root {
                Some(root) => match resolve_relative_path(root.as_str(), path) {
                    Some(resolved) => Ok(resolved),
                    None => Err("relative bind source traverses above the filesystem root"),
                },
                None => Err("relative bind source needs an explicit Compose project root"),
            };
        }
        if form == PathForm::RelativeLiteral {
            Err("relative bind form needs an explicit source-to-target mapping")
        } else {
            Err("bind source needs an explicit source-to-target mapping for Quadlet")
        }
    }

    /// Resolves the host-path source of a pod mount.
    pub fn pod_bind_source(&self, path: &str) -> (source: Result<String, &'static str>)
        ensures
            match source {
                Ok(s) => pod_bind_source(self@, path@) == Ok::<Seq<char>, &'static str>(s@),
                Err(reason) => pod_bind_source(self@, path@) == Err::<Seq<char>, &'static str>(reason),
            },
    {
        let p = chars_of(path);
        if let Some(i) = self.mapping_index(p.as_slice()) {
            return Ok(string_from(chars_of(self.bind_source_mappings[i].1.as_str()).as_slice()));
        }
        let form = classify_path(path);
        if (form == PathForm::AbsoluteLiteral || form == PathForm::SystemdSpecifier) && safe_mount_part_chars(
            p.as_slice(),
        ) {
            Ok(string_from(p.as_slice()))
        } else {
            Err("pod bind source needs an explicit safe source-to-target mapping")
        }
    }

    /// Resolves a required environment-file path.
    pub fn environment_file_path(&self, path: &str) -> (resolved: Result<String, &'static str>)
        ensures
            match resolved {
                Ok(s) => environment_file_path(self@, path@) == Ok::<Seq<char>, &'static str>(s@),
                Err(reason) => environment_file_path(self@, path@) == Err::<Seq<char>, &'static str>(reason),
            },
    {
        let p = chars_of(path);
        let form = classify_path(path);
        let resolved = if form == PathForm::AbsoluteLiteral {
            normalize_absolute_path(path)
        } else if (form == PathForm::UnitRelativeLiteral || form == PathForm::RelativeLiteral)
            && safe_mount_part_chars(p.as_slice()) && !(p.len() > 0 && p[0] == '~') {
            match &self.relative_bind_root {
                Some(root) => resolve_relative_path(root.as_str(), path),
                None => None,
            }
        } else {
            None
        };
        match resolved {
            Some(r) => Ok(r),
            None => if (form == PathForm::UnitRelativeLiteral || form == PathForm::RelativeLiteral)
                && self.relative_bind_root.is_none() {
                Err("relative environment-file path needs an explicit Compose project root")
            } else if form == PathForm::SystemdSpecifier {
                Err("Compose environment-file paths cannot acquire systemd specifier semantics implicitly")
            } else {
                Err("environment-file path is not a safely encodable POSIX path")
            },
        }
    }
}

/// The unit filename `stem.extension`, when the stem is a native atom.
pub open spec fn unit_file_name_spec(stem: Seq<char>, extension: Seq<char>) -> Option<Seq<char>> {
    if native_atom(stem) {
        Some(stem + seq!['.'] + extension)
    } else {
        None
    }
}

/// Explicit mappings take precedence: once a source spelling is mapped to a target, both the
/// container and the pod bind source of that spelling are that target, whatever its form and
/// whatever project root is set.
pub proof fn lemma_mapping_precedence(model: ExporterModel, source: Seq<char>, target: Seq<char>)
    ensures
        container_bind_source(
            ExporterModel { bind_source_mappings: model.bind_source_mappings.insert(source, target), ..model },
            source,
        ) == Ok::<Seq<char>, &'static str>(target),
        pod_bind_source(
            ExporterModel { bind_source_mappings: model.bind_source_mappings.insert(source, target), ..model },
            source,
        ) == Ok::<Seq<char>, &'static str>(target),
{
}

/// The stem of a generated unit filename is the name it was generated from, when the extension
/// holds no `.`.
pub proof fn lemma_unit_file_stem(name: Seq<char>, extension: Seq<char>)
    requires
        native_atom(name),
        !has_char(extension, '.'),
    ensures
        unit_file_name_spec(name, extension) is Some,
        stem(unit_file_name_spec(name, extension)->Some_0) == name,
{
    lemma_last_index_of_concat(name, extension, '.');
    assert((name + seq!['.'] + extension).take(name.len() as int) =~= name);
}

/// The mount value written for a container (`pod == false`) or pod mount, with the ownership of
/// the named volume it uses, if any.
pub open spec fn mount_entry(
    model: ExporterModel,
    mount: crate::mount::MountModel,
    volume_ownership: Option<ResourceOwnership>,
    pod: bool,
) -> Result<Seq<char>, &'static str> {
    if !mount_target(mount.target) {
        if pod {
            Err("pod mount target is not a safely encoded absolute path")
        } else {
            Err("container mount target is not a safely encoded absolute path")
        }
    } else {
        let source = match mount.source {
            crate::mount::MountSourceModel::Volume(name) => volume_source(name, volume_ownership),
            crate::mount::MountSourceModel::HostPath(path) => if pod {
                pod_bind_source(model, path)
            } else {
                container_bind_source(model, path)
            },
            crate::mount::MountSourceModel::Anonymous => Ok(Seq::empty()),
        };
        match source {
            Ok(src) => Ok(mount_text(src, mount.target, mount.read_only, mount.relabel)),
            Err(reason) => Err(reason),
        }
    }
}

fn with_suffix(name: &[char], suffix: &[char]) -> (text: String)
    ensures
        text@ == name@ + suffix@,
{
    let mut out: Vec<char> = Vec::new();
    crate::mount::push_chars(&mut out, name);
    crate::mount::push_chars(&mut out, suffix);
    string_from(out.as_slice())
}

/// The native source spelling of a volume with the given declared ownership.
pub fn volume_source_name(name: &str, ownership: Option<ResourceOwnership>) -> (source: Result<String, &'static str>)
    ensures
        match source {
            Ok(s) => volume_source(name@, ownership) == Ok::<Seq<char>, &'static str>(s@),
            Err(reason) => volume_source(name@, ownership) == Err::<Seq<char>, &'static str>(reason),
        },
{
    let n = chars_of(name);
    if !native_atom_chars(n.as_slice()) {
        return Err("volume name requires target-specific escaping");
    }
    let suffix: [char; 7] = ['.', 'v', 'o', 'l', 'u', 'm', 'e'];
    assert(suffix@ =~= seq!['.', 'v', 'o', 'l', 'u', 'm', 'e']);
    match ownership {
        Some(ResourceOwnership::Application) => Ok(with_suffix(n.as_slice(), suffix.as_slice())),
        Some(ResourceOwnership::External) => Ok(string_from(n.as_slice())),
        _ => Err("implicit volume cannot yet be reproduced safely"),
    }
}

/// The native source spelling of a network with the given declared ownership.
pub fn network_source_name(name: &str, ownership: Option<ResourceOwnership>) -> (source: Result<String, &'static str>)
    ensures
        match source {
            Ok(s) => network_source(name@, ownership) == Ok::<Seq<char>, &'static str>(s@),
            Err(reason) => network_source(name@, ownership) == Err::<Seq<char>, &'static str>(reason),
        },
{
    let n = chars_of(name);
    let host: [char; 4] = ['h', 'o', 's', 't'];
    assert(host@ =~= seq!['h', 'o', 's', 't']);
    if same_chars(n.as_slice(), host.as_slice()) {
        return Ok(string_from(n.as_slice()));
    }
    if !native_atom_chars(n.as_slice()) {
        return Err("network name requires target-specific escaping");
    }
    let suffix: [char; 8] = ['.', 'n', 'e', 't', 'w', 'o', 'r', 'k'];
    assert(suffix@ =~= seq!['.', 'n', 'e', 't', 'w', 'o', 'r', 'k']);
    match ownership {
        Some(ResourceOwnership::Application) => Ok(with_suffix(n.as_slice(), suffix.as_slice())),
        Some(ResourceOwnership::External) => Ok(string_from(n.as_slice())),
        _ => Err("implicit network cannot yet be reproduced safely"),
    }
}

/// The unit filename `stem.extension`, when the stem is a native atom.
pub fn unit_file_name(stem: &str, extension: &str) -> (name: Option<String>)
    ensures
        match name {
            Some(n) => unit_file_name_spec(stem@, extension@) == Some(n@),
            None => unit_file_name_spec(stem@, extension@) is None,
        },
{
    let s = chars_of(stem);
    if !native_atom_chars(s.as_slice()) {
        return None;
    }
    let mut out: Vec<char> = Vec::new();
    crate::mount::push_chars(&mut out, s.as_slice());
    out.push('.');
    crate::mount::push_chars(&mut out, chars_of(extension).as_slice());
    Some(string_from(out.as_slice()))
}

impl QuadletExporter {
    /// The `Volume=` value written for a container (`pod == false`) or pod mount.
    pub fn mount_entry(&self, mount: &MountSpec, volume_ownership: Option<ResourceOwnership>, pod: bool) -> (entry:
        Result<String, &'static str>)
        ensures
            match entry {
                Ok(e) => mount_entry(self@, mount@, volume_ownership, pod) == Ok::<Seq<char>, &'static str>(e@),
                Err(reason) => mount_entry(self@, mount@, volume_ownership, pod) == Err::<Seq<char>, &'static str>(
                    reason,
                ),
            },
    {
        let target = chars_of(mount.target.as_str());
        if !(target.len() > 0 && target[0] == '/' && safe_mount_part_chars(target.as_slice())) {
            return if pod {
                Err("pod mount target is not a safely encoded absolute path")
            } else {
                Err("container mount target is not a safely encoded absolute path")
            };
        }
        let source = match &mount.source {
            MountSource::Volume(name) => volume_source_name(name.as_str(), volume_ownership),
            MountSource::HostPath(path) => if pod {
                self.pod_bind_source(path.as_str())
            } else {
                self.container_bind_source(path.as_str())
            },
            MountSource::Anonymous => Ok(String::new()),
        };
        match source {
            Ok(src) => Ok(mount_value(src.as_str(), mount.target.as_str(), mount.read_only, mount.relabel)),
            Err(reason) => Err(reason),
        }
    }
}

/// When no entry from `i` on has key `k`, the entry at `i - 1` with key `k` decides the map.
proof fn lemma_entries_map_last(entries: Seq<(Seq<char>, Seq<char>)>, i: int, k: Seq<char>)
    requires
        0 < i <= entries.len(),
        entries[i - 1].0 == k,
        forall|j: int| i <= j < entries.len() ==> #[trigger] entries[j].0 != k,
    ensures
        entries_map(entries).contains_key(k),
        entries_map(entries)[k] == entries[i - 1].1,
    decreases entries.len(),
{
    if entries.len() > i {
        let prev = entries.drop_last();
        assert(entries.last().0 != k) by {
            assert(entries[entries.len() - 1] == entries.last());
        }
        assert forall|j: int| i <= j < prev.len() implies #[trigger] prev[j].0 != k by {
            assert(prev[j] == entries[j]);
        }
        lemma_entries_map_last(prev, i, k);
    }
}

/// A key that no entry carries is absent from the map.
proof fn lemma_entries_map_absent(entries: Seq<(Seq<char>, Seq<char>)>, k: Seq<char>)
    requires
        forall|j: int| 0 <= j < entries.len() ==> #[trigger] entries[j].0 != k,
    ensures
        !entries_map(entries).contains_key(k),
    decreases entries.len(),
{
    if entries.len() > 0 {
        let prev = entries.drop_last();
        assert forall|j: int| 0 <= j < prev.len() implies #[trigger] prev[j].0 != k by {
            assert(prev[j] == entries[j]);
        }
        lemma_entries_map_absent(prev, k);
        assert(entries.last().0 != k) by {
            assert(entries[entries.len() - 1] == entries.last());
        }
    }
}

/// How a network is named from a unit: an application-owned network by the filename of the
/// `.network` unit generated for it (the same name [`unit_file_name_spec`] gives that unit), an
/// external network by its bare name, and `host` as itself whatever its ownership; only
/// application ownership adds a unit suffix. Volumes are named the same way with `.volume`.
pub proof fn lemma_source_names_follow_ownership(name: Seq<char>)
    requires
        native_atom(name),
    ensures
        !(name =~= seq!['h', 'o', 's', 't']) ==> network_source(name, Some(ResourceOwnership::External)) == Ok::<
            Seq<char>,
            &'static str,
        >(name),
        !(name =~= seq!['h', 'o', 's', 't']) ==> network_source(name, Some(ResourceOwnership::Application)) == Ok::<
            Seq<char>,
            &'static str,
        >(unit_file_name_spec(name, seq!['n', 'e', 't', 'w', 'o', 'r', 'k'])->Some_0),
        unit_file_name_spec(name, seq!['n', 'e', 't', 'w', 'o', 'r', 'k']) is Some,
        volume_source(name, Some(ResourceOwnership::External)) == Ok::<Seq<char>, &'static str>(name),
        volume_source(name, Some(ResourceOwnership::Application)) == Ok::<Seq<char>, &'static str>(
            unit_file_name_spec(name, seq!['v', 'o', 'l', 'u', 'm', 'e'])->Some_0,
        ),
        unit_file_name_spec(name, seq!['v', 'o', 'l', 'u', 'm', 'e']) is Some,
        network_source(seq!['h', 'o', 's', 't'], Some(ResourceOwnership::External)) == Ok::<Seq<char>, &'static str>(
            seq!['h', 'o', 's', 't'],
        ),
        network_source(seq!['h', 'o', 's', 't'], Some(ResourceOwnership::Application)) == Ok::<
            Seq<char>,
            &'static str,
        >(seq!['h', 'o', 's', 't']),
{
    assert(seq!['.'] + seq!['n', 'e', 't', 'w', 'o', 'r', 'k'] =~= seq!['.', 'n', 'e', 't', 'w', 'o', 'r', 'k']);
    assert(name + seq!['.'] + seq!['n', 'e', 't', 'w', 'o', 'r', 'k'] =~= name + seq!['.', 'n', 'e', 't', 'w', 'o', 'r', 'k']);
    assert(name + seq!['.'] + seq!['v', 'o', 'l', 'u', 'm', 'e'] =~= name + seq!['.', 'v', 'o', 'l', 'u', 'm', 'e']);
}

} // verus!
