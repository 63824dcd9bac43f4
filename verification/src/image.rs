//! A container's filesystem source: the one `Rootfs=` or `Image=` entry written for the root
//! filesystem, direct image, image unit or build unit that a service names.

use vstd::prelude::*;
use crate::grammar::{is_safe_absolute_container_path, is_safe_word, safe_absolute_container_path, safe_word};
use crate::scalar::{lemma_last_index_of_concat, stem};
use crate::text::{chars_of, has_char, same_chars, string_from};

verus! {

broadcast use vstd::string::group_string_axioms;

/// The filesystem sources a service names, and the image tags declared by the image build it
/// names (empty when that build is not declared).
#[derive(Clone, Debug, PartialEq, Eq)]
pub struct ImageSources {
    pub rootfs: Option<String>,
    pub image: Option<String>,
    pub acquisition: Option<String>,
    pub build: Option<String>,
    pub build_tags: Vec<String>,
}

/// Mathematical model of [`ImageSources`].
pub struct SourcesModel {
    pub rootfs: Option<Seq<char>>,
    pub image: Option<Seq<char>>,
    pub acquisition: Option<Seq<char>>,
    pub build: Option<Seq<char>>,
    pub build_tags: Seq<Seq<char>>,
}

/// The view of an optional string.
pub open spec fn opt_view(value: Option<String>) -> Option<Seq<char>> {
    match value {
        Some(v) => Some(v@),
        None => None,
    }
}

impl View for ImageSources {
    type V = SourcesModel;

    open spec fn view(&self) -> SourcesModel {
        SourcesModel {
            rootfs: opt_view(self.rootfs),
            image: opt_view(self.image),
            acquisition: opt_view(self.acquisition),
            build: opt_view(self.build),
            build_tags: self.build_tags@.map_values(|t: String| t@),
        }
    }
}

/// The entry that carries a container's filesystem source.
#[derive(Clone, Copy, Debug, PartialEq, Eq, Structural)]
pub enum ImageKey {
    /// `Rootfs=`.
    Rootfs,
    /// `Image=`.
    Image,
}

/// Why no filesystem-source entry is written.
#[derive(Clone, Copy, Debug, PartialEq, Eq, Structural)]
pub enum ImageSourceIssue {
    /// A root filesystem is named together with an image source.
    RootfsConflict,
    /// The root filesystem is not a safe absolute literal path.
    UnsafeRootfs,
    /// Not exactly one image source is named, and the pair named is not an image with the build
    /// that tags it.
    SourceCount,
    /// The direct image reference is not one safe word.
    UnsafeImage,
}

impl ImageSourceIssue {
    /// Whether the issue makes the service invalid, rather than leaving the source unsupported.
    pub fn is_invalid(self) -> (invalid: bool)
        ensures
            invalid == (self != ImageSourceIssue::UnsafeRootfs),
    {
        !matches!(self, ImageSourceIssue::UnsafeRootfs)
    }

    /// The field the issue is about: `rootfs` or `image`.
    pub fn field(self) -> (field: &'static str)
        ensures
            field@ == match self {
                ImageSourceIssue::RootfsConflict | ImageSourceIssue::UnsafeRootfs => "rootfs"@,
                _ => "image"@,
            },
    {
        match self {
            ImageSourceIssue::RootfsConflict | ImageSourceIssue::UnsafeRootfs => "rootfs",
            _ => "image",
        }
    }

    /// What is wrong.
    pub fn summary(self) -> (summary: &'static str)
        ensures
            summary@ == match self {
                ImageSourceIssue::RootfsConflict => "Rootfs conflicts with every image source"@,
                ImageSourceIssue::UnsafeRootfs => "Rootfs requires a safe absolute literal path"@,
                ImageSourceIssue::SourceCount => "Quadlet container generation requires exactly one image source"@,
                ImageSourceIssue::UnsafeImage => "image reference cannot be emitted as an exact one-line Quadlet value"@,
            },
    {
        match self {
            ImageSourceIssue::RootfsConflict => "Rootfs conflicts with every image source",
            ImageSourceIssue::UnsafeRootfs => "Rootfs requires a safe absolute literal path",
            ImageSourceIssue::SourceCount => "Quadlet container generation requires exactly one image source",
            ImageSourceIssue::UnsafeImage => "image reference cannot be emitted as an exact one-line Quadlet value",
        }
    }

    /// How to resolve an invalid source; `None` for an unsupported one.
    pub fn remedy(self) -> (remedy: Option<&'static str>)
        ensures
            match self {
                ImageSourceIssue::RootfsConflict => remedy matches Some(r) && r@
                    == "remove the image, image acquisition, or image build reference before emitting Rootfs"@,
                ImageSourceIssue::UnsafeRootfs => remedy is None,
                ImageSourceIssue::SourceCount => remedy matches Some(r) && r@
                    == "a direct image may accompany only the image build that declares it as a nonempty ImageTag"@,
                ImageSourceIssue::UnsafeImage => remedy matches Some(r) && r@
                    == "image spelling contains unsupported whitespace or control syntax"@,
            },
    {
        match self {
            ImageSourceIssue::RootfsConflict => Some(
                "remove the image, image acquisition, or image build reference before emitting Rootfs",
            ),
            ImageSourceIssue::UnsafeRootfs => None,
            ImageSourceIssue::SourceCount => Some(
                "a direct image may accompany only the image build that declares it as a nonempty ImageTag",
            ),
            ImageSourceIssue::UnsafeImage => Some("image spelling contains unsupported whitespace or control syntax"),
        }
    }
}

/// The suffix of an image unit: `.image`.
pub open spec fn image_suffix() -> Seq<char> {
    seq!['.', 'i', 'm', 'a', 'g', 'e']
}

/// The suffix of a build unit: `.build`.
pub open spec fn build_suffix() -> Seq<char> {
    seq!['.', 'b', 'u', 'i', 'l', 'd']
}

/// Whether `tags` declares `image` as a non-empty tag.
pub open spec fn declares_tag(tags: Seq<Seq<char>>, image: Seq<char>) -> bool {
    exists|k: int| 0 <= k < tags.len() && #[trigger] tags[k] == image && image.len() > 0
}

/// A direct image together with the build that tags it, and no image unit.
pub open spec fn tagged_build_pair(s: SourcesModel) -> bool {
    &&& s.acquisition is None
    &&& s.build is Some
    &&& s.image matches Some(i) && declares_tag(s.build_tags, i)
}

/// How many image sources are named.
pub open spec fn source_count(s: SourcesModel) -> int {
    (if s.image is Some { 1int } else { 0 }) + (if s.acquisition is Some { 1int } else { 0 }) + (if s.build is Some {
        1int
    } else {
        0
    })
}

/// The entry written for a service's filesystem source. A root filesystem stands alone and must
/// be a safe absolute path. Otherwise exactly one image source is named, or a direct image with
/// the build that tags it, which is written as the build unit; a direct image must be one safe
/// word, and an image unit or build unit is written as its unit filename.
pub open spec fn image_entry_spec(s: SourcesModel) -> Result<(ImageKey, Seq<char>), ImageSourceIssue> {
    if s.rootfs is Some {
        if s.image is Some || s.acquisition is Some || s.build is Some {
            Err(ImageSourceIssue::RootfsConflict)
        } else if !safe_absolute_container_path(s.rootfs->Some_0) {
            Err(ImageSourceIssue::UnsafeRootfs)
        } else {
            Ok((ImageKey::Rootfs, s.rootfs->Some_0))
        }
    } else if !(source_count(s) == 1 || tagged_build_pair(s)) {
        Err(ImageSourceIssue::SourceCount)
    } else if tagged_build_pair(s) {
        Ok((ImageKey::Image, s.build->Some_0 + build_suffix()))
    } else if s.image is Some {
        if safe_word(s.image->Some_0, false) {
            Ok((ImageKey::Image, s.image->Some_0))
        } else {
            Err(ImageSourceIssue::UnsafeImage)
        }
    } else if s.acquisition is Some {
        Ok((ImageKey::Image, s.acquisition->Some_0 + image_suffix()))
    } else {
        Ok((ImageKey::Image, s.build->Some_0 + build_suffix()))
    }
}

fn build_declares(tags: &Vec<String>, image: &str) -> (declared: bool)
    ensures
        declared == declares_tag(tags@.map_values(|t: String| t@), image@),
{
    let ghost views = tags@.map_values(|t: String| t@);
    let target = chars_of(image);
    if target.len() == 0 {
        return false;
    }
    let mut k: usize = 0;
    while k < tags.len()
        invariant
            k <= tags@.len(),
            views == tags@.map_values(|t: String| t@),
            target@ == image@,
            image@.len() > 0,
            forall|j: int| 0 <= j < k ==> views[j] != image@,
        decreases tags@.len() - k,
    {
        if same_chars(chars_of(tags[k].as_str()).as_slice(), target.as_slice()) {
            assert(views[k as int] == image@);
            return true;
        }
        k += 1;
    }
    false
}

fn with_suffix(name: &str, suffix: &[char]) -> (text: String)
    ensures
        text@ == name@ + suffix@,
{
    let mut all = chars_of(name);
    let mut k: usize = 0;
    while k < suffix.len()
        invariant
            k <= suffix@.len(),
            all@ == name@ + suffix@.take(k as int),
        decreases suffix@.len() - k,
    {
        all.push(suffix[k]);
        k += 1;
        assert(all@ =~= name@ + suffix@.take(k as int));
    }
    assert(suffix@.take(suffix@.len() as int) =~= suffix@);
    string_from(all.as_slice())
}

/// The entry written for the filesystem source of a service.
pub fn image_entry(sources: &ImageSources) -> (entry: Result<(ImageKey, String), ImageSourceIssue>)
    ensures
        match entry {
            Ok((key, value)) => image_entry_spec(sources@) == Ok::<(ImageKey, Seq<char>), ImageSourceIssue>(
                (key, value@),
            ),
            Err(issue) => image_entry_spec(sources@) == Err::<(ImageKey, Seq<char>), ImageSourceIssue>(issue),
        },
{
    let image_suffix_chars = vec!['.', 'i', 'm', 'a', 'g', 'e'];
    let build_suffix_chars = vec!['.', 'b', 'u', 'i', 'l', 'd'];
    assert(image_suffix_chars@ =~= image_suffix() && build_suffix_chars@ =~= build_suffix());
    if let Some(rootfs) = &sources.rootfs {
        if sources.image.is_some() || sources.acquisition.is_some() || sources.build.is_some() {
            return Err(ImageSourceIssue::RootfsConflict);
        }
        if !is_safe_absolute_container_path(rootfs.as_str()) {
            return Err(ImageSourceIssue::UnsafeRootfs);
        }
        return Ok((ImageKey::Rootfs, rootfs.clone()));
    }
    let pair = match (&sources.image, &sources.build) {
        (Some(image), Some(_)) => sources.acquisition.is_none() && build_declares(&sources.build_tags, image.as_str()),
        _ => false,
    };
    let count: usize = (if sources.image.is_some() { 1 } else { 0 }) + (if sources.acquisition.is_some() { 1 } else { 0 })
        + (if sources.build.is_some() { 1 } else { 0 });
    if !(count == 1 || pair) {
        return Err(ImageSourceIssue::SourceCount);
    }
    if pair {
        if let Some(build) = &sources.build {
            return Ok((ImageKey::Image, with_suffix(build.as_str(), build_suffix_chars.as_slice())));
        }
    }
    if let Some(image) = &sources.image {
        if !is_safe_word(image.as_str(), false) {
            return Err(ImageSourceIssue::UnsafeImage);
        }
        return Ok((ImageKey::Image, image.clone()));
    }
    if let Some(acquisition) = &sources.acquisition {
        return Ok((ImageKey::Image, with_suffix(acquisition.as_str(), image_suffix_chars.as_slice())));
    }
    match &sources.build {
        Some(build) => Ok((ImageKey::Image, with_suffix(build.as_str(), build_suffix_chars.as_slice()))),
        None => Err(ImageSourceIssue::SourceCount),
    }
}

proof fn lemma_suffix_stem(name: Seq<char>, word: Seq<char>)
    requires
        !has_char(word, '.'),
    ensures
        stem(name + (seq!['.'] + word)) == name,
{
    lemma_last_index_of_concat(name, word, '.');
    assert(name + (seq!['.'] + word) =~= name + seq!['.'] + word);
    assert((name + seq!['.'] + word).take(name.len() as int) =~= name);
}

/// An image unit or build unit written as a service's image names that unit again by its stem:
/// when the entry written is an `Image=` entry for an image unit or a build unit (no direct image
/// is written), the stem of its value is the unit's name.
pub proof fn lemma_unit_source_reads_back(s: SourcesModel)
    requires
        image_entry_spec(s) matches Ok((ImageKey::Image, _)),
        s.image is None || tagged_build_pair(s),
    ensures
        stem(image_entry_spec(s)->Ok_0.1) == if tagged_build_pair(s) || s.acquisition is None {
            s.build->Some_0
        } else {
            s.acquisition->Some_0
        },
{
    let image_word = seq!['i', 'm', 'a', 'g', 'e'];
    let build_word = seq!['b', 'u', 'i', 'l', 'd'];
    assert(!has_char(image_word, '.')) by {
        assert forall|i: int| 0 <= i < image_word.len() implies image_word[i] != '.' by {}
    }
    assert(!has_char(build_word, '.')) by {
        assert forall|i: int| 0 <= i < build_word.len() implies build_word[i] != '.' by {}
    }
    assert(image_suffix() =~= seq!['.'] + image_word);
    assert(build_suffix() =~= seq!['.'] + build_word);
    if tagged_build_pair(s) || s.acquisition is None {
        lemma_suffix_stem(s.build->Some_0, build_word);
    } else {
        lemma_suffix_stem(s.acquisition->Some_0, image_word);
    }
}

} // verus!
