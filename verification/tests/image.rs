use boxferry_quadlet::image::{image_entry, ImageKey, ImageSourceIssue, ImageSources};
use boxferry_quadlet::scalar::unit_stem;

fn sources() -> ImageSources {
    ImageSources { rootfs: None, image: None, acquisition: None, build: None, build_tags: Vec::new() }
}

fn text(value: &str) -> Option<String> {
    Some(value.to_string())
}

#[test]
fn single_image_sources_are_written() {
    let mut direct = sources();
    direct.image = text("docker.io/library/nginx:1.27");
    assert_eq!(image_entry(&direct), Ok((ImageKey::Image, "docker.io/library/nginx:1.27".to_string())));

    let mut acquisition = sources();
    acquisition.acquisition = text("web");
    assert_eq!(image_entry(&acquisition), Ok((ImageKey::Image, "web.image".to_string())));

    let mut build = sources();
    build.build = text("app");
    assert_eq!(image_entry(&build), Ok((ImageKey::Image, "app.build".to_string())));
    let (_, value) = image_entry(&build).unwrap();
    assert_eq!(unit_stem(&value), "app");

    let mut rootfs = sources();
    rootfs.rootfs = text("/srv/rootfs");
    assert_eq!(image_entry(&rootfs), Ok((ImageKey::Rootfs, "/srv/rootfs".to_string())));
}

#[test]
fn image_with_its_tagging_build_is_written_as_the_build() {
    let mut pair = sources();
    pair.image = text("localhost/app:latest");
    pair.build = text("app");
    pair.build_tags = vec![String::new(), "localhost/app:latest".to_string()];
    assert_eq!(image_entry(&pair), Ok((ImageKey::Image, "app.build".to_string())));

    pair.build_tags = vec!["localhost/app:dev".to_string()];
    assert_eq!(image_entry(&pair), Err(ImageSourceIssue::SourceCount));
}

#[test]
fn conflicting_or_unsafe_sources_are_refused() {
    let mut conflict = sources();
    conflict.rootfs = text("/srv/rootfs");
    conflict.image = text("nginx");
    let issue = image_entry(&conflict).unwrap_err();
    assert_eq!(issue, ImageSourceIssue::RootfsConflict);
    assert!(issue.is_invalid());
    assert_eq!(issue.field(), "rootfs");
    assert_eq!(issue.summary(), "Rootfs conflicts with every image source");
    assert_eq!(
        issue.remedy(),
        Some("remove the image, image acquisition, or image build reference before emitting Rootfs")
    );

    let mut relative = sources();
    relative.rootfs = text("srv/rootfs");
    let issue = image_entry(&relative).unwrap_err();
    assert_eq!(issue, ImageSourceIssue::UnsafeRootfs);
    assert!(!issue.is_invalid());
    assert_eq!(issue.remedy(), None);

    let none = sources();
    assert_eq!(image_entry(&none), Err(ImageSourceIssue::SourceCount));
    let mut two = sources();
    two.acquisition = text("web");
    two.build = text("app");
    let issue = image_entry(&two).unwrap_err();
    assert_eq!(issue, ImageSourceIssue::SourceCount);
    assert_eq!(issue.field(), "image");
    assert_eq!(issue.summary(), "Quadlet container generation requires exactly one image source");

    let mut spaced = sources();
    spaced.image = text("nginx latest");
    let issue = image_entry(&spaced).unwrap_err();
    assert_eq!(issue, ImageSourceIssue::UnsafeImage);
    assert_eq!(issue.remedy(), Some("image spelling contains unsupported whitespace or control syntax"));
}
