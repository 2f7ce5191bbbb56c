use opensuite_docx::blank::blank_package;
use opensuite_docx::mutation::picture::insert_picture_to_vec;
use opensuite_docx::mutation::picture_replace::replace_picture;
use opensuite_docx::package::{apply_changes, PackageSnapshot};
use opensuite_docx::protocol::{
    FailureCode, InsertPicture, ParagraphPlacement, PictureReplacement, PictureTarget, ReplacePicture,
};
use opensuite_docx::source::SourceDocument;

fn png(width: u32, height: u32) -> Vec<u8> {
    let mut bytes = b"\x89PNG\r\n\x1a\n\0\0\0\rIHDR".to_vec();
    bytes.extend_from_slice(&width.to_be_bytes());
    bytes.extend_from_slice(&height.to_be_bytes());
    bytes.extend_from_slice(&[8, 2, 0, 0, 0, 0, 0, 0, 0]);
    bytes
}

fn part(package: &PackageSnapshot, name: &str) -> Vec<u8> {
    package.parts.iter().find(|p| p.name == name).unwrap().bytes.clone()
}

fn main_source(package: &PackageSnapshot) -> SourceDocument {
    SourceDocument::parse(part(package, &package.main_name)).unwrap()
}

fn insert(package: &PackageSnapshot, image_bytes: Vec<u8>, alt_text: Option<&str>) -> PackageSnapshot {
    let source = main_source(package);
    let operation = InsertPicture { image_bytes, placement: ParagraphPlacement::End, alt_text: alt_text.map(str::to_owned) };
    apply_changes(package, &insert_picture_to_vec(package, &source, &operation).unwrap())
}

fn target(name: Option<&str>, description: Option<&str>, occurrence: Option<usize>) -> PictureTarget {
    PictureTarget { handle: None, name: name.map(str::to_owned), description: description.map(str::to_owned), occurrence }
}

fn replace(package: &PackageSnapshot, target: PictureTarget, content_type: &str, bytes: Vec<u8>) -> Result<PackageSnapshot, FailureCode> {
    let source = main_source(package);
    let operation = ReplacePicture { target, replacement: PictureReplacement { content_type: content_type.to_owned(), bytes } };
    replace_picture(package, &source, &operation).map(|c| apply_changes(package, &c)).map_err(|e| e.code)
}

#[test]
fn replaces_only_the_named_picture_image() {
    let package = insert(&insert(&blank_package(), png(640, 480), Some("chart")), png(100, 100), Some("logo"));
    let before = part(&package, "/word/document.xml");
    let out = replace(&package, target(None, Some("chart"), None), "image/png", png(320, 240)).unwrap();
    assert_eq!(part(&out, "/word/media/image1.png"), png(320, 240));
    assert_eq!(part(&out, "/word/media/image2.png"), png(100, 100));
    assert_eq!(part(&out, "/word/document.xml"), before);
    let out = replace(&package, target(Some("Picture 2"), None, None), "image/png", png(8, 8)).unwrap();
    assert_eq!(part(&out, "/word/media/image2.png"), png(8, 8));
}

#[test]
fn rejects_missing_ambiguous_and_mismatched_replacements() {
    let package = insert(&insert(&blank_package(), png(640, 480), Some("chart")), png(100, 100), Some("chart"));
    assert_eq!(replace(&package, target(None, None, None), "image/png", png(1, 1)).unwrap_err(), FailureCode::TargetNotFound);
    assert_eq!(replace(&package, target(None, Some("chart"), None), "image/png", png(1, 1)).unwrap_err(), FailureCode::TargetAmbiguous);
    assert_eq!(replace(&package, target(None, Some("chart"), Some(2)), "image/png", png(1, 1)).unwrap_err(), FailureCode::TargetNotFound);
    assert_eq!(replace(&package, target(None, Some("missing"), None), "image/png", png(1, 1)).unwrap_err(), FailureCode::TargetNotFound);
    assert_eq!(
        replace(&package, target(None, Some("chart"), Some(1)), "image/jpeg", vec![0xff, 0xd8, 0xff, 0xff, 0xd9]).unwrap_err(),
        FailureCode::UnsupportedOperation
    );
    assert_eq!(
        replace(&package, target(None, Some("chart"), Some(1)), "image/png", b"not a png".to_vec()).unwrap_err(),
        FailureCode::UnsupportedOperation
    );
    let out = replace(&package, target(None, Some("chart"), Some(1)), "image/png", png(2, 2)).unwrap();
    assert_eq!(part(&out, "/word/media/image2.png"), png(2, 2));
}
