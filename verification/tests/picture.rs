use opensuite_docx::blank::blank_package;
use opensuite_docx::mutation::paragraph::insert_paragraph_to_vec;
use opensuite_docx::mutation::picture::{insert_picture_to_vec, picture_dimensions, MAX_INLINE_PICTURE_WIDTH_EMU};
use opensuite_docx::image_dimensions::ImageDimensions;
use opensuite_docx::package::{apply_changes, PackageSnapshot, PartChanges};
use opensuite_docx::protocol::{FailureCode, InsertParagraph, InsertPicture, ParagraphPlacement};
use opensuite_docx::source::SourceDocument;

fn png(width: u32, height: u32) -> Vec<u8> {
    let mut bytes = b"\x89PNG\r\n\x1a\n\0\0\0\rIHDR".to_vec();
    bytes.extend_from_slice(&width.to_be_bytes());
    bytes.extend_from_slice(&height.to_be_bytes());
    bytes.extend_from_slice(&[8, 2, 0, 0, 0, 0, 0, 0, 0]);
    bytes
}

fn jpeg(width: u16, height: u16) -> Vec<u8> {
    let mut bytes = vec![0xff, 0xd8, 0xff, 0xc0, 0, 17, 8];
    bytes.extend_from_slice(&height.to_be_bytes());
    bytes.extend_from_slice(&width.to_be_bytes());
    bytes.extend_from_slice(&[3, 1, 17, 0, 2, 17, 0, 3, 17, 0, 0xff, 0xd9]);
    bytes
}

fn part(package: &PackageSnapshot, name: &str) -> Vec<u8> {
    package.parts.iter().find(|p| p.name == name).unwrap().bytes.clone()
}

fn main_source(package: &PackageSnapshot) -> SourceDocument {
    SourceDocument::parse(part(package, &package.main_name)).unwrap()
}

fn text(bytes: &[u8]) -> String {
    String::from_utf8(bytes.to_vec()).unwrap()
}

fn insert(package: &PackageSnapshot, image_bytes: Vec<u8>, placement: ParagraphPlacement, alt_text: Option<&str>) -> Result<PackageSnapshot, FailureCode> {
    let source = main_source(package);
    let operation = InsertPicture { image_bytes, placement, alt_text: alt_text.map(str::to_owned) };
    insert_picture_to_vec(package, &source, &operation).map(|changes| apply_changes(package, &changes)).map_err(|e| e.code)
}

#[test]
fn inserts_inline_picture_with_bytes_dimensions_and_collision_safe_ids() {
    let package = blank_package();
    let first = insert(&package, png(640, 480), ParagraphPlacement::Start, Some("chart")).unwrap();
    let second = insert(&first, png(1600, 800), ParagraphPlacement::End, None).unwrap();
    let xml = text(&part(&second, "/word/document.xml"));
    assert_eq!(xml.matches("<wp:docPr ").count(), 2);
    let first_picture = xml.find("<wp:docPr id=\"1\" name=\"Picture 1\" descr=\"chart\"/>").unwrap();
    let second_picture = xml.find("<wp:docPr id=\"2\" name=\"Picture 2\"/>").unwrap();
    assert!(first_picture < second_picture);
    assert!(xml.contains("<wp:extent cx=\"5943600\" cy=\"4457700\"/>"));
    assert!(xml.contains(&format!("<wp:extent cx=\"{MAX_INLINE_PICTURE_WIDTH_EMU}\" cy=\"2971800\"/>")));
    assert!(xml.contains("r:embed=\"rId4\""));
    assert_eq!(part(&second, "/word/media/image2.png"), png(1600, 800));
    assert_eq!(part(&second, "/word/media/image1.png"), png(640, 480));
    let rels = text(&part(&second, "/word/_rels/document.xml.rels"));
    assert!(rels.contains("<Relationship Id=\"rId4\" Type=\"http://schemas.openxmlformats.org/officeDocument/2006/relationships/image\" Target=\"media/image2.png\"/>"));
    let types = text(&part(&second, "/[Content_Types].xml"));
    assert_eq!(types.matches("<Default Extension=\"png\" ContentType=\"image/png\"/>").count(), 1);
    let image = second.parts.iter().find(|p| p.name == "/word/media/image2.png").unwrap();
    assert_eq!(image.content_type, "image/png");
}

#[test]
fn rejects_malformed_and_unsupported_picture_bytes_without_output() {
    let package = blank_package();
    for (image_bytes, code) in [
        (b"not an image".to_vec(), FailureCode::UnsupportedImageFormat),
        (b"\x89PNG\r\n\x1a\n".to_vec(), FailureCode::MalformedImage),
    ] {
        assert_eq!(insert(&package, image_bytes, ParagraphPlacement::End, None).unwrap_err(), code);
    }
}

#[test]
fn inserts_pictures_before_and_after_body_handles() {
    let package = blank_package();
    let with_text = |package: &PackageSnapshot, text: &str, placement: ParagraphPlacement| -> PackageSnapshot {
        let source = main_source(package);
        let main = insert_paragraph_to_vec(&source, &InsertParagraph { text: text.to_owned(), placement }).unwrap();
        apply_changes(package, &PartChanges { replaced: vec![(package.main_name.clone(), main)], added: Vec::new() })
    };
    let body = with_text(&with_text(&package, "First", ParagraphPlacement::Start), "Second", ParagraphPlacement::End);
    for placement in [
        ParagraphPlacement::Before { handle: "b1".to_owned() },
        ParagraphPlacement::After { handle: "b0".to_owned() },
    ] {
        let out = insert(&body, png(1, 1), placement, None).unwrap();
        let xml = text(&part(&out, "/word/document.xml"));
        let first = xml.find("First").unwrap();
        let picture = xml.find("<w:drawing>").unwrap();
        let second = xml.find("Second").unwrap();
        assert!(first < picture && picture < second);
    }
    assert_eq!(insert(&body, png(1, 1), ParagraphPlacement::After { handle: "b9".to_owned() }, None).unwrap_err(), FailureCode::TargetNotFound);
}

#[test]
fn jpeg_pictures_get_their_own_default_and_relationships_part() {
    let mut package = blank_package();
    package.parts.retain(|p| p.name != "/word/_rels/document.xml.rels");
    let out = insert(&package, jpeg(300, 200), ParagraphPlacement::End, Some("a < b & \"c\"")).unwrap();
    let xml = text(&part(&out, "/word/document.xml"));
    assert!(xml.contains("<wp:docPr id=\"1\" name=\"Picture 1\" descr=\"a &lt; b &amp; &quot;c&quot;\"/>"));
    assert!(xml.contains("<wp:extent cx=\"2857500\" cy=\"1905000\"/>"));
    assert!(xml.contains("r:embed=\"rId1\""));
    let rels = out.parts.iter().find(|p| p.name == "/word/_rels/document.xml.rels").unwrap();
    assert_eq!(rels.content_type, "application/vnd.openxmlformats-package.relationships+xml");
    assert!(text(&rels.bytes).contains("Target=\"media/image1.jpeg\""));
    let types = text(&part(&out, "/[Content_Types].xml"));
    assert!(types.contains("<Default Extension=\"jpeg\" ContentType=\"image/jpeg\"/>"));
}

#[test]
fn wide_pictures_are_scaled_to_the_inline_width() {
    assert_eq!(picture_dimensions(ImageDimensions { width_px: 624, height_px: 100 }), (5943600, 952500));
    assert_eq!(picture_dimensions(ImageDimensions { width_px: 1248, height_px: 100 }), (5943600, 476250));
    assert_eq!(picture_dimensions(ImageDimensions { width_px: 625, height_px: 3 }), (5943600, 28529));
}

#[test]
fn new_media_names_relationship_ids_and_picture_ids_never_collide() {
    let mut package = blank_package();
    package.parts.push(opensuite_docx::package::PackagePart {
        name: "/word/media/image7.png".to_owned(),
        content_type: "image/png".to_owned(),
        bytes: png(2, 2),
    });
    for part in package.parts.iter_mut() {
        if part.name == "/word/_rels/document.xml.rels" {
            let text = String::from_utf8(part.bytes.clone()).unwrap().replace(
                "</Relationships>",
                "<Relationship Id=\"rId9\" Type=\"http://schemas.openxmlformats.org/officeDocument/2006/relationships/image\" Target=\"media/image7.png\"/></Relationships>",
            );
            part.bytes = text.into_bytes();
        }
        if part.name == "/word/document.xml" {
            let text = String::from_utf8(part.bytes.clone()).unwrap().replace(
                "<w:body>",
                "<w:body><w:p><w:r><w:drawing><wp:inline xmlns:wp=\"http://schemas.openxmlformats.org/drawingml/2006/wordprocessingDrawing\"><wp:docPr id=\"41\" name=\"Old\"/></wp:inline></w:drawing></w:r></w:p>",
            );
            part.bytes = text.into_bytes();
        }
    }
    let out = insert(&package, png(10, 10), ParagraphPlacement::End, None).unwrap();
    assert_eq!(part(&out, "/word/media/image8.png"), png(10, 10));
    assert_eq!(part(&out, "/word/media/image7.png"), png(2, 2));
    let xml = text(&part(&out, "/word/document.xml"));
    assert!(xml.contains("<wp:docPr id=\"42\" name=\"Picture 42\"/>"));
    assert!(xml.contains("r:embed=\"rId10\""));
}
