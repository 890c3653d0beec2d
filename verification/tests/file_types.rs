use fastsearch::file_types::{
    extension_matches_doc_types, get_extensions, parse_document_type, DocumentType,
};

#[test]
fn test_extension_matching() {
    assert!(extension_matches_doc_types("txt", &[DocumentType::Text]));
    assert!(extension_matches_doc_types("rs", &[DocumentType::Code]));
    assert!(!extension_matches_doc_types("txt", &[DocumentType::Code]));
    assert!(extension_matches_doc_types("TXT", &[DocumentType::Text])); // case insensitive
}

#[test]
fn test_parse_document_type() {
    assert_eq!(parse_document_type("text"), Some(DocumentType::Text));
    assert_eq!(parse_document_type("TEXT"), Some(DocumentType::Text));
    assert_eq!(parse_document_type("invalid"), None);
}

#[test]
fn it_works() {
    assert_eq!(2 + 2, 4);
}

#[test]
fn empty_type_list_matches_everything() {
    assert!(extension_matches_doc_types("anything", &[]));
    assert!(extension_matches_doc_types("", &[]));
}

#[test]
fn extension_matches_any_listed_type() {
    let types = [DocumentType::Image, DocumentType::Archive];
    assert!(extension_matches_doc_types("PNG", &types));
    assert!(extension_matches_doc_types("7z", &types));
    assert!(!extension_matches_doc_types("mp3", &types));
}

#[test]
fn pdf_is_its_own_class() {
    assert!(extension_matches_doc_types("pdf", &[DocumentType::Pdf]));
    assert!(!extension_matches_doc_types("pdf", &[DocumentType::Text]));
    assert_eq!(get_extensions(DocumentType::Pdf), vec!["pdf"]);
}

#[test]
fn extension_lists_are_complete() {
    assert_eq!(
        get_extensions(DocumentType::Text),
        vec!["txt", "md", "markdown", "rtf", "odt", "doc", "docx", "tex", "log"]
    );
    assert_eq!(get_extensions(DocumentType::Code).len(), 46);
    assert_eq!(get_extensions(DocumentType::Image).len(), 11);
    assert_eq!(get_extensions(DocumentType::Spreadsheet), vec!["xls", "xlsx", "xlsm", "ods", "csv", "tsv"]);
    assert_eq!(get_extensions(DocumentType::Presentation), vec!["ppt", "pptx", "odp", "key"]);
    assert_eq!(get_extensions(DocumentType::Archive).len(), 12);
    assert_eq!(get_extensions(DocumentType::Audio).len(), 11);
    assert_eq!(get_extensions(DocumentType::Video).len(), 11);
}

#[test]
fn every_class_name_parses() {
    assert_eq!(parse_document_type("code"), Some(DocumentType::Code));
    assert_eq!(parse_document_type("Image"), Some(DocumentType::Image));
    assert_eq!(parse_document_type("spreadsheet"), Some(DocumentType::Spreadsheet));
    assert_eq!(parse_document_type("presentation"), Some(DocumentType::Presentation));
    assert_eq!(parse_document_type("ARCHIVE"), Some(DocumentType::Archive));
    assert_eq!(parse_document_type("audio"), Some(DocumentType::Audio));
    assert_eq!(parse_document_type("video"), Some(DocumentType::Video));
    assert_eq!(parse_document_type("pdf"), Some(DocumentType::Pdf));
    assert_eq!(parse_document_type(""), None);
    assert_eq!(parse_document_type("texts"), None);
}

#[test]
fn extensions_are_lower_cased_by_the_unicode_rules() {
    // The Kelvin sign lower-cases to the letter k.
    assert!(extension_matches_doc_types("\u{212A}t", &[DocumentType::Code]));
    assert!(extension_matches_doc_types("\u{212A}T", &[DocumentType::Code]));
    assert!(!extension_matches_doc_types("\u{212A}t", &[DocumentType::Text]));
    assert_eq!(parse_document_type("\u{212A}ey"), None);
    for class in [DocumentType::Text, DocumentType::Code, DocumentType::Video] {
        for ext in get_extensions(class) {
            assert!(extension_matches_doc_types(&ext.to_uppercase(), &[class]));
        }
    }
}
