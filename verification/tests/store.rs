use markpad::store::{
    loaded_document, DATA_DIR_NAME, DOCUMENT_FILE_NAME, EXPORT_PAGE_FILE_NAME, IMAGES_DIR_NAME,
};

#[test]
fn missing_document_loads_as_empty_text() {
    assert_eq!(loaded_document(None), "");
}

#[test]
fn stored_document_loads_unchanged() {
    for blob in vec!["", "{\"notes\":[]}", "{\"title\":\"笔记 ✓\"}", "not json at all"] {
        assert_eq!(loaded_document(Some(blob.to_string())), blob);
    }
}

#[test]
fn names_in_the_data_directory() {
    assert_eq!(DATA_DIR_NAME, "data");
    assert_eq!(DOCUMENT_FILE_NAME, "markpad-data.json");
    assert_eq!(IMAGES_DIR_NAME, "images");
    assert_eq!(EXPORT_PAGE_FILE_NAME, "temp_export.html");
}
