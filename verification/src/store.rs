//! What is kept in the data directory, and under which names.
//!
//! The data directory holds the document, a directory of images and, while a
//! PDF is exported, the page that is printed.

use vstd::prelude::*;

verus! {

/// The name of the data directory beside the executable.
pub const DATA_DIR_NAME: &'static str = "data";

/// The name of the file that holds the document.
pub const DOCUMENT_FILE_NAME: &'static str = "markpad-data.json";

/// The name of the directory that holds the images.
pub const IMAGES_DIR_NAME: &'static str = "images";

/// The name of the file that holds the page while a PDF is exported.
pub const EXPORT_PAGE_FILE_NAME: &'static str = "temp_export.html";

/// The document as it is loaded: what the document file holds, and the
/// empty text while there is no such file yet.
pub fn loaded_document(stored: Option<String>) -> (document: String)
    ensures
        document@ == match stored {
            Some(text) => text@,
            None => Seq::<char>::empty(),
        },
{
    match stored {
        Some(text) => text,
        None => String::new(),
    }
}

} // verus!
