//! Document classes: fixed sets of file extensions that a query can ask for
//! by name.

use crate::text::{lower, lower_chars_of, str_eq_chars};
use vstd::prelude::*;

verus! {

/// A named class of documents, each standing for a fixed set of extensions.
#[derive(Debug, Clone, Copy, PartialEq, Eq, Hash, Structural)]
pub enum DocumentType {
    Text,
    Code,
    Image,
    Spreadsheet,
    Presentation,
    Archive,
    Audio,
    Video,
    Pdf,
}

/// The extensions of a document class: lower case, without the leading dot,
/// in the order in which `get_extensions` lists them.
pub open spec fn extensions_of(doc_type: DocumentType) -> Seq<Seq<char>> {
    match doc_type {
        DocumentType::Text => seq![
            "txt"@, "md"@, "markdown"@, "rtf"@, "odt"@, "doc"@, "docx"@, "tex"@, "log"@,
        ],
        DocumentType::Code => seq![
            "rs"@, "py"@, "js"@, "ts"@, "jsx"@, "tsx"@, "java"@, "c"@, "cpp"@, "h"@, "hpp"@,
            "cs"@, "go"@, "rb"@, "php"@, "swift"@, "kt"@, "scala"@, "m"@, "mm"@, "sh"@,
            "bash"@, "ps1"@, "bat"@, "html"@, "css"@, "scss"@, "sass"@, "less"@, "json"@,
            "yaml"@, "toml"@, "xml"@, "sql"@, "ini"@, "cfg"@, "conf"@, "env"@, "gitignore"@,
            "dockerfile"@, "makefile"@, "lua"@, "perl"@, "r"@, "vue"@, "svelte"@,
        ],
        DocumentType::Image => seq![
            "jpg"@, "jpeg"@, "png"@, "gif"@, "bmp"@, "webp"@, "tiff"@, "tif"@, "svg"@, "ico"@,
            "heic"@,
        ],
        DocumentType::Spreadsheet => seq![
            "xls"@, "xlsx"@, "xlsm"@, "ods"@, "csv"@, "tsv"@,
        ],
        DocumentType::Presentation => seq![
            "ppt"@, "pptx"@, "odp"@, "key"@,
        ],
        DocumentType::Archive => seq![
            "zip"@, "rar"@, "7z"@, "tar"@, "gz"@, "bz2"@, "xz"@, "zst"@, "lzma"@, "lz4"@,
            "lzh"@, "cab"@,
        ],
        DocumentType::Audio => seq![
            "mp3"@, "wav"@, "ogg"@, "flac"@, "aac"@, "m4a"@, "wma"@, "aiff"@, "aif"@, "midi"@,
            "mid"@,
        ],
        DocumentType::Video => seq![
            "mp4"@, "avi"@, "mkv"@, "mov"@, "wmv"@, "flv"@, "webm"@, "m4v"@, "mpeg"@, "mpg"@,
            "3gp"@,
        ],
        DocumentType::Pdf => seq![
            "pdf"@,
        ],
    }
}

/// The class that a lower-case class name stands for, if any.
pub open spec fn document_type_named(name: Seq<char>) -> Option<DocumentType> {
    if name == "text"@ {
        Some(DocumentType::Text)
    }     else if name == "code"@ {
        Some(DocumentType::Code)
    }     else if name == "image"@ {
        Some(DocumentType::Image)
    }     else if name == "spreadsheet"@ {
        Some(DocumentType::Spreadsheet)
    }     else if name == "presentation"@ {
        Some(DocumentType::Presentation)
    }     else if name == "archive"@ {
        Some(DocumentType::Archive)
    }     else if name == "audio"@ {
        Some(DocumentType::Audio)
    }     else if name == "video"@ {
        Some(DocumentType::Video)
    }     else if name == "pdf"@ {
        Some(DocumentType::Pdf)
    } else {
        None
    }
}

/// `extension`, taken case-insensitively, belongs to one of `doc_types`.
/// The empty list of classes filters nothing out.
pub open spec fn matches_doc_types(extension: Seq<char>, doc_types: Seq<DocumentType>) -> bool {
    doc_types.len() == 0 || exists|i: int|
        0 <= i < doc_types.len() && #[trigger] extensions_of(doc_types[i]).contains(
            lower(extension),
        )
}

/// All extensions of a document class.
pub fn get_extensions(doc_type: DocumentType) -> (r: Vec<&'static str>)
    ensures
        r@.len() == extensions_of(doc_type).len(),
        forall|i: int| 0 <= i < r@.len() ==> (#[trigger] r@[i])@ == extensions_of(doc_type)[i],
{
    match doc_type {
        DocumentType::Text => vec![
            "txt", "md", "markdown", "rtf", "odt", "doc", "docx", "tex", "log",
        ],
        DocumentType::Code => vec![
            "rs", "py", "js", "ts", "jsx", "tsx", "java", "c", "cpp", "h", "hpp", "cs", "go",
            "rb", "php", "swift", "kt", "scala", "m", "mm", "sh", "bash", "ps1", "bat", "html",
            "css", "scss", "sass", "less", "json", "yaml", "toml", "xml", "sql", "ini", "cfg",
            "conf", "env", "gitignore", "dockerfile", "makefile", "lua", "perl", "r", "vue",
            "svelte",
        ],
        DocumentType::Image => vec![
            "jpg", "jpeg", "png", "gif", "bmp", "webp", "tiff", "tif", "svg", "ico", "heic",
        ],
        DocumentType::Spreadsheet => vec![
            "xls", "xlsx", "xlsm", "ods", "csv", "tsv",
        ],
        DocumentType::Presentation => vec![
            "ppt", "pptx", "odp", "key",
        ],
        DocumentType::Archive => vec![
            "zip", "rar", "7z", "tar", "gz", "bz2", "xz", "zst", "lzma", "lz4", "lzh", "cab",
        ],
        DocumentType::Audio => vec![
            "mp3", "wav", "ogg", "flac", "aac", "m4a", "wma", "aiff", "aif", "midi", "mid",
        ],
        DocumentType::Video => vec![
            "mp4", "avi", "mkv", "mov", "wmv", "flv", "webm", "m4v", "mpeg", "mpg", "3gp",
        ],
        DocumentType::Pdf => vec![
            "pdf",
        ],
    }
}

/// The characters `ext` are one of the extensions of `doc_type`.
pub fn type_has_extension(doc_type: DocumentType, ext: &Vec<char>) -> (r: bool)
    ensures
        r == extensions_of(doc_type).contains(ext@),
{
    let list = get_extensions(doc_type);
    let mut j: usize = 0;
    while j < list.len()
        invariant
            j <= list.len(),
            list@.len() == extensions_of(doc_type).len(),
            forall|i: int|
                0 <= i < list@.len() ==> (#[trigger] list@[i])@ == extensions_of(doc_type)[i],
            forall|i: int| 0 <= i < j ==> extensions_of(doc_type)[i] != ext@,
        decreases list.len() - j,
    {
        if str_eq_chars(list[j], ext) {
            assert(extensions_of(doc_type)[j as int] == ext@);
            return true;
        }
        j += 1;
    }
    false
}

/// Check if a file extension matches any of the document types. The
/// comparison ignores case; an empty list of types matches everything.
pub fn extension_matches_doc_types(extension: &str, doc_types: &[DocumentType]) -> (r: bool)
    ensures
        r == matches_doc_types(extension@, doc_types@),
{
    if doc_types.len() == 0 {
        return true;
    }
    let ext = lower_chars_of(extension);
    let mut i: usize = 0;
    while i < doc_types.len()
        invariant
            i <= doc_types.len(),
            ext@ == lower(extension@),
            forall|k: int| 0 <= k < i ==> !extensions_of(#[trigger] doc_types@[k]).contains(ext@),
        decreases doc_types.len() - i,
    {
        if type_has_extension(doc_types[i], &ext) {
            return true;
        }
        i += 1;
    }
    false
}

/// Parse a document type from its name, ignoring case.
pub fn parse_document_type(s: &str) -> (r: Option<DocumentType>)
    ensures
        r == document_type_named(lower(s@)),
{
    let name = lower_chars_of(s);
    if str_eq_chars("text", &name) {
        Some(DocumentType::Text)
    }     else if str_eq_chars("code", &name) {
        Some(DocumentType::Code)
    }     else if str_eq_chars("image", &name) {
        Some(DocumentType::Image)
    }     else if str_eq_chars("spreadsheet", &name) {
        Some(DocumentType::Spreadsheet)
    }     else if str_eq_chars("presentation", &name) {
        Some(DocumentType::Presentation)
    }     else if str_eq_chars("archive", &name) {
        Some(DocumentType::Archive)
    }     else if str_eq_chars("audio", &name) {
        Some(DocumentType::Audio)
    }     else if str_eq_chars("video", &name) {
        Some(DocumentType::Video)
    }     else if str_eq_chars("pdf", &name) {
        Some(DocumentType::Pdf)
    } else {
        None
    }
}

} // verus!
