//! Where the records and the documents of the threads are kept.
//!
//! A record is kept under the identifier of its thread, a document under the
//! title of its thread, made safe for a file name. Both directories are named
//! by the caller.

use vstd::prelude::*;
use crate::model::ThreadRecord;
use crate::render::{render, rendered, EmptyThreadError};

verus! {

/// The directory of the records and the directory of the documents.
#[derive(Debug, PartialEq, Eq)]
pub struct Config {
    pub store_dir: String,
    pub output_dir: String,
}

/// A document and the path at which it is to be written.
#[derive(Debug, PartialEq, Eq)]
pub struct Document {
    pub path: String,
    pub text: String,
}

/// Whether `c` is one of the characters that divide or quote a path.
pub open spec fn is_reserved_char(c: char) -> bool {
    c == '/' || c == '?' || c == '<' || c == '>' || c == '\\' || c == ':' || c == '*' || c == '|'
        || c == '"'
}

/// Whether `c` is a control character, of the lower or of the upper range.
pub open spec fn is_control_char(c: char) -> bool {
    c <= '\u{1f}' || '\u{80}' <= c <= '\u{9f}'
}

/// Whether `name` holds neither a reserved nor a control character and takes
/// no more than 255 bytes.
pub open spec fn is_clean_name(name: Seq<char>) -> bool {
    &&& forall|i: int|
        0 <= i < name.len() ==> !is_reserved_char(#[trigger] name[i]) && !is_control_char(name[i])
    &&& vstd::utf8::encode_utf8(name).len() <= 255
}

/// The path of the record of the thread `slug` below `dir`.
pub open spec fn record_path_of(dir: Seq<char>, slug: Seq<char>) -> Seq<char> {
    dir + "/"@ + slug + ".json"@
}

/// The path of the document with the file name `name` below `dir`.
pub open spec fn document_path_of(dir: Seq<char>, name: Seq<char>) -> Seq<char> {
    dir + "/"@ + name + ".md"@
}

/// Calls `sanitize_filename::sanitize`, which takes the reserved and the
/// control characters out of its argument, empties a name made of dots
/// alone, cuts the rest down to 255 bytes and, where it was built for
/// Windows, takes more out. Stated is what holds on every system: no
/// reserved and no control character is left, and no more than 255 bytes.
#[verifier::external_body]
fn sanitize_title(title: &str) -> (name: String)
    ensures
        is_clean_name(name@),
{
    sanitize_filename::sanitize(title)
}

impl Config {
    /// The configuration with the given directories.
    pub fn new(store_dir: String, output_dir: String) -> (config: Config)
        ensures
            config.store_dir == store_dir,
            config.output_dir == output_dir,
    {
        Config { store_dir, output_dir }
    }

    /// The path of the record of the thread `slug`.
    pub fn record_path(&self, slug: &str) -> (path: String)
        ensures
            path@ == record_path_of(self.store_dir@, slug@),
    {
        let mut path = self.store_dir.clone();
        path.append("/");
        path.append(slug);
        path.append(".json");
        path
    }

    /// The path of the document with the file name `name`.
    pub fn named_document_path(&self, name: &str) -> (path: String)
        ensures
            path@ == document_path_of(self.output_dir@, name@),
    {
        let mut path = self.output_dir.clone();
        path.append("/");
        path.append(name);
        path.append(".md");
        path
    }

    /// The path of the document of a thread with the title `title`: the
    /// title is made safe for a file name first.
    pub fn document_path(&self, title: &str) -> (path: String)
        ensures
            exists|name: Seq<char>|
                is_clean_name(name) && path@ == document_path_of(self.output_dir@, name),
    {
        let name = sanitize_title(title);
        self.named_document_path(name.as_str())
    }

    /// The document of `record` with its path, or an error where the thread
    /// has no comment: then there is nothing to write.
    pub fn document_for(&self, record: &ThreadRecord) -> (result: Result<
        Document,
        EmptyThreadError,
    >)
        ensures
            result is Err <==> record@.comments.len() == 0,
            result matches Ok(document) ==> {
                &&& rendered(record@, Ok::<String, EmptyThreadError>(document.text))
                &&& exists|name: Seq<char>|
                    is_clean_name(name) && document.path@ == document_path_of(
                        self.output_dir@,
                        name,
                    )
            },
    {
        match render(record) {
            Ok(text) => {
                let path = self.document_path(record.title.as_str());
                Ok(Document { path, text })
            },
            Err(e) => Err(e),
        }
    }
}

impl Default for Config {
    /// The records in `scraps`, the documents in `markdown`.
    fn default() -> (config: Config)
        ensures
            config.store_dir@ == "scraps"@,
            config.output_dir@ == "markdown"@,
    {
        Config { store_dir: "scraps".to_string(), output_dir: "markdown".to_string() }
    }
}

} // verus!
