//! The list of files of a mod, as the API reports it.

use vstd::prelude::*;
use crate::json::Json;
use crate::time::{Timestamp, Wait};

verus! {

/// The response to a request for the files of a mod: the wait that the
/// rate limiter derived from it, and its body.
pub struct FilesResponse {
    pub wait: Wait,
    pub json: Json,
}

/// One file of a mod.
#[derive(Debug, Clone, PartialEq)]
pub struct ApiFile {
    pub file_id: i64,
    pub name: String,
    pub file_name: String,
    pub category: Option<String>,
    pub version: Option<String>,
    pub mod_version: Option<String>,
    /// The size in bytes.
    pub size: i64,
    pub content_preview_link: Option<String>,
    pub uploaded_at: Timestamp,
}

/// What is wrong with a response that does not list files.
#[derive(Debug, Clone, Copy, PartialEq, Eq, Structural)]
pub enum FilesError {
    MissingFiles,
    FilesNotArray,
    MissingFileId,
    FileIdNotNumber,
    MissingName,
    NameNotString,
    MissingFileName,
    FileNameNotString,
    MissingCategory,
    MissingVersion,
    MissingModVersion,
    MissingSizeInBytes,
    MissingContentPreviewLink,
    MissingSizeKb,
    SizeNotNumber,
    /// The size is given in kilobytes and is too large to count in bytes.
    SizeOutOfRange,
    MissingUploadedTimestamp,
    UploadedTimestampNotNumber,
}

/// Bytes per kilobyte, as the API counts them.
pub const BYTES_PER_KB: i64 = 1000;

/// The text under a member that is present, or `None` where the member is
/// no string.
pub open spec fn optional_text(member: Json) -> Option<String> {
    member.text()
}

/// The size of a file in bytes: the member `size_in_bytes` where it is a
/// number, else `size_kb` times a thousand.
pub open spec fn size_of(file: Json) -> Result<i64, FilesError> {
    if file.field("size_in_bytes"@)->0.integer() is Some {
        Ok(file.field("size_in_bytes"@)->0.integer()->0)
    } else if file.field("size_kb"@) is None {
        Err(FilesError::MissingSizeKb)
    } else if file.field("size_kb"@)->0.integer() is None {
        Err(FilesError::SizeNotNumber)
    } else if !(i64::MIN <= file.field("size_kb"@)->0.integer()->0 * BYTES_PER_KB <= i64::MAX) {
        Err(FilesError::SizeOutOfRange)
    } else {
        Ok((file.field("size_kb"@)->0.integer()->0 * BYTES_PER_KB) as i64)
    }
}

/// The file that one element of the list describes, or the first thing
/// that is wrong with it. The members are looked at in a fixed order:
/// `file_id`, `name`, `file_name`, `category_name`, `version`,
/// `mod_version`, `size_in_bytes`, `content_preview_link`, the size, and
/// `uploaded_timestamp`.
pub open spec fn api_file_of(file: Json) -> Result<ApiFile, FilesError> {
    if file.field("file_id"@) is None {
        Err(FilesError::MissingFileId)
    } else if file.field("file_id"@)->0.integer() is None {
        Err(FilesError::FileIdNotNumber)
    } else if file.field("name"@) is None {
        Err(FilesError::MissingName)
    } else if file.field("name"@)->0.text() is None {
        Err(FilesError::NameNotString)
    } else if file.field("file_name"@) is None {
        Err(FilesError::MissingFileName)
    } else if file.field("file_name"@)->0.text() is None {
        Err(FilesError::FileNameNotString)
    } else if file.field("category_name"@) is None {
        Err(FilesError::MissingCategory)
    } else if file.field("version"@) is None {
        Err(FilesError::MissingVersion)
    } else if file.field("mod_version"@) is None {
        Err(FilesError::MissingModVersion)
    } else if file.field("size_in_bytes"@) is None {
        Err(FilesError::MissingSizeInBytes)
    } else if file.field("content_preview_link"@) is None {
        Err(FilesError::MissingContentPreviewLink)
    } else if size_of(file) is Err {
        Err(size_of(file)->Err_0)
    } else if file.field("uploaded_timestamp"@) is None {
        Err(FilesError::MissingUploadedTimestamp)
    } else if file.field("uploaded_timestamp"@)->0.integer() is None {
        Err(FilesError::UploadedTimestampNotNumber)
    } else {
        Ok(
            ApiFile {
                file_id: file.field("file_id"@)->0.integer()->0,
                name: file.field("name"@)->0.text()->0,
                file_name: file.field("file_name"@)->0.text()->0,
                category: optional_text(file.field("category_name"@)->0),
                version: optional_text(file.field("version"@)->0),
                mod_version: optional_text(file.field("mod_version"@)->0),
                size: size_of(file)->Ok_0,
                content_preview_link: optional_text(file.field("content_preview_link"@)->0),
                uploaded_at: Timestamp {
                    seconds: file.field("uploaded_timestamp"@)->0.integer()->0,
                    nanos: 0,
                },
            },
        )
    }
}

/// Whether the element describes exactly the given file.
pub open spec fn decodes_as(item: Json, file: ApiFile) -> bool {
    api_file_of(item) == Ok::<ApiFile, FilesError>(file)
}

/// Whether the element is at fault, with the given fault as its first.
pub open spec fn fails_with(item: Json, e: FilesError) -> bool {
    api_file_of(item) == Err::<ApiFile, FilesError>(e)
}

/// Whether `r` is what decoding the elements in order gives: every file
/// where each element describes one, else the fault of the first element
/// that does not.
pub open spec fn decodes_to(items: Seq<Json>, r: Result<Vec<ApiFile>, FilesError>) -> bool {
    match r {
        Ok(files) => files@.len() == items.len() && forall|i: int|
            0 <= i < items.len() ==> decodes_as(#[trigger] items[i], files@[i]),
        Err(e) => exists|i: int|
            0 <= i < items.len() && fails_with(#[trigger] items[i], e) && forall|j: int|
                0 <= j < i ==> api_file_of(#[trigger] items[j]) is Ok,
    }
}

/// Whether `r` is what decoding a response body gives: the body must be an
/// object with an array under `files`, whose elements are decoded in order.
pub open spec fn lists_files(body: Json, r: Result<Vec<ApiFile>, FilesError>) -> bool {
    match body.field("files"@) {
        None => r == Err::<Vec<ApiFile>, FilesError>(FilesError::MissingFiles),
        Some(list) => match list.items() {
            None => r == Err::<Vec<ApiFile>, FilesError>(FilesError::FilesNotArray),
            Some(items) => decodes_to(items, r),
        },
    }
}

/// The member `key` of an element, or the given fault where it is absent.
fn member<'a>(file: &'a Json, key: &str, missing: FilesError) -> (r: Result<&'a Json, FilesError>)
    ensures
        match r {
            Ok(v) => file.field(key@) == Some(*v),
            Err(e) => file.field(key@) is None && e == missing,
        },
{
    match file.get(key) {
        Some(v) => Ok(v),
        None => Err(missing),
    }
}

/// A copy of the text of a member, where it is a string.
fn text_of(member: &Json) -> (r: Option<String>)
    ensures
        r == member.text(),
{
    match member.as_str() {
        Some(s) => Some(s.clone()),
        None => None,
    }
}

/// The size of a file in bytes.
fn decode_size(file: &Json, size_in_bytes: &Json) -> (r: Result<i64, FilesError>)
    requires
        file.field("size_in_bytes"@) == Some(*size_in_bytes),
    ensures
        r == size_of(*file),
{
    if let Some(size) = size_in_bytes.as_i64() {
        return Ok(size);
    }
    let size_kb = member(file, "size_kb", FilesError::MissingSizeKb)?;
    match size_kb.as_i64() {
        None => Err(FilesError::SizeNotNumber),
        Some(kb) => match kb.checked_mul(BYTES_PER_KB) {
            Some(size) => Ok(size),
            None => Err(FilesError::SizeOutOfRange),
        },
    }
}

/// Decodes one element of the list of files.
pub fn decode_file(file: &Json) -> (r: Result<ApiFile, FilesError>)
    ensures
        r == api_file_of(*file),
{
    let file_id = match member(file, "file_id", FilesError::MissingFileId)?.as_i64() {
        Some(id) => id,
        None => {
            return Err(FilesError::FileIdNotNumber);
        },
    };
    let name = match text_of(member(file, "name", FilesError::MissingName)?) {
        Some(s) => s,
        None => {
            return Err(FilesError::NameNotString);
        },
    };
    let file_name = match text_of(member(file, "file_name", FilesError::MissingFileName)?) {
        Some(s) => s,
        None => {
            return Err(FilesError::FileNameNotString);
        },
    };
    let category = text_of(member(file, "category_name", FilesError::MissingCategory)?);
    let version = text_of(member(file, "version", FilesError::MissingVersion)?);
    let mod_version = text_of(member(file, "mod_version", FilesError::MissingModVersion)?);
    let size_in_bytes = member(file, "size_in_bytes", FilesError::MissingSizeInBytes)?;
    let content_preview_link = text_of(
        member(file, "content_preview_link", FilesError::MissingContentPreviewLink)?,
    );
    let size = decode_size(file, size_in_bytes)?;
    let uploaded = member(file, "uploaded_timestamp", FilesError::MissingUploadedTimestamp)?;
    let uploaded_timestamp = match uploaded.as_i64() {
        Some(t) => t,
        None => {
            return Err(FilesError::UploadedTimestampNotNumber);
        },
    };
    Ok(
        ApiFile {
            file_id,
            name,
            file_name,
            category,
            version,
            mod_version,
            size,
            content_preview_link,
            uploaded_at: Timestamp { seconds: uploaded_timestamp, nanos: 0 },
        },
    )
}

impl FilesResponse {
    /// The files that the response lists, in its order.
    ///
    /// The body must be an object with an array under `files`. Each element
    /// is decoded in turn; the first one at fault fails the whole response
    /// with its fault.
    pub fn files(&self) -> (r: Result<Vec<ApiFile>, FilesError>)
        ensures
            lists_files(self.json, r),
    {
        let list = match self.json.get("files") {
            Some(list) => list,
            None => {
                return Err(FilesError::MissingFiles);
            },
        };
        let items = match list.as_array() {
            Some(items) => items,
            None => {
                return Err(FilesError::FilesNotArray);
            },
        };
        let mut files: Vec<ApiFile> = Vec::new();
        let mut i: usize = 0;
        while i < items.len()
            invariant
                i <= items.len(),
                files@.len() == i,
                self.json.field("files"@) == Some(*list),
                list.items() == Some(items@),
                forall|k: int| 0 <= k < i ==> decodes_as(#[trigger] items@[k], files@[k]),
                forall|k: int| 0 <= k < i ==> api_file_of(#[trigger] items@[k]) is Ok,
            decreases items.len() - i,
        {
            match decode_file(&items[i]) {
                Ok(file) => {
                    files.push(file);
                },
                Err(e) => {
                    assert(fails_with(items@[i as int], e));
                    return Err(e);
                },
            }
            i += 1;
        }
        Ok(files)
    }
}

} // verus!
