use vstd::prelude::*;

use crate::array_string_types::{ContentType, SlugString, UuidString};

verus! {

/// What an attachment is for.
#[derive(Debug, Clone, Copy, PartialEq, Eq, Structural)]
pub enum AttachmentKind {
    DownloadWindows,
    DownloadLinux,
    DownloadMac,
    CoverImage,
    Trailer,
    Screenshot,
}

/// A work's own columns.
#[derive(Debug)]
pub struct WorkRow {
    pub id: i32,
    pub slug: SlugString,
    pub title: String,
    pub short_description: String,
    pub long_description: String,
}

/// A work with its attachments, links and tags.
#[derive(Debug)]
pub struct Work {
    pub row: WorkRow,
    pub attachments: Vec<WorkAttachment>,
    pub links: Vec<WorkLink>,
    pub tags: Vec<WorkTag>,
}

/// A media file of a work: either a small inline payload, or the head of a
/// chain of big-file parts.
#[derive(Debug)]
pub struct WorkAttachment {
    pub id: i32,
    pub work_id: i32,
    pub attachment_kind: AttachmentKind,
    pub content_type: ContentType,
    pub filename: String,
    pub title: Option<String>,
    pub bytes_base64: BytesBase64,
    pub big_file_uuid: Option<UuidString>,
}

/// A link of a work.
#[derive(Debug)]
pub struct WorkLink {
    pub id: i32,
    pub work_id: i32,
    pub title: String,
    pub href: String,
}

/// A tag of a work. The tags of a work keep the order they were given in.
#[derive(Debug)]
pub struct WorkTag {
    pub id: i32,
    pub work_id: i32,
    pub tag: String,
}

/// A stored part of a big file: one link of the chain of an attachment.
#[derive(Debug)]
pub struct BigFilePartRow {
    pub uuid: UuidString,
    pub next_uuid: Option<UuidString>,
    pub work_attachment_id: i32,
    /// Decoded length of the whole file, the same in every part of a chain.
    pub whole_file_length: i32,
    pub bytes_base64: BytesBase64,
}

/// A part together with the file name of its attachment.
#[derive(Debug)]
pub struct BigFilePart {
    pub uuid: UuidString,
    pub next_uuid: Option<UuidString>,
    pub whole_file_length: i32,
    pub filename: String,
    pub bytes_base64: BytesBase64,
}

/// A part whose payload has been decoded.
#[derive(Debug)]
pub struct BigFilePartDecoded {
    pub uuid: UuidString,
    pub next_uuid: Option<UuidString>,
    pub whole_file_length: i32,
    pub filename: String,
    pub bytes: Vec<u8>,
}

/// Base64 text of binary content.
#[derive(Debug)]
pub struct BytesBase64(pub String);

pub fn duplicate_uuid_opt(u: &Option<UuidString>) -> (r: Option<UuidString>)
    ensures
        r == *u,
{
    match u {
        Some(u) => Some(u.duplicate()),
        None => None,
    }
}

impl BytesBase64 {
    pub fn duplicate(&self) -> (r: BytesBase64)
        ensures
            r == *self,
    {
        BytesBase64(self.0.clone())
    }
}

impl WorkRow {
    pub fn duplicate(&self) -> (r: WorkRow)
        ensures
            r == *self,
    {
        WorkRow {
            id: self.id,
            slug: self.slug.duplicate(),
            title: self.title.clone(),
            short_description: self.short_description.clone(),
            long_description: self.long_description.clone(),
        }
    }
}

impl WorkAttachment {
    pub fn duplicate(&self) -> (r: WorkAttachment)
        ensures
            r == *self,
    {
        let title = match &self.title {
            Some(t) => Some(t.clone()),
            None => None,
        };
        WorkAttachment {
            id: self.id,
            work_id: self.work_id,
            attachment_kind: self.attachment_kind,
            content_type: self.content_type.duplicate(),
            filename: self.filename.clone(),
            title,
            bytes_base64: self.bytes_base64.duplicate(),
            big_file_uuid: duplicate_uuid_opt(&self.big_file_uuid),
        }
    }
}

impl WorkLink {
    pub fn duplicate(&self) -> (r: WorkLink)
        ensures
            r == *self,
    {
        WorkLink { id: self.id, work_id: self.work_id, title: self.title.clone(), href: self.href.clone() }
    }
}

impl WorkTag {
    pub fn duplicate(&self) -> (r: WorkTag)
        ensures
            r == *self,
    {
        WorkTag { id: self.id, work_id: self.work_id, tag: self.tag.clone() }
    }
}

impl BigFilePartRow {
    pub fn duplicate(&self) -> (r: BigFilePartRow)
        ensures
            r == *self,
    {
        BigFilePartRow {
            uuid: self.uuid.duplicate(),
            next_uuid: duplicate_uuid_opt(&self.next_uuid),
            work_attachment_id: self.work_attachment_id,
            whole_file_length: self.whole_file_length,
            bytes_base64: self.bytes_base64.duplicate(),
        }
    }
}

} // verus!
