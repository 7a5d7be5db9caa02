//! Plain data types of the HTTP API surface, and the pure helpers that
//! turn its results into protocol values.  The HTTP calls themselves live
//! outside this crate; these are the values they carry.

use vstd::prelude::*;
use crate::protocol::{InputMedia, InputMediaKind};

verus! {

/// Result of requesting a login code.
#[derive(Clone, Debug, PartialEq)]
pub struct SendCodeResult {
    pub existing_user: bool,
}

/// Result of verifying a login code.
#[derive(Clone, Debug, PartialEq)]
pub struct VerifyCodeResult {
    pub user_id: i64,
    pub token: String,
}

/// How an uploaded file is to be treated.
#[derive(Clone, Copy, Debug, PartialEq, Eq, Structural)]
pub enum UploadFileType {
    Photo,
    Video,
    Document,
}

impl UploadFileType {
    /// The wire label of the upload type.
    pub fn as_str(&self) -> (r: &'static str)
        ensures
            self is Photo ==> r@ == "photo"@,
            self is Video ==> r@ == "video"@,
            self is Document ==> r@ == "document"@,
    {
        match self {
            UploadFileType::Photo => "photo",
            UploadFileType::Video => "video",
            UploadFileType::Document => "document",
        }
    }
}

/// Dimensions and duration probed from a video file.
#[derive(Clone, Debug, PartialEq)]
pub struct UploadVideoMetadata {
    pub width: i32,
    pub height: i32,
    pub duration: i32,
}

/// One file to upload.
#[derive(Clone, Debug, PartialEq)]
pub struct UploadFileInput {
    pub path: String,
    pub file_name: String,
    pub mime_type: Option<String>,
    pub file_type: UploadFileType,
    pub video_metadata: Option<UploadVideoMetadata>,
}

/// What the upload endpoint returns: at most one media id is set.
#[derive(Clone, Debug, PartialEq)]
pub struct UploadFileResult {
    pub file_unique_id: String,
    pub photo_id: Option<i64>,
    pub video_id: Option<i64>,
    pub document_id: Option<i64>,
}

/// Input of the read-receipt endpoint.
#[derive(Clone, Debug, PartialEq)]
pub struct ReadMessagesInput {
    pub peer_user_id: Option<i64>,
    pub peer_thread_id: Option<i64>,
    pub max_id: Option<i64>,
}

/// The read-receipt endpoint returns no data.
#[derive(Clone, Debug, PartialEq)]
pub struct ReadMessagesResult {
}

/// Input for creating an issue in Linear from a message.
#[derive(Clone, Debug, PartialEq)]
pub struct CreateLinearIssueInput {
    pub text: String,
    pub message_id: i64,
    pub chat_id: i64,
    pub from_id: i64,
    pub peer_user_id: Option<i64>,
    pub peer_thread_id: Option<i64>,
    pub space_id: Option<i64>,
}

/// What the Linear endpoint returns.
#[derive(Clone, Debug, PartialEq)]
pub struct CreateLinearIssueResult {
    pub link: Option<String>,
}

/// Input for creating a Notion task from a message.
#[derive(Clone, Debug, PartialEq)]
pub struct CreateNotionTaskInput {
    pub space_id: i64,
    pub message_id: i64,
    pub chat_id: i64,
    pub peer_user_id: Option<i64>,
    pub peer_thread_id: Option<i64>,
}

/// What the Notion endpoint returns.
#[derive(Clone, Debug, PartialEq)]
pub struct CreateNotionTaskResult {
    pub url: String,
    pub task_title: Option<String>,
}

/// The outbound media reference for an upload result: the photo id when
/// present, else the video id, else the document id; an error when the
/// response carries none.
pub fn input_media_from_upload(upload: &UploadFileResult) -> (r: Result<InputMedia, &'static str>)
    ensures
        match r {
            Result::Ok(m) => match upload.photo_id {
                Option::Some(id) => m.media == Option::Some(InputMediaKind::Photo(id)),
                Option::None => match upload.video_id {
                    Option::Some(id) => m.media == Option::Some(InputMediaKind::Video(id)),
                    Option::None => match upload.document_id {
                        Option::Some(id) => m.media == Option::Some(
                            InputMediaKind::Document(id),
                        ),
                        Option::None => false,
                    },
                },
            },
            Result::Err(_) => upload.photo_id is None && upload.video_id is None
                && upload.document_id is None,
        },
{
    match upload.photo_id {
        Option::Some(id) => Result::Ok(InputMedia { media: Option::Some(InputMediaKind::Photo(id)) }),
        Option::None => match upload.video_id {
            Option::Some(id) => Result::Ok(
                InputMedia { media: Option::Some(InputMediaKind::Video(id)) },
            ),
            Option::None => match upload.document_id {
                Option::Some(id) => Result::Ok(
                    InputMedia { media: Option::Some(InputMediaKind::Document(id)) },
                ),
                Option::None => Result::Err("Upload response missing media id"),
            },
        },
    }
}

/// How a login identifies its account.
#[derive(Clone, Debug, PartialEq)]
pub enum Contact {
    Email(String),
    Phone(String),
}

/// The login contact from command arguments: at most one of an email or a
/// phone number, trimmed; nothing when neither was given.
pub fn contact_from_args(email: Option<String>, phone: Option<String>) -> (r: Result<
    Option<Contact>,
    &'static str,
>)
    ensures
        match r {
            Result::Ok(c) => match c {
                Option::Some(Contact::Email(e)) => (email matches Option::Some(e0) && e@
                    == crate::output::spec_trimmed(e0@)) && phone is None,
                Option::Some(Contact::Phone(p)) => email is None && (phone matches
                    Option::Some(p0) && p@ == crate::output::spec_trimmed(p0@)),
                Option::None => email is None && phone is None,
            },
            Result::Err(_) => email is Some && phone is Some,
        },
{
    if email.is_some() && phone.is_some() {
        return Result::Err("Provide only one of --email or --phone");
    }
    match email {
        Option::Some(e) => {
            let t = crate::output::trimmed(e.as_str());
            return Result::Ok(Option::Some(Contact::Email(String::from_str(t))));
        }
        Option::None => {}
    }
    match phone {
        Option::Some(p) => {
            let t = crate::output::trimmed(p.as_str());
            return Result::Ok(Option::Some(Contact::Phone(String::from_str(t))));
        }
        Option::None => {}
    }
    Result::Ok(Option::None)
}

} // verus!
