//! The upload of a file to be tested: how the body of a submission is received,
//! what the client is told meanwhile, and what becomes of it.

use vstd::prelude::*;
use vstd::string::*;

use crate::server::model::RequestView;
use crate::server::queue::{RequestItem, RequestType};
use crate::text;

verus! {

/// What happens to the body of a submission.
#[derive(Debug)]
pub enum BodyEvent {
    /// A chunk of data came
    Data(Vec<u8>),
    /// A frame came that holds no data; the text describes it
    NotData(String),
    /// The next frame could not be read; the text says why
    Failed(String),
    /// The body is complete
    End,
}

/// Why the uploaded file could not be saved.
#[derive(Debug)]
pub enum FileError {
    /// The file could not be created; the text says why
    Create(String),
    /// The file could not be written; the text says why
    Write(String),
}

/// What is to be done next about an upload.
#[derive(Debug, Clone, Copy, PartialEq, Eq, Structural)]
pub enum UploadPhase {
    /// Receive more of the body
    Receive,
    /// Save the file and queue the request
    Submit,
    /// Nothing
    Ended,
}

/// How far an upload has come.
#[derive(Debug)]
pub struct LabTaskStreamStatus {
    /// What was received
    pub content: Vec<u8>,
    /// 2 when the upload has ended, 1 when the body is complete, anything else before
    pub status_code: u8,
    /// Unique identifier for the request
    pub request_id: String,
    /// Where the file is saved
    pub tmp_file_path: String,
    /// The lab that the file is for
    pub lab: RequestType,
    /// How much may be received
    pub upload_file_size_limit_bytes: usize,
}

/// What a [`LabTaskStreamStatus`] holds.
pub struct UploadView {
    pub content: Seq<u8>,
    pub status_code: u8,
    pub request_id: Seq<char>,
    pub tmp_file_path: Seq<char>,
    pub lab: RequestType,
    pub limit: nat,
}

impl View for LabTaskStreamStatus {
    type V = UploadView;

    open spec fn view(&self) -> UploadView {
        UploadView {
            content: self.content@,
            status_code: self.status_code,
            request_id: self.request_id@,
            tmp_file_path: self.tmp_file_path@,
            lab: self.lab,
            limit: self.upload_file_size_limit_bytes as nat,
        }
    }
}

/// What the client is told, how the upload goes on, and the file that is to be
/// removed, if one is.
#[derive(Debug)]
pub struct UploadReply {
    pub frame: String,
    pub status: LabTaskStreamStatus,
    pub cleanup: Option<String>,
}

/// What is to be done after saving the file was tried.
#[derive(Debug)]
pub enum SaveStep {
    /// Send the request to the queue, and answer with its reply
    Enqueue(RequestItem, LabTaskStreamStatus),
    /// Answer the client; nothing is queued
    Answer(UploadReply),
}

/// A message that an error occurred on the server.
pub open spec fn error_frame(message: Seq<char>) -> Seq<char> {
    "{\"status\": \"ServerError\", \"message\": "@ + text::json_quoted(message) + "}"@
}

/// A message that a chunk of a size was received.
pub open spec fn progress_frame(size: nat) -> Seq<char> {
    "{\"status\": \"Processing\", \"progress\": "@ + text::decimal(size) + "}\n"@
}

/// A message that more was received than may be.
pub open spec fn too_large_frame(limit: nat) -> Seq<char> {
    "{\"status\": \"FileSizeExceeded\", \"message\": \"Upload file size exceeds limit of "@
        + text::decimal(limit) + " bytes\"}\n"@
}

/// A message that the body is complete.
pub open spec fn complete_frame() -> Seq<char> {
    "{\"status\": \"FileUploadCompleted\"}\n"@
}

/// A message that the request was taken in.
pub open spec fn accepted_frame(id: Seq<char>) -> Seq<char> {
    "{\"status\": \"OK\", \"uuid\": \""@ + id + "\"}"@
}

/// A message that too many requests wait.
pub open spec fn refused_frame() -> Seq<char> {
    "{\"status\": \"TooManyRequests\", \"message\": \"Too many requests\"}"@
}

impl UploadView {
    /// The upload with another status.
    pub open spec fn with_status(self, status: u8) -> Self {
        UploadView { status_code: status, ..self }
    }

    /// What is to be done next.
    pub open spec fn phase(self) -> UploadPhase {
        if self.status_code == 2 {
            UploadPhase::Ended
        } else if self.status_code == 1 {
            UploadPhase::Submit
        } else {
            UploadPhase::Receive
        }
    }

    /// The upload after a chunk of data was added.
    pub open spec fn with_data(self, bytes: Seq<u8>) -> Self {
        UploadView { content: self.content + bytes, ..self }
    }

    /// The upload after an event of the body.
    pub open spec fn after(self, event: BodyEvent) -> Self {
        match event {
            BodyEvent::Data(bytes) => {
                let received = self.with_data(bytes@);
                received.with_status(
                    if received.content.len() > self.limit {
                        2
                    } else {
                        0
                    },
                )
            },
            BodyEvent::NotData(_) => self.with_status(2),
            BodyEvent::Failed(_) => self.with_status(2),
            BodyEvent::End => self.with_status(1),
        }
    }

    /// What the client is told on an event of the body.
    pub open spec fn told(self, event: BodyEvent) -> Seq<char> {
        match event {
            BodyEvent::Data(bytes) => if self.content.len() + bytes@.len() > self.limit {
                too_large_frame(self.limit)
            } else {
                progress_frame(bytes@.len())
            },
            BodyEvent::NotData(what) => error_frame("Failed to read body frame: "@ + what@)
                + "\n"@,
            BodyEvent::Failed(why) => error_frame("Failed to read body frame: "@ + why@) + "\n"@,
            BodyEvent::End => complete_frame(),
        }
    }

    /// The request that goes to the queue: its body is the path of the saved file.
    pub open spec fn request(self) -> RequestView {
        RequestView {
            id: self.request_id,
            req_type: self.lab,
            body: vstd::utf8::encode_utf8(self.tmp_file_path),
        }
    }
}

/// Why a file could not be saved, in words.
pub open spec fn file_error_message(path: Seq<char>, error: FileError) -> Seq<char> {
    match error {
        FileError::Create(why) => "Failed to create temporary file "@ + path + ": "@ + why@,
        FileError::Write(why) => "Failed to write to temporary file "@ + path + ": "@ + why@,
    }
}

/// Tells the client that an error occurred on the server.
fn server_error(message: &str) -> (frame: String)
    ensures
        frame@ == error_frame(message@),
{
    let mut frame = "{\"status\": \"ServerError\", \"message\": ".to_owned();
    frame.append(text::json_text(message).as_str());
    frame.append("}");
    frame
}

impl LabTaskStreamStatus {
    pub fn set_status(self, status: u8) -> (r: Self)
        ensures
            r@ == self@.with_status(status),
    {
        LabTaskStreamStatus { status_code: status, ..self }
    }

    pub fn status(&self) -> (status: u8)
        ensures
            status == self@.status_code,
    {
        self.status_code
    }

    pub fn push_content(self, bytes: Vec<u8>) -> (r: Self)
        ensures
            r@ == self@.with_data(bytes@),
    {
        let mut more = bytes;
        let mut r = self;
        r.content.append(&mut more);
        r
    }

    /// What is to be done next.
    pub fn phase(&self) -> (phase: UploadPhase)
        ensures
            phase == self@.phase(),
    {
        if self.status() == 2 {
            UploadPhase::Ended
        } else if self.status() == 1 {
            UploadPhase::Submit
        } else {
            UploadPhase::Receive
        }
    }

    /// The request that goes to the queue: its body is the path of the saved file.
    pub fn request(&self) -> (request: RequestItem)
        ensures
            request@ == self@.request(),
            request.id@ == self.request_id@,
            request.req_type == self.lab,
    {
        RequestItem {
            id: self.request_id.clone(),
            req_type: self.lab,
            body: self.tmp_file_path.as_str().as_bytes_vec(),
        }
    }

    /// The answer when the file could not be saved: the upload has ended.
    pub fn file_failed(self, error: FileError) -> (reply: UploadReply)
        ensures
            reply.frame@ == error_frame(file_error_message(self@.tmp_file_path, error)),
            reply.status@ == self@.with_status(2),
            reply.cleanup is None,
    {
        let mut message: String;
        match &error {
            FileError::Create(why) => {
                message = "Failed to create temporary file ".to_owned();
                message.append(self.tmp_file_path.as_str());
                message.append(": ");
                message.append(why.as_str());
            },
            FileError::Write(why) => {
                message = "Failed to write to temporary file ".to_owned();
                message.append(self.tmp_file_path.as_str());
                message.append(": ");
                message.append(why.as_str());
            },
        }
        let frame = server_error(message.as_str());
        UploadReply { frame, status: self.set_status(2), cleanup: None }
    }

    /// What is to be done after saving the file was tried: the request is queued if
    /// the file was saved, and only then.
    pub fn file_saved(self, saved: Result<(), FileError>) -> (step: SaveStep)
        ensures
            match saved {
                Ok(_) => {
                    &&& step matches SaveStep::Enqueue(request, status)
                    &&& request@ == self@.request()
                    &&& request.id@ == self.request_id@
                    &&& request.req_type == self.lab
                    &&& status@ == self@
                },
                Err(error) => {
                    &&& step matches SaveStep::Answer(reply)
                    &&& reply.frame@ == error_frame(file_error_message(self@.tmp_file_path, error))
                    &&& reply.status@ == self@.with_status(2)
                    &&& reply.cleanup is None
                },
            },
    {
        match saved {
            Ok(_) => {
                let request = self.request();
                SaveStep::Enqueue(request, self)
            },
            Err(error) => SaveStep::Answer(self.file_failed(error)),
        }
    }

    /// The answer when the queue has replied: the upload has ended, and the file
    /// is removed if the request was not taken in.
    pub fn queue_replied(self, reply: Result<String, ()>) -> (r: UploadReply)
        ensures
            r.status@ == self@.with_status(2),
            match reply {
                Ok(_) => r.frame@ == accepted_frame(self@.request_id) && r.cleanup is None,
                Err(_) => {
                    &&& r.frame@ == refused_frame()
                    &&& r.cleanup matches Some(file) && file@ == self@.tmp_file_path
                },
            },
    {
        if reply.is_ok() {
            let mut frame = "{\"status\": \"OK\", \"uuid\": \"".to_owned();
            frame.append(self.request_id.as_str());
            frame.append("\"}");
            UploadReply { frame, status: self.set_status(2), cleanup: None }
        } else {
            let frame = "{\"status\": \"TooManyRequests\", \"message\": \"Too many requests\"}".to_owned();
            let file = self.tmp_file_path.clone();
            UploadReply { frame, status: self.set_status(2), cleanup: Some(file) }
        }
    }
}

/// The answer to an event of the body: what the client is told, and how the
/// upload goes on.
pub fn write_body_to_content(status: LabTaskStreamStatus, event: BodyEvent) -> (r: (
    String,
    LabTaskStreamStatus,
))
    ensures
        r.0@ == status@.told(event),
        r.1@ == status@.after(event),
{
    match event {
        BodyEvent::Data(bytes) => {
            let len = bytes.len();
            let status = status.push_content(bytes);
            if status.content.len() > status.upload_file_size_limit_bytes {
                let mut frame =
                    "{\"status\": \"FileSizeExceeded\", \"message\": \"Upload file size exceeds limit of ".to_owned();
                frame.append(
                    text::decimal_text(status.upload_file_size_limit_bytes as u64).as_str(),
                );
                frame.append(" bytes\"}\n");
                return (frame, status.set_status(2));
            }
            let mut frame = "{\"status\": \"Processing\", \"progress\": ".to_owned();
            frame.append(text::decimal_text(len as u64).as_str());
            frame.append("}\n");
            (frame, status.set_status(0))
        },
        BodyEvent::NotData(what) => {
            let mut frame = server_error(
                text::join("Failed to read body frame: ", what.as_str()).as_str(),
            );
            frame.append("\n");
            (frame, status.set_status(2))
        },
        BodyEvent::Failed(why) => {
            let mut frame = server_error(
                text::join("Failed to read body frame: ", why.as_str()).as_str(),
            );
            frame.append("\n");
            (frame, status.set_status(2))
        },
        BodyEvent::End => (
            "{\"status\": \"FileUploadCompleted\"}\n".to_owned(),
            status.set_status(1),
        ),
    }
}

} // verus!
