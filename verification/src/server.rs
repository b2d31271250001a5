//! The server: where requests go, how an upload is opened, how a monitor is answered.
//!
//! ## Requests
//!
//! - `/test/lab1`: POST request for Lab 1 testing.
//! - `/test/lab2`: POST request for Lab 2 testing.
//! - `/test/lab3`: POST request for Lab 3 testing.
//! - `/report`: GET request for the report of the server status.
//! - `/monitor/{request-id}`: GET request for getting the result of a specific request.

use vstd::prelude::*;
use vstd::string::*;

use crate::server::model::ResponseView;
use crate::server::queue::{RequestResponse, RequestStatus, RequestType};
use crate::server::upload::{LabTaskStreamStatus, UploadView};
use crate::text;

pub mod answers;
pub mod laws;
pub mod model;
pub mod operations;
pub mod outcomes;
pub mod queue;
pub mod rounds;
pub mod submission;
pub mod turns;
pub mod upload;
pub mod worker;

verus! {

/// Where a request goes.
#[derive(Debug)]
pub enum Route {
    /// A submission for a lab
    Lab(RequestType),
    /// The report of the server status
    Report,
    /// A monitor of the request with this identifier
    Monitor(String),
    /// Nowhere
    NotFound,
}

/// What a [`Route`] holds.
pub enum RouteView {
    Lab(RequestType),
    Report,
    Monitor(Seq<char>),
    NotFound,
}

impl View for Route {
    type V = RouteView;

    open spec fn view(&self) -> RouteView {
        match self {
            Route::Lab(lab) => RouteView::Lab(*lab),
            Route::Report => RouteView::Report,
            Route::Monitor(id) => RouteView::Monitor(id@),
            Route::NotFound => RouteView::NotFound,
        }
    }
}

/// Where a request with a method and a path goes.
pub open spec fn route_of(method: Seq<char>, path: Seq<char>) -> RouteView {
    if method == "POST"@ && path == "/test/lab1"@ {
        RouteView::Lab(RequestType::Lab1)
    } else if method == "POST"@ && path == "/test/lab2"@ {
        RouteView::Lab(RequestType::Lab2)
    } else if method == "POST"@ && path == "/test/lab3"@ {
        RouteView::Lab(RequestType::Lab3)
    } else if method == "GET"@ && path == "/report"@ {
        RouteView::Report
    } else if method == "GET"@ && "/monitor/"@.is_prefix_of(path) {
        RouteView::Monitor(path.skip("/monitor/"@.len() as int))
    } else {
        RouteView::NotFound
    }
}

/// Whether a text is written as a random UUID is: five groups of lower case
/// hexadecimal digits, of which two hold the version and the variant.
pub open spec fn is_uuid(s: Seq<char>) -> bool {
    &&& s.len() == 36
    &&& forall|i: int|
        0 <= i < 36 ==> if i == 8 || i == 13 || i == 18 || i == 23 {
            #[trigger] s[i] == '-'
        } else {
            '0' <= s[i] <= '9' || 'a' <= s[i] <= 'f'
        }
    &&& s[14] == '4'
    &&& s[19] == '8' || s[19] == '9' || s[19] == 'a' || s[19] == 'b'
}

/// An identifier for a request. Calls `uuid::Uuid::new_v4`, which makes a random UUID of
/// version 4, and writes it with hyphens and lower case digits. Which UUID it is,
/// and that it differs from all others, no clause says. The call panics only where
/// the system gives no random numbers.
#[verifier::external_body]
fn new_request_id() -> (id: String)
    ensures
        is_uuid(id@),
{
    uuid::Uuid::new_v4().to_string()
}

/// The path of the file of an upload.
pub open spec fn tmp_file_path(dir: Seq<char>, id: Seq<char>) -> Seq<char> {
    dir + "/"@ + id + ".tar.gz"@
}

/// A line for a monitor: the status of its request, with the position in the
/// queue or the JSON form of the report.
pub open spec fn monitor_line(response: ResponseView) -> Seq<char> {
    let result_json = worker::report_json(response.test_result->0);
    match response.status {
        RequestStatus::Queued(q) => "{\"status\": \"QUEUE\", \"position\": "@ + text::decimal(
            q as nat,
        ) + "}\n"@,
        RequestStatus::Processing => "{\"status\": \"PROCESSING\", \"result\": "@ + result_json
            + "}\n"@,
        RequestStatus::Completed => "{\"status\": \"COMPLETED\", \"result\": "@ + result_json
            + "}\n"@,
        RequestStatus::NotFound => "{\"status\": \"NOTFOUND\"}\n"@,
    }
}

/// The settings of the server.
#[derive(Debug, Clone)]
pub struct Server {
    /// Maximum size of the channels between threads
    pub channel_size: usize,
    /// The directory of the uploaded files
    pub tmp_file_dir: String,
    /// How much one upload may hold
    pub upload_file_size_limit_bytes: usize,
}

impl Server {
    pub fn new(
        channel_size: usize,
        tmp_file_dir: String,
        upload_file_size_limit_bytes: usize,
    ) -> (server: Self)
        ensures
            server.channel_size == channel_size,
            server.tmp_file_dir == tmp_file_dir,
            server.upload_file_size_limit_bytes == upload_file_size_limit_bytes,
    {
        Server { channel_size, tmp_file_dir, upload_file_size_limit_bytes }
    }

    /// Where a request goes.
    pub fn route(method: &str, path: &str) -> (route: Route)
        ensures
            route@ == route_of(method@, path@),
    {
        if text::same_text(method, "POST") {
            proof {
                reveal_strlit("POST");
                reveal_strlit("GET");
                assert("POST"@.len() != "GET"@.len());
            }
            if text::same_text(path, "/test/lab1") {
                return Route::Lab(RequestType::Lab1);
            }
            if text::same_text(path, "/test/lab2") {
                return Route::Lab(RequestType::Lab2);
            }
            if text::same_text(path, "/test/lab3") {
                return Route::Lab(RequestType::Lab3);
            }
            return Route::NotFound;
        }
        if text::same_text(method, "GET") {
            if text::same_text(path, "/report") {
                return Route::Report;
            }
            if let Some(request_id) = text::strip_prefix(path, "/monitor/") {
                proof {
                    assert("/monitor/"@.is_prefix_of(path@));
                    assert(path@.skip("/monitor/"@.len() as int) =~= request_id@);
                }
                return Route::Monitor(request_id);
            }
        }
        Route::NotFound
    }

    /// The upload of a submission with a given identifier, before anything was received.
    pub fn open_upload(&self, id: String, lab: RequestType) -> (status: LabTaskStreamStatus)
        ensures
            status@ == (UploadView {
                content: Seq::empty(),
                status_code: 0,
                request_id: id@,
                tmp_file_path: tmp_file_path(self.tmp_file_dir@, id@),
                lab,
                limit: self.upload_file_size_limit_bytes as nat,
            }),
    {
        let mut path = self.tmp_file_dir.clone();
        path.append("/");
        path.append(id.as_str());
        path.append(".tar.gz");
        LabTaskStreamStatus {
            content: Vec::new(),
            status_code: 0,
            request_id: id,
            tmp_file_path: path,
            lab,
            upload_file_size_limit_bytes: self.upload_file_size_limit_bytes,
        }
    }

    /// The upload of a new submission, before anything was received. Its identifier
    /// is a random UUID.
    pub fn lab_task(&self, lab: RequestType) -> (status: LabTaskStreamStatus)
        ensures
            is_uuid(status@.request_id),
            status@ == (UploadView {
                content: Seq::empty(),
                status_code: 0,
                request_id: status@.request_id,
                tmp_file_path: tmp_file_path(self.tmp_file_dir@, status@.request_id),
                lab,
                limit: self.upload_file_size_limit_bytes as nat,
            }),
    {
        self.open_upload(new_request_id(), lab)
    }

    /// The line for a monitor, from the response of the queue.
    pub fn create_monitor_response(response_data: RequestResponse) -> (line: String)
        requires
            response_data.status is Processing || response_data.status is Completed
                ==> response_data.test_result is Some,
        ensures
            line@ == monitor_line(response_data@),
    {
        match response_data.status {
            RequestStatus::Queued(q) => {
                let mut line = "{\"status\": \"QUEUE\", \"position\": ".to_owned();
                line.append(text::decimal_text(q as u64).as_str());
                line.append("}\n");
                line
            },
            RequestStatus::Processing => {
                let mut line = "{\"status\": \"PROCESSING\", \"result\": ".to_owned();
                line.append(worker::report_text(&response_data.test_result.unwrap()).as_str());
                line.append("}\n");
                line
            },
            RequestStatus::Completed => {
                let mut line = "{\"status\": \"COMPLETED\", \"result\": ".to_owned();
                line.append(worker::report_text(&response_data.test_result.unwrap()).as_str());
                line.append("}\n");
                line
            },
            RequestStatus::NotFound => "{\"status\": \"NOTFOUND\"}\n".to_owned(),
        }
    }
}

} // verus!
