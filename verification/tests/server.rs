use tacos_test_server::server::queue::{RequestResponse, RequestStatus, RequestType};
use tacos_test_server::server::upload::{
    write_body_to_content, BodyEvent, FileError, LabTaskStreamStatus, SaveStep, UploadPhase,
};
use tacos_test_server::server::worker::{
    completed_result, processing_result, report_text, ResultCode, TestResult,
};
use tacos_test_server::server::{Route, Server};

fn server(limit: usize) -> Server {
    Server::new(16, "/tmp".to_string(), limit)
}

fn upload(limit: usize) -> LabTaskStreamStatus {
    server(limit).open_upload("u".to_string(), RequestType::Lab2)
}

fn response(status: RequestStatus, test_result: Option<TestResult>) -> RequestResponse {
    RequestResponse {
        id: "u".to_string(),
        status,
        test_result,
    }
}

#[test]
fn labs_are_posted_to() {
    assert!(matches!(
        Server::route("POST", "/test/lab1"),
        Route::Lab(RequestType::Lab1)
    ));
    assert!(matches!(
        Server::route("POST", "/test/lab2"),
        Route::Lab(RequestType::Lab2)
    ));
    assert!(matches!(
        Server::route("POST", "/test/lab3"),
        Route::Lab(RequestType::Lab3)
    ));
    assert!(matches!(
        Server::route("POST", "/test/lab4"),
        Route::NotFound
    ));
    assert!(matches!(
        Server::route("GET", "/test/lab1"),
        Route::NotFound
    ));
}

#[test]
fn monitor_and_report_are_got() {
    match Server::route("GET", "/monitor/abc-1") {
        Route::Monitor(id) => assert_eq!(id, "abc-1"),
        other => panic!("{:?}", other),
    }
    match Server::route("GET", "/monitor/") {
        Route::Monitor(id) => assert_eq!(id, ""),
        other => panic!("{:?}", other),
    }
    assert!(matches!(Server::route("GET", "/report"), Route::Report));
    assert!(matches!(Server::route("GET", "/monitor"), Route::NotFound));
    assert!(matches!(
        Server::route("POST", "/monitor/abc"),
        Route::NotFound
    ));
    assert!(matches!(Server::route("POST", "/report"), Route::NotFound));
    assert!(matches!(
        Server::route("PUT", "/test/lab1"),
        Route::NotFound
    ));
    assert!(matches!(Server::route("get", "/report"), Route::NotFound));
}

#[test]
fn new_upload_has_a_random_uuid() {
    let s = server(10);
    let a = s.lab_task(RequestType::Lab1);
    let b = s.lab_task(RequestType::Lab1);
    assert_ne!(a.request_id, b.request_id);
    assert_eq!(a.request_id.len(), 36);
    let chars: Vec<char> = a.request_id.chars().collect();
    for (i, c) in chars.iter().enumerate() {
        if i == 8 || i == 13 || i == 18 || i == 23 {
            assert_eq!(*c, '-');
        } else {
            assert!(c.is_ascii_digit() || ('a'..='f').contains(c));
        }
    }
    assert_eq!(chars[14], '4');
    assert!(matches!(chars[19], '8' | '9' | 'a' | 'b'));
    assert_eq!(a.tmp_file_path, format!("/tmp/{}.tar.gz", a.request_id));
    assert_eq!(a.status(), 0);
    assert!(a.content.is_empty());
}

#[test]
fn server_keeps_its_settings() {
    let s = server(9);
    assert_eq!(s.channel_size, 16);
    assert_eq!(s.tmp_file_dir, "/tmp");
    assert_eq!(s.upload_file_size_limit_bytes, 9);
}

#[test]
fn body_is_received_chunk_by_chunk() {
    let u = upload(5);
    assert_eq!(u.tmp_file_path, "/tmp/u.tar.gz");
    assert_eq!(u.phase(), UploadPhase::Receive);
    let (frame, u) = write_body_to_content(u, BodyEvent::Data(vec![1, 2, 3]));
    assert_eq!(frame, "{\"status\": \"Processing\", \"progress\": 3}\n");
    assert_eq!(u.phase(), UploadPhase::Receive);
    let (frame, u) = write_body_to_content(u, BodyEvent::Data(vec![4, 5]));
    assert_eq!(frame, "{\"status\": \"Processing\", \"progress\": 2}\n");
    let (frame, u) = write_body_to_content(u, BodyEvent::End);
    assert_eq!(frame, "{\"status\": \"FileUploadCompleted\"}\n");
    assert_eq!(u.status(), 1);
    assert_eq!(u.phase(), UploadPhase::Submit);
    assert_eq!(u.content, vec![1, 2, 3, 4, 5]);
    let request = u.request();
    assert_eq!(request.id, "u");
    assert_eq!(request.req_type, RequestType::Lab2);
    assert_eq!(request.body, b"/tmp/u.tar.gz".to_vec());
}

#[test]
fn body_over_the_limit_ends_the_upload() {
    let (_, u) = write_body_to_content(upload(4), BodyEvent::Data(vec![1, 2, 3]));
    let (frame, u) = write_body_to_content(u, BodyEvent::Data(vec![4, 5]));
    assert_eq!(
        frame,
        "{\"status\": \"FileSizeExceeded\", \"message\": \"Upload file size exceeds limit of 4 bytes\"}\n"
    );
    assert_eq!(u.status(), 2);
    assert_eq!(u.phase(), UploadPhase::Ended);
}

#[test]
fn broken_body_ends_the_upload() {
    let (frame, u) =
        write_body_to_content(upload(4), BodyEvent::Failed("connection reset".to_string()));
    assert_eq!(
        frame,
        "{\"status\": \"ServerError\", \"message\": \"Failed to read body frame: connection reset\"}\n"
    );
    assert_eq!(u.phase(), UploadPhase::Ended);
    let (frame, u) = write_body_to_content(upload(4), BodyEvent::NotData("trailers".to_string()));
    assert_eq!(
        frame,
        "{\"status\": \"ServerError\", \"message\": \"Failed to read body frame: trailers\"}\n"
    );
    assert_eq!(u.phase(), UploadPhase::Ended);
}

#[test]
fn error_messages_are_json_strings() {
    let detail = "say \"no\"\\ \u{8}\t\n\u{c}\r\u{1}\u{1f}\u{7f}\u{e9}/";
    let reply = upload(4).file_failed(FileError::Create(detail.to_string()));
    assert_eq!(
        reply.frame,
        "{\"status\": \"ServerError\", \"message\": \"Failed to create temporary file /tmp/u.tar.gz: say \\\"no\\\"\\\\ \\b\\t\\n\\f\\r\\u0001\\u001f\u{7f}\u{e9}/\"}"
    );
    let parsed: serde_json::Value = serde_json::from_str(&reply.frame).unwrap();
    assert_eq!(
        parsed["message"],
        format!(
            "Failed to create temporary file /tmp/u.tar.gz: {}",
            detail
        )
    );
}

#[test]
fn file_that_cannot_be_saved_ends_the_upload() {
    let reply = upload(4).file_failed(FileError::Create("denied".to_string()));
    assert_eq!(
        reply.frame,
        "{\"status\": \"ServerError\", \"message\": \"Failed to create temporary file /tmp/u.tar.gz: denied\"}"
    );
    assert_eq!(reply.status.phase(), UploadPhase::Ended);
    assert_eq!(reply.cleanup, None);
    let reply = upload(4).file_failed(FileError::Write("full".to_string()));
    assert_eq!(
        reply.frame,
        "{\"status\": \"ServerError\", \"message\": \"Failed to write to temporary file /tmp/u.tar.gz: full\"}"
    );
    assert_eq!(reply.status.phase(), UploadPhase::Ended);
    assert_eq!(reply.cleanup, None);
}

#[test]
fn reply_of_the_queue_ends_the_upload() {
    let reply = upload(4).queue_replied(Ok("u".to_string()));
    assert_eq!(reply.frame, "{\"status\": \"OK\", \"uuid\": \"u\"}");
    assert_eq!(reply.status.phase(), UploadPhase::Ended);
    assert_eq!(reply.cleanup, None);
    let reply = upload(4).queue_replied(Err(()));
    assert_eq!(
        reply.frame,
        "{\"status\": \"TooManyRequests\", \"message\": \"Too many requests\"}"
    );
    assert_eq!(reply.status.phase(), UploadPhase::Ended);
    assert_eq!(reply.cleanup, Some("/tmp/u.tar.gz".to_string()));
}

#[test]
fn status_and_content_change_alone() {
    let u = upload(4).push_content(vec![9]).set_status(7);
    assert_eq!(u.status(), 7);
    assert_eq!(u.phase(), UploadPhase::Receive);
    assert_eq!(u.content, vec![9]);
    assert_eq!(u.request_id, "u");
    let u = u.push_content(vec![]).push_content(vec![8, 7]);
    assert_eq!(u.content, vec![9, 8, 7]);
    assert_eq!(u.status(), 7);
}

#[test]
fn monitor_lines() {
    let line = Server::create_monitor_response;
    assert_eq!(
        line(response(RequestStatus::Queued(12), None)),
        "{\"status\": \"QUEUE\", \"position\": 12}\n"
    );
    assert_eq!(
        line(response(RequestStatus::NotFound, None)),
        "{\"status\": \"NOTFOUND\"}\n"
    );
    let one = processing_result("u".to_string(), "say \"hi\"\n".to_string());
    assert_eq!(
        line(response(RequestStatus::Processing, Some(one))),
        "{\"status\": \"PROCESSING\", \"result\": {\"id\":\"u\",\"point\":0,\"total\":0,\
         \"output\":\"say \\\"hi\\\"\\n\",\"time_ms\":0,\"result_code\":\"Processing\"}}\n"
    );
    let last = completed_result("u".to_string(), 1234);
    assert_eq!(
        line(response(RequestStatus::Completed, Some(last))),
        "{\"status\": \"COMPLETED\", \"result\": {\"id\":\"u\",\"point\":0,\"total\":0,\
         \"output\":\"Completed\",\"time_ms\":1234,\"result_code\":\"Completed\"}}\n"
    );
}

#[test]
fn monitor_answers_are_single_lines() {
    for output in ["plain", "two\nlines\r\n", "\u{1}\t\\"] {
        let result = processing_result("u\n".to_string(), output.to_string());
        let line =
            Server::create_monitor_response(response(RequestStatus::Processing, Some(result)));
        assert!(line.ends_with('\n'));
        assert_eq!(line.matches('\n').count(), 1);
    }
}

#[test]
fn reports_can_be_read_back_as_json() {
    let codes = [
        (ResultCode::Processing, "Processing"),
        (ResultCode::Completed, "Completed"),
        (ResultCode::Canceled, "Canceled"),
        (ResultCode::TimeLimitExceeded, "TimeLimitExceeded"),
        (ResultCode::RuntimeError, "RuntimeError"),
        (ResultCode::ServerError, "ServerError"),
    ];
    for (result_code, name) in codes {
        let result = TestResult {
            id: "a\"b".to_string(),
            point: 7,
            total: u32::MAX,
            output: "x\ny\u{e9}\u{7f}\u{1f}".to_string(),
            time_ms: u64::MAX,
            result_code,
        };
        let value: serde_json::Value = serde_json::from_str(&report_text(&result)).unwrap();
        assert_eq!(value["id"], "a\"b");
        assert_eq!(value["point"], 7);
        assert_eq!(value["total"], u32::MAX);
        assert_eq!(value["output"], "x\ny\u{e9}\u{7f}\u{1f}");
        assert_eq!(value["time_ms"], u64::MAX);
        assert_eq!(value["result_code"], name);
        assert_eq!(value.as_object().unwrap().len(), 6);
    }
}

#[test]
fn large_positions_are_written_in_full() {
    let line =
        Server::create_monitor_response(response(RequestStatus::Queued(usize::MAX), None));
    assert_eq!(
        line,
        format!("{{\"status\": \"QUEUE\", \"position\": {}}}\n", usize::MAX)
    );
    let line = Server::create_monitor_response(response(RequestStatus::Queued(100), None));
    assert_eq!(line, "{\"status\": \"QUEUE\", \"position\": 100}\n");
}

#[test]
fn submissions_are_saved_in_different_files() {
    let s = server(10);
    let one = s.open_upload("u".to_string(), RequestType::Lab1);
    let other = s.open_upload("v".to_string(), RequestType::Lab1);
    assert_eq!(one.tmp_file_path, "/tmp/u.tar.gz");
    assert_eq!(other.tmp_file_path, "/tmp/v.tar.gz");
}

#[test]
fn answers_to_body_events_are_single_lines() {
    let events = vec![
        BodyEvent::Data(vec![1, 2, 3]),
        BodyEvent::Data(vec![0; 11]),
        BodyEvent::NotData("a\nb".to_string()),
        BodyEvent::Failed("c\r\nd".to_string()),
        BodyEvent::End,
    ];
    for event in events {
        let (frame, _) = write_body_to_content(upload(10), event);
        assert!(frame.ends_with('\n'));
        assert_eq!(frame.matches('\n').count(), 1);
    }
}

#[test]
fn only_a_saved_file_is_queued() {
    match upload(10).set_status(1).file_saved(Ok(())) {
        SaveStep::Enqueue(request, status) => {
            assert_eq!(request.id, "u");
            assert_eq!(request.req_type, RequestType::Lab2);
            assert_eq!(request.body, b"/tmp/u.tar.gz".to_vec());
            assert_eq!(status.status(), 1);
        }
        other => panic!("{:?}", other),
    }
    let full = FileError::Write("disk full".to_string());
    match upload(10).set_status(1).file_saved(Err(full)) {
        SaveStep::Answer(reply) => {
            assert_eq!(
                reply.frame,
                "{\"status\": \"ServerError\", \"message\": \"Failed to write to temporary \
                 file /tmp/u.tar.gz: disk full\"}"
            );
            assert_eq!(reply.status.phase(), UploadPhase::Ended);
            assert_eq!(reply.cleanup, None);
        }
        other => panic!("{:?}", other),
    }
}
