# Tacos Test Server

An online testing server for the Tacos operating system lab: a client uploads its
source file, the server queues it, a worker runs the test script on it, and the
client follows the output.

The decisions of the server are a library that is verified with Verus. The program
around it does the input and output.

## Layout

- `src/config.rs`: the settings and their defaults.
- `src/table.rs`: a table from text to values that keeps the order of its entries.
- `src/text.rs`: decimal numbers, JSON strings, bytes read as text.
- `src/server.rs`: where a request goes, how an upload is opened, how a monitor is
  answered.
- `src/server/upload.rs`: how the body of a submission is received.
- `src/server/model.rs`: the request queue as a mathematical value.
- `src/server/queue.rs`: the request queue.
- `src/server/worker.rs`: what a worker runs, and what it reports.
- `src/server/laws.rs`: what holds of the queue, the workers and the uploads as a
  whole.
- `src/server/turns.rs`: what holds of the queue over turns.
- `app/`: the program: HTTP, threads, channels, processes, files.
- `tests/`: tests of the library.

## Threads

The HTTP service, the queue and each worker are threads of their own that share
nothing and talk through channels. The queue thread drains its channels, calls
`Queue::poll` with what came, sends what that returns, and calls `Queue::settle`
with the monitors that could not be reached. A worker thread runs the command that
`Worker::poll` gives, hands each event of the run to `Worker::run_test`, and ends
with the report of `Worker::run_test_with_timeout`.

## API

- `POST /test/lab1`, `/test/lab2`, `/test/lab3`: the body is the file to be tested.
  The answer is a stream of JSON objects with a `status`: `Processing` for each chunk,
  `FileUploadCompleted`, then `OK` with the `uuid` of the request or
  `TooManyRequests`; `FileSizeExceeded` or `ServerError` if something went wrong.
- `GET /monitor/{uuid}`: a stream of lines with a JSON object each, whose `status` is
  `QUEUE`, `PROCESSING`, `COMPLETED` or `NOTFOUND`.
- `GET /report`: answered with `501 Not Implemented`.

## What is trusted

The contracts of these functions are believed, not proved:

- `json_text` in `src/text.rs` calls `serde_json`;
- `read_lossy` in `src/text.rs` calls the standard library;
- `new_request_id` in `src/server.rs` calls `uuid`;
- `millis_between` in `src/server/worker.rs` calls `chrono`.
