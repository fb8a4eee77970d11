use remotestorage_client::client::{counter_bytes, counter_value, interpret_get_response,
    interpret_put_response, Client, Document, Method, StorageError};

fn client() -> Client {
    Client::new(
        "https://example.com".to_string(),
        "alice".to_string(),
        "counter".to_string(),
        "http://localhost:8000".to_string(),
        "https://storage.example/alice".to_string(),
        "abc123".to_string(),
        false,
    )
}

#[test]
fn get_request_shape() {
    let r = client().get_document("/experimental_counter/counter", None);
    assert_eq!(r.method, Method::Get);
    assert_eq!(r.url, "https://storage.example/alice/experimental_counter/counter");
    assert_eq!(r.authorization, "Bearer abc123");
    assert_eq!(r.content_type, None);
    assert!(r.body.is_none());
}

#[test]
fn put_request_shape() {
    let d = Document {
        etag: None,
        content: vec![1, 2, 3],
        content_type: "application/octet-stream".to_string(),
    };
    let r = client().put_document("/doc", &d);
    assert_eq!(r.method, Method::Put);
    assert_eq!(r.url, "https://storage.example/alice/doc");
    assert_eq!(r.authorization, "Bearer abc123");
    assert_eq!(r.content_type, Some("application/octet-stream".to_string()));
    assert_eq!(r.body, Some(vec![1, 2, 3]));
}

#[test]
fn put_then_get_round_trips_the_document() {
    // the server echoes what the request carried; reading it back gives the
    // written document
    let d = Document {
        etag: None,
        content: vec![9, 8, 7, 6],
        content_type: "text/plain".to_string(),
    };
    let put = client().put_document("/doc", &d);
    let get = client().get_document("/doc", None);
    assert_eq!(put.url, get.url);
    let echoed = interpret_get_response(200, put.body.unwrap(), put.content_type.unwrap());
    let back = echoed.unwrap();
    assert_eq!(back.content, d.content);
    assert_eq!(back.content_type, d.content_type);
}

#[test]
fn missing_document_is_not_found() {
    assert_eq!(
        interpret_get_response(404, Vec::new(), String::new()).err(),
        Some(StorageError::NotFound)
    );
}

#[test]
fn other_statuses_are_remote_errors() {
    assert_eq!(
        interpret_get_response(503, Vec::new(), String::new()).err(),
        Some(StorageError::Remote(503))
    );
    assert_eq!(interpret_put_response(201), Ok(()));
    assert_eq!(interpret_put_response(299), Ok(()));
    assert_eq!(interpret_put_response(404), Err(StorageError::Remote(404)));
    assert_eq!(interpret_put_response(500), Err(StorageError::Remote(500)));
}

#[test]
fn counter_bytes_are_big_endian() {
    assert_eq!(counter_bytes(1), vec![0, 0, 0, 1]);
    assert_eq!(counter_bytes(-1), vec![0xFF, 0xFF, 0xFF, 0xFF]);
    assert_eq!(counter_bytes(0x0102_0304), vec![1, 2, 3, 4]);
}

#[test]
fn counter_value_reads_the_first_four_bytes() {
    assert_eq!(counter_value(&vec![0, 0, 0, 5]), Some(5));
    assert_eq!(counter_value(&vec![0xFF, 0xFF, 0xFF, 0xFE, 42]), Some(-2));
    assert_eq!(counter_value(&vec![0, 0, 0]), None);
}

#[test]
fn counter_round_trips() {
    for v in [0, 1, -1, 7, -1000, i32::MAX, i32::MIN] {
        assert_eq!(counter_value(&counter_bytes(v)), Some(v));
    }
}

#[test]
fn document_from_counter_value() {
    let d = Document::from(5isize);
    assert_eq!(d.content, vec![0, 0, 0, 5]);
    assert_eq!(d.content_type, "text/plain");
    assert!(d.etag.is_none());
}
