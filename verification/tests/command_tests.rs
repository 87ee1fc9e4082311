use yaad::commands::{
    cancel_recording, capture_context_from, check_capture_result, connection_error_message, contextual_text_query,
    decode_screenshot, embedding_error_message, initialization_status, insert_error_message,
    read_capture, start_recording, stop_recording, validate_memory_input, CaptureContext,
    CaptureFields, RecordingState,
};
use yaad::errors::AppError;

#[test]
fn memory_input_is_validated_in_order() {
    assert_eq!(validate_memory_input("remember milk", Some(5)), Ok(()));
    assert_eq!(validate_memory_input("remember milk", None), Ok(()));
    assert_eq!(
        validate_memory_input("  \n ", Some(5)),
        Err("Memory content cannot be empty".to_string())
    );
    assert_eq!(
        validate_memory_input("", Some(-1)),
        Err("Memory content cannot be empty".to_string())
    );
    let long = "a".repeat(10001);
    assert_eq!(
        validate_memory_input(&long, Some(99)),
        Err("Memory content is too long (max 10,000 characters)".to_string())
    );
    assert_eq!(validate_memory_input(&"a".repeat(10000), None), Ok(()));
    // the limit counts bytes of UTF-8
    let wide = "é".repeat(5001);
    assert_eq!(
        validate_memory_input(&wide, None),
        Err("Memory content is too long (max 10,000 characters)".to_string())
    );
    assert_eq!(validate_memory_input("x", Some(60)), Ok(()));
    assert_eq!(
        validate_memory_input("x", Some(61)),
        Err("Recording duration exceeds 60 seconds".to_string())
    );
    assert_eq!(validate_memory_input("x", Some(0)), Ok(()));
    assert_eq!(
        validate_memory_input("x", Some(-1)),
        Err("Invalid recording duration".to_string())
    );
}

#[test]
fn insert_errors_are_explained() {
    assert_eq!(
        insert_error_message("UNIQUE constraint failed: memories.id"),
        "Memory with this ID already exists"
    );
    assert_eq!(insert_error_message("database is locked"), "Database error. Please try again.");
    assert_eq!(insert_error_message("table locked"), "Database error. Please try again.");
    assert_eq!(insert_error_message("disk I/O error"), "Failed to save memory: disk I/O error");
}

#[test]
fn embedding_and_connection_errors_are_explained() {
    assert_eq!(
        embedding_error_message("Embedder not initialized. Call init_embedder() first."),
        "Embedding model not loaded. Please restart the app."
    );
    assert_eq!(
        embedding_error_message("bad input"),
        "Failed to generate embedding: bad input"
    );
    assert_eq!(
        connection_error_message("no such file"),
        "Database connection failed: no such file. Please try again."
    );
}

#[test]
fn screenshots_decode_from_base64() {
    let f = decode_screenshot(&Some("aGVsbG8=".to_string()), "id-1").unwrap();
    assert_eq!(f.bytes, b"hello".to_vec());
    assert_eq!(f.filename, "id-1.jpg");
    assert!(decode_screenshot(&Some("not base64!".to_string()), "id-1").is_none());
    assert!(decode_screenshot(&None, "id-1").is_none());
}

#[test]
fn capture_failures_are_reported() {
    assert_eq!(
        check_capture_result("ERROR: No active window found".to_string()),
        Err("ERROR: No active window found".to_string())
    );
    assert_eq!(check_capture_result("{}".to_string()), Ok("{}".to_string()));
}

#[test]
fn captures_are_read() {
    assert!(matches!(read_capture("ERROR: Capture failed".to_string()), Err(e) if e == "ERROR: Capture failed"));
    assert!(read_capture("not json".to_string()).is_err());
    assert!(matches!(
        read_capture(r#"{"app_name":"Safari"}"#.to_string()),
        Err(e) if e == "No image in capture"
    ));
    assert!(matches!(
        read_capture(r#"{"image": 5}"#.to_string()),
        Err(e) if e == "No image in capture"
    ));
    let c = read_capture(r#"{"image":"aGk=","app_name":"Safari","url":"https://a.example","ocr":7}"#.to_string())
        .unwrap();
    assert_eq!(c.image_bytes, Some(b"hi".to_vec()));
    assert_eq!(c.app_name, "Safari");
    assert_eq!(c.url, "https://a.example");
    assert_eq!(c.ocr_text, "");
    let c = read_capture(r#"{"image":"%%%"}"#.to_string()).unwrap();
    assert_eq!(c.image_bytes, None);
}

#[test]
fn text_query_joins_the_capture_fields() {
    let c = CaptureContext {
        image_bytes: None,
        app_name: "Safari".to_string(),
        ocr_text: "Total $5".to_string(),
        url: "https://a.example".to_string(),
    };
    assert_eq!(contextual_text_query(&c), Some("Safari https://a.example Total $5".to_string()));
    let blank = CaptureContext {
        image_bytes: None,
        app_name: String::new(),
        ocr_text: " ".to_string(),
        url: String::new(),
    };
    assert_eq!(contextual_text_query(&blank), None);
    let only_app = CaptureContext {
        image_bytes: None,
        app_name: "Mail".to_string(),
        ocr_text: String::new(),
        url: String::new(),
    };
    assert_eq!(contextual_text_query(&only_app), Some("Mail  ".to_string()));
}

#[test]
fn recording_flag_follows_the_commands() {
    let mut s = RecordingState { is_recording: false, start_time: None };
    assert!(start_recording(&mut s, Ok(()), 42).is_ok());
    assert!(s.is_recording);
    assert_eq!(s.start_time, Some(42));
    assert_eq!(stop_recording(&mut s), Ok(()));
    assert!(!s.is_recording);
    assert_eq!(s.start_time, None);
    assert_eq!(stop_recording(&mut s), Err("Not recording".to_string()));
    assert!(!s.is_recording);
}

#[test]
fn failed_start_leaves_no_recording() {
    let mut s = RecordingState { is_recording: true, start_time: Some(1) };
    let r = start_recording(&mut s, Err(AppError::AudioDeviceNotFound("No input device found".to_string())), 9);
    assert!(matches!(r, Err(AppError::AudioDeviceNotFound(m)) if m == "No input device found"));
    assert!(!s.is_recording);
    assert_eq!(s.start_time, None);
    let mut s = RecordingState { is_recording: true, start_time: Some(3) };
    cancel_recording(&mut s);
    assert!(!s.is_recording);
    assert_eq!(s.start_time, None);
}

#[test]
fn initialization_reports_readiness() {
    assert_eq!(initialization_status(true, true), "ready");
    assert_eq!(initialization_status(true, false), "downloading");
    assert_eq!(initialization_status(false, true), "downloading");
}

#[test]
fn capture_context_from_parsed_fields() {
    assert!(matches!(capture_context_from(Err("bad json".to_string())), Err(e) if e == "bad json"));
    let none = CaptureFields { image: None, app_name: Some("A".to_string()), ocr: None, url: None };
    assert!(matches!(capture_context_from(Ok(none)), Err(e) if e == "No image in capture"));
    let some = CaptureFields {
        image: Some("aGk=".to_string()),
        app_name: None,
        ocr: Some("text".to_string()),
        url: None,
    };
    let c = capture_context_from(Ok(some)).unwrap();
    assert_eq!(c.image_bytes, Some(b"hi".to_vec()));
    assert_eq!(c.app_name, "");
    assert_eq!(c.ocr_text, "text");
    assert_eq!(c.url, "");
}
