use pastepoint::config::{default_log_level, is_dev_env};
use pastepoint::protocol::{
    ack_message, decimal_text, file_chunk_messages, file_message, metadata_from_members, parse_chunk_metadata,
    split_metadata_and_data,
};
use pastepoint::routes::{
    check_suspicious_connection, create_session_key, get_client_ip, validate_websocket_headers,
    ClientIpError,
};
use pastepoint::{FileChunkMetadata, ServerConfig, ServerError, MAX_FRAME_SIZE};

fn config(allowed: &str) -> ServerConfig {
    ServerConfig {
        bind_address: "127.0.0.1:8443".to_string(),
        key_file_path: "key.pem".to_string(),
        cert_file_path: "cert.pem".to_string(),
        auto_join: false,
        rate_limit_per_second: 10,
        rate_limit_burst_size: 20,
        log_level: default_log_level(),
        cors_allowed_origins: allowed.to_string(),
    }
}

#[test]
fn test_check_origin_allowed() {
    assert!(config("https://pastepoint.com").check_origin("https://pastepoint.com"));
    assert!(config("http://pastepoint.com").check_origin("http://pastepoint.com"));
}

#[test]
fn test_check_origin_allowed_www() {
    assert!(config("https://www.pastepoint.com").check_origin("https://www.pastepoint.com"));
    assert!(config("http://www.pastepoint.com").check_origin("http://www.pastepoint.com"));
}

#[test]
fn test_check_origin_subdomain() {
    assert!(config("https://pastepoint.com").check_origin("https://sub.pastepoint.com"));
    assert!(config("http://pastepoint.com").check_origin("http://sub.pastepoint.com"));
}

#[test]
fn test_check_origin_spoofed() {
    assert!(!config("https://pastepoint.com").check_origin("https://pastepoint.com.evil.com"));
    assert!(!config("http://pastepoint.com").check_origin("http://pastepoint.com.evil.com"));
}

#[test]
fn origin_check_ignores_scheme_and_path() {
    assert!(config("pastepoint.com").check_origin("https://pastepoint.com/app"));
    assert!(!config("pastepoint.com").check_origin("https://evilpastepoint.com"));
}

#[test]
fn default_settings() {
    assert_eq!(default_log_level(), "debug");
    assert!(is_dev_env("development"));
    assert!(is_dev_env("docker-dev"));
    assert!(!is_dev_env("production"));
}

#[test]
fn metadata_round_trips_through_json() {
    let mut object = serde_json::Map::new();
    object.insert("file_name".to_string(), serde_json::Value::String("a.txt".to_string()));
    object.insert("mime_type".to_string(), serde_json::Value::String("text/plain".to_string()));
    object.insert("total_chunks".to_string(), serde_json::Value::from(3u64));
    object.insert("current_chunk".to_string(), serde_json::Value::from(1u64));
    let bytes = serde_json::to_vec(&serde_json::Value::Object(object)).unwrap();
    assert_eq!(
        parse_chunk_metadata(&bytes),
        Ok(FileChunkMetadata {
            file_name: "a.txt".to_string(),
            mime_type: "text/plain".to_string(),
            total_chunks: 3,
            current_chunk: 1,
        })
    );
}

#[test]
fn metadata_needs_every_member() {
    assert_eq!(
        parse_chunk_metadata(br#"{"file_name":"a","mime_type":"b","total_chunks":3}"#),
        Err(ServerError::MetadataParsingError)
    );
    assert_eq!(
        parse_chunk_metadata(br#"{"file_name":"a","mime_type":"b","total_chunks":-1,"current_chunk":0}"#),
        Err(ServerError::MetadataParsingError)
    );
    assert_eq!(
        metadata_from_members(Some("a".to_string()), None, Some(1), Some(0)),
        Err(ServerError::MetadataParsingError)
    );
}

#[test]
fn split_at_first_zero() {
    assert_eq!(
        split_metadata_and_data(&[1, 2, 0, 3, 0, 4]),
        Ok((vec![1, 2], vec![3, 0, 4]))
    );
    assert_eq!(split_metadata_and_data(&[0]), Ok((vec![], vec![])));
    assert_eq!(split_metadata_and_data(&[1, 2]), Err(ServerError::InvalidFile));
}

#[test]
fn file_frames_carry_base64() {
    assert_eq!(
        file_message("a.txt", "text/plain", b"abcdef"),
        "[SystemFile]:a.txt:text/plain:YWJjZGVm"
    );
    assert_eq!(file_message("e", "m", b""), "[SystemFile]:e:m:");
    assert_eq!(file_message("x", "m", &[0xff]), "[SystemFile]:x:m:/w==");
    assert_eq!(ack_message("a.txt"), "[SystemAck]: File 'a.txt' sent successfully.");
}

#[test]
fn client_ip_by_environment() {
    assert_eq!(get_client_ip(true, None, None, Some("1.2.3.4")), Ok("1.2.3.4".to_string()));
    assert_eq!(get_client_ip(true, Some("9.9.9.9"), None, None), Err(ClientIpError::UnknownPeer));
    assert_eq!(
        get_client_ip(false, Some(" 10.0.0.1 , 10.0.0.2"), Some("8.8.8.8"), None),
        Ok("10.0.0.1".to_string())
    );
    assert_eq!(get_client_ip(false, None, Some(" 8.8.8.8 "), None), Ok("8.8.8.8".to_string()));
    assert_eq!(get_client_ip(false, None, None, Some("1.2.3.4")), Err(ClientIpError::MissingHeaders));
}

#[test]
fn session_key_joins_host_and_ip() {
    assert_eq!(create_session_key(Some("example.com"), "1.2.3.4"), "example.com:1.2.3.4");
    assert_eq!(create_session_key(None, "1.2.3.4"), "unknown_host:1.2.3.4");
}

#[test]
fn websocket_headers_are_checked() {
    assert_eq!(validate_websocket_headers(Some("keep-alive, Upgrade"), Some("WebSocket"), true, true), Ok(()));
    let refused = Err(ServerError::BadRequest(
        "This endpoint requires a WebSocket connection. Please use a WebSocket client.".to_string(),
    ));
    assert_eq!(validate_websocket_headers(Some("keep-alive"), Some("websocket"), true, true), refused);
    assert_eq!(validate_websocket_headers(Some("upgrade"), Some("websockets"), true, true), refused);
    assert_eq!(validate_websocket_headers(Some("upgrade"), Some("websocket"), false, true), refused);
    assert_eq!(validate_websocket_headers(None, None, true, true), refused);
}

#[test]
fn suspicious_user_agents() {
    assert!(check_suspicious_connection(Some("abc")));
    assert!(check_suspicious_connection(Some("GoogleBot/2.1")));
    assert!(!check_suspicious_connection(Some("Mozilla/5.0")));
    assert!(!check_suspicious_connection(None));
}

#[test]
fn errors_map_to_status_and_body() {
    assert_eq!(ServerError::InternalServerError.status_code(), 500);
    assert_eq!(ServerError::NotFound.status_code(), 404);
    assert_eq!(ServerError::BadRequest("x".to_string()).status_code(), 400);
    assert_eq!(ServerError::IndexOutOfBounds.status_code(), 400);
    assert_eq!(ServerError::NotFound.message(), "Not Found");
    assert_eq!(ServerError::BadRequest("bad".to_string()).message(), "Bad Request: bad");
    assert_eq!(ServerError::BadRequest("bad".to_string()).body(), "bad");
    assert_eq!(ServerError::ChunkMissing.body(), "Chunk Missing");
    assert_eq!(ServerError::FileReassemblyError.body(), "File Reassembly Error");
    assert_eq!(ServerError::MetadataParsingError.message(), "Metadata Parsing Error");
    assert_eq!(ServerError::InvalidFile.message(), "Invalid File");
    assert_eq!(ServerError::IndexOutOfBounds.message(), "Index out of bounds");
    assert_eq!(ServerError::InternalServerError.body(), "Internal Server Error");
}

#[test]
fn decimal_numbers() {
    assert_eq!(decimal_text(0), "0");
    assert_eq!(decimal_text(7), "7");
    assert_eq!(decimal_text(1024), "1024");
    assert_eq!(decimal_text(u64::MAX), u64::MAX.to_string());
}

#[test]
fn file_chunks_split_at_frame_size() {
    assert!(file_chunk_messages("f", "m", &[]).is_empty());
    assert_eq!(file_chunk_messages("f", "m", b"abc"), vec!["[SystemFileChunk]:f:m:1:1:YWJj".to_string()]);
    let data = vec![0u8; MAX_FRAME_SIZE + 1];
    let frames = file_chunk_messages("f", "m", &data);
    assert_eq!(frames.len(), 2);
    assert!(frames[0].starts_with("[SystemFileChunk]:f:m:1:2:"));
    assert_eq!(frames[1], "[SystemFileChunk]:f:m:2:2:AA==");
}
