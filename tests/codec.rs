use redis_session::{MyError, Session};

#[test]
fn encode_plain_record() {
    let s = Session::new(String::from("sid"), String::from("credentials"));
    assert_eq!(s.encode(), "{\"sid\":\"sid\",\"credentials\":\"credentials\"}");
}

#[test]
fn encode_escapes_fields() {
    let s = Session::new(String::from("a\"b\\c"), String::from("x\ny\u{1}z\u{1f}é"));
    assert_eq!(
        s.encode(),
        "{\"sid\":\"a\\\"b\\\\c\",\"credentials\":\"x\\ny\\u0001z\\u001fé\"}"
    );
}

#[test]
fn round_trip_plain() {
    let s = Session::new(String::from("sid"), String::from("credentials"));
    let back = Session::decode(&s.encode()).unwrap();
    assert_eq!(back.sid, "sid");
    assert_eq!(back.credentials, "credentials");
}

#[test]
fn round_trip_escaped() {
    let sid = String::from("q\"\\\t\r\u{8}\u{c}\u{0}");
    let credentials = String::from("{\"sid\":\"x\"}, ünï ☃");
    let s = Session::new(sid.clone(), credentials.clone());
    let back = Session::decode(&s.encode()).unwrap();
    assert_eq!(back.sid, sid);
    assert_eq!(back.credentials, credentials);
}

#[test]
fn round_trip_empty_fields() {
    let s = Session::new(String::new(), String::new());
    assert_eq!(s.encode(), "{\"sid\":\"\",\"credentials\":\"\"}");
    let back = Session::decode(&s.encode()).unwrap();
    assert_eq!(back.sid, "");
    assert_eq!(back.credentials, "");
}

#[test]
fn decode_reads_other_escapes() {
    let back = Session::decode("{\"sid\":\"\\u0041\\/\",\"credentials\":\"\\ud83d\\ude00\"}").unwrap();
    assert_eq!(back.sid, "A/");
    assert_eq!(back.credentials, "\u{1F600}");
}

#[test]
fn decode_truncated_is_eof_error() {
    match Session::decode("{\"sid\":\"sid\",\"credentials\":\"cre") {
        Err(MyError::Json(e)) => assert!(e.is_eof()),
        _ => panic!("expected a codec error"),
    }
}

#[test]
fn decode_bad_syntax_is_syntax_error() {
    match Session::decode("{\"sid\" \"sid\"}") {
        Err(MyError::Json(e)) => assert!(e.is_syntax()),
        _ => panic!("expected a codec error"),
    }
}

#[test]
fn decode_wrong_shape_is_data_error() {
    match Session::decode("{\"user\":\"sid\"}") {
        Err(MyError::Json(e)) => assert!(e.is_data()),
        _ => panic!("expected a codec error"),
    }
}

#[test]
fn decode_bad_literal_is_codec_error() {
    match Session::decode("{\"sid\":\"\\q\",\"credentials\":\"c\"}") {
        Err(MyError::Json(e)) => assert!(e.is_syntax()),
        _ => panic!("expected a codec error"),
    }
}

#[test]
fn decode_trailing_text_is_refused() {
    assert!(matches!(
        Session::decode("{\"sid\":\"s\",\"credentials\":\"c\"}x"),
        Err(MyError::Json(_))
    ));
}

#[test]
fn decode_empty_is_eof_error() {
    match Session::decode("") {
        Err(MyError::Json(e)) => assert!(e.is_eof()),
        _ => panic!("expected a codec error"),
    }
}

#[test]
fn json_io_error_becomes_io() {
    let io = std::io::Error::new(std::io::ErrorKind::UnexpectedEof, "stream ended");
    let err = serde_json::Error::io(io);
    assert!(matches!(MyError::from(err), MyError::Io(_)));
}

#[test]
fn json_syntax_error_stays_json() {
    let err = serde_json::from_str::<String>("\"open").unwrap_err();
    assert!(matches!(MyError::from(err), MyError::Json(_)));
}

#[test]
fn redis_error_becomes_redis() {
    let err = redis::RedisError::from((redis::ErrorKind::IoError, "down"));
    assert!(matches!(MyError::from(err), MyError::Redis(_)));
}

#[test]
fn decode_null_is_refused() {
    assert!(matches!(Session::decode("null"), Err(MyError::Json(_))));
}

#[test]
fn decode_other_layout_is_refused() {
    assert!(matches!(
        Session::decode("{\"credentials\":\"c\",\"sid\":\"s\"}"),
        Err(MyError::Json(_))
    ));
    assert!(matches!(
        Session::decode("{ \"sid\":\"s\",\"credentials\":\"c\"}"),
        Err(MyError::Json(_))
    ));
}
