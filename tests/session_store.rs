use redis_session::memory::MemoryBackend;
use redis_session::store::{finish_get, finish_write, set_entry, ClearBatch, ClearStep};
use redis_session::{MyError, RedisSessionStore, Session};

fn create_store() -> MemoryBackend {
    let mut store = MemoryBackend::new();
    store.clear_store(vec![String::from("sid")]).unwrap();
    store
}

fn redis_error() -> redis::RedisError {
    redis::RedisError::from((redis::ErrorKind::IoError, "connection refused"))
}

#[test]
fn get_unknown_key() {
    assert!(create_store().get_session("unknown").unwrap().is_none())
}

#[test]
fn get_session() {
    let mut store = create_store();
    store
        .set_session(&Session { sid: String::from("sid"), credentials: String::from("credentials") })
        .unwrap();

    let session = store.get_session("sid").unwrap().unwrap();

    assert_eq!(session.sid, "sid");
    assert_eq!(session.credentials, "credentials");
}

#[test]
fn clear_then_get_is_absent() {
    let mut store = MemoryBackend::new();
    store.set_session(&Session::new(String::from("sid"), String::from("credentials"))).unwrap();
    store.clear_store(vec![String::from("sid")]).unwrap();
    assert!(store.get_session("sid").unwrap().is_none());
}

#[test]
fn overwrite_keeps_last_record() {
    let mut store = MemoryBackend::new();
    store.set_session(&Session::new(String::from("sid"), String::from("first"))).unwrap();
    store.set_session(&Session::new(String::from("sid"), String::from("second"))).unwrap();
    let session = store.get_session("sid").unwrap().unwrap();
    assert_eq!(session.sid, "sid");
    assert_eq!(session.credentials, "second");
}

#[test]
fn clear_twice_succeeds() {
    let mut store = MemoryBackend::new();
    store.set_session(&Session::new(String::from("k"), String::from("c"))).unwrap();
    assert!(store.clear_store(vec![String::from("k")]).is_ok());
    assert!(store.clear_store(vec![String::from("k")]).is_ok());
    assert!(store.get_session("k").unwrap().is_none());
}

#[test]
fn clear_deletes_only_given_keys() {
    let mut store = MemoryBackend::new();
    store.set_session(&Session::new(String::from("a"), String::from("1"))).unwrap();
    store.set_session(&Session::new(String::from("b"), String::from("2"))).unwrap();
    store.set_session(&Session::new(String::from("c"), String::from("3"))).unwrap();
    store.clear_store(vec![String::from("a"), String::from("c"), String::from("zzz")]).unwrap();
    assert!(store.get_session("a").unwrap().is_none());
    assert!(store.get_session("c").unwrap().is_none());
    assert_eq!(store.get_session("b").unwrap().unwrap().credentials, "2");
}

#[test]
fn clear_of_no_keys_succeeds() {
    let mut store = MemoryBackend::new();
    assert!(store.clear_store(Vec::new()).is_ok());
}

#[test]
fn stored_value_is_record_text() {
    let mut store = MemoryBackend::new();
    store.set_session(&Session::new(String::from("sid"), String::from("credentials"))).unwrap();
    assert_eq!(store.get("sid").unwrap(), "{\"sid\":\"sid\",\"credentials\":\"credentials\"}");
}

#[test]
fn corrupt_stored_value_is_codec_error() {
    let mut store = MemoryBackend::new();
    store.set(String::from("sid"), String::from("{\"sid\":\"s"));
    assert!(matches!(store.get_session("sid"), Err(MyError::Json(_))));
}

#[test]
fn backend_delete_removes_value() {
    let mut store = MemoryBackend::new();
    store.set(String::from("k"), String::from("v"));
    store.set(String::from("k"), String::from("w"));
    assert_eq!(store.get("k").unwrap(), "w");
    store.delete("k");
    assert!(store.get("k").is_none());
    store.delete("k");
    assert!(store.get("k").is_none());
}

#[test]
fn finish_get_absent_and_present() {
    assert!(finish_get(Ok(None)).unwrap().is_none());
    let text = String::from("{\"sid\":\"s\",\"credentials\":\"c\"}");
    let session = finish_get(Ok(Some(text))).unwrap().unwrap();
    assert_eq!(session.sid, "s");
    assert_eq!(session.credentials, "c");
}

#[test]
fn finish_get_backend_failure() {
    assert!(matches!(finish_get(Err(redis_error())), Err(MyError::Redis(_))));
}

#[test]
fn finish_write_maps_failure() {
    assert!(finish_write(Ok(())).is_ok());
    assert!(matches!(finish_write(Err(redis_error())), Err(MyError::Redis(_))));
}

#[test]
fn set_entry_key_and_value() {
    let (key, value) = set_entry(&Session::new(String::from("id"), String::from("tok")));
    assert_eq!(key, "id");
    assert_eq!(value, "{\"sid\":\"id\",\"credentials\":\"tok\"}");
}

#[test]
fn clear_batch_in_order() {
    let mut batch = ClearBatch::new(vec![String::from("a"), String::from("b")]);
    match batch.next_step() {
        ClearStep::Delete(k) => assert_eq!(k, "a"),
        ClearStep::Finished(_) => panic!("expected a delete"),
    }
    match batch.advance(Ok(())) {
        ClearStep::Delete(k) => assert_eq!(k, "b"),
        ClearStep::Finished(_) => panic!("expected a delete"),
    }
    assert!(matches!(batch.advance(Ok(())), ClearStep::Finished(Ok(()))));
}

#[test]
fn clear_batch_stops_at_first_failure() {
    let mut batch = ClearBatch::new(vec![String::from("a"), String::from("b"), String::from("c")]);
    assert!(matches!(batch.next_step(), ClearStep::Delete(_)));
    assert!(matches!(batch.advance(Ok(())), ClearStep::Delete(_)));
    assert!(matches!(batch.advance(Err(redis_error())), ClearStep::Finished(Err(MyError::Redis(_)))));
}

#[test]
fn clear_batch_empty_finishes() {
    let batch = ClearBatch::new(Vec::new());
    assert!(matches!(batch.next_step(), ClearStep::Finished(Ok(()))));
}

#[test]
fn store_accepts_redis_url() {
    assert!(RedisSessionStore::new("redis://redis/1").is_ok());
}

#[test]
fn store_refuses_malformed_descriptor() {
    assert!(RedisSessionStore::new("not a url").is_err());
}
