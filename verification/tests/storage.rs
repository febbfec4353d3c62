use eh2telegraph::error::Error;
use eh2telegraph::storage::cloudflare_kv::{
    choose_payload, is_not_found_payload, names_not_found, refused, unwrap_proxy_payload, CFConfig,
    CFOrMemStorage, CFStorage, KVClient, KVReply, StorageMode,
};

fn config(endpoint: Option<&str>, token: Option<&str>, mode: StorageMode) -> CFConfig {
    CFConfig {
        endpoint: endpoint.map(str::to_string),
        token: token.map(str::to_string),
        cache_size: None,
        expire_sec: None,
        mode,
    }
}

fn read(status: u16, body: &str) -> Result<Option<String>, String> {
    KVClient::get(status, None, body.as_bytes()).map_err(|e| e.message)
}

fn carried(value: &str) -> Result<String, String> {
    unwrap_proxy_payload(value.to_string()).map_err(|e| e.message)
}

#[test]
fn endpoints_end_in_a_slash() {
    let client = KVClient::new("https://kv".to_string(), "secret".to_string()).unwrap();
    assert_eq!(client.url("a|b"), "https://kv/a|b");
    assert_eq!(client.headers.get("authorization").unwrap(), "secret");
    let client = KVClient::new("https://kv/".to_string(), "secret".to_string()).unwrap();
    assert_eq!(client.url("k"), "https://kv/k");
    let e = KVClient::new("https://kv".to_string(), "a\nb".to_string()).unwrap_err();
    assert_eq!(e.message, "failed to parse header value");
}

#[test]
fn payloads_that_name_nothing() {
    assert!(is_not_found_payload("{\"error\":\"NotFound\"}"));
    assert!(is_not_found_payload("\"Not Found\""));
    assert!(is_not_found_payload("NOT_FOUND"));
    assert!(!is_not_found_payload("\"found\""));
    assert!(names_not_found("not found"));
    assert!(!names_not_found("NOT FOUND"));
}

#[test]
fn payloads_are_unwrapped() {
    assert_eq!(carried(r#"{"success":true,"data":1,"result":"x"}"#), Ok("\"x\"".to_string()));
    assert_eq!(carried(r#"{"value":2,"data":[1]}"#), Ok("[1]".to_string()));
    assert_eq!(carried(r#"{"value":2}"#), Ok("2".to_string()));
    assert_eq!(carried("\"plain\""), Ok("\"plain\"".to_string()));
    assert_eq!(carried(r#"{"success":"false","value":2}"#), Ok("2".to_string()));
    assert_eq!(
        carried(r#"{"ok":false,"value":2}"#),
        Err(r#"KV proxy returned failure: {"ok":false,"value":2}"#.to_string())
    );
    assert_eq!(
        carried(r#"{"success":false}"#),
        Err(r#"KV proxy returned failure: {"success":false}"#.to_string())
    );
    let whole = choose_payload("w".to_string(), None, Some("true".to_string()), None, None, None);
    assert_eq!(whole.unwrap(), "w");
}

#[test]
fn reads() {
    assert_eq!(read(404, "x"), Ok(None));
    assert_eq!(read(200, "\"https://telegra.ph/a\""), Ok(Some("https://telegra.ph/a".to_string())));
    assert_eq!(read(200, r#"{"result":"p"}"#), Ok(Some("p".to_string())));
    assert_eq!(read(200, r#"{"error":"Not Found"}"#), Ok(None));
    assert_eq!(
        read(200, "{"),
        Err("error decoding response body: EOF while parsing an object at line 1 column 1".to_string())
    );
    assert_eq!(
        read(200, "5"),
        Err("invalid type: integer `5`, expected a string".to_string())
    );
    assert_eq!(KVClient::read(200, None, Ok((false, Ok("v".to_string())))).unwrap().as_deref(), Some("v"));
    assert_eq!(KVClient::read(200, None, Ok((true, Ok("v".to_string())))).unwrap(), None);
    let e = KVClient::get(500, Some("status 500".to_string()), b"").unwrap_err();
    assert_eq!(e.message, "status 500");
}

#[test]
fn what_was_written_is_read() {
    for value in ["https://telegra.ph/a-1", "", "a \"quoted\"\n\u{1}text é", "{\"title\":null}"] {
        let body = KVClient::body(value);
        assert_eq!(read(200, &body), Ok(Some(value.to_string())));
    }
    assert_eq!(KVClient::body("a\"b"), "\"a\\\"b\"");
    assert_eq!(read(200, &KVClient::body("https://telegra.ph/NotFound-1")), Ok(None));
}

#[test]
fn writes_and_removals() {
    let reply = |status| KVReply { status, text: "why".to_string() };
    assert_eq!(refused("no: ", "418", "t").message, "no: 418, body=t");
    assert!(KVClient::put(reply(201)).is_ok());
    assert_eq!(
        KVClient::put(reply(404)).unwrap_err().message,
        "KV put failed: status=404 Not Found, body=why"
    );
    assert!(KVClient::delete(reply(200)).is_ok());
    assert!(KVClient::delete(reply(404)).is_ok());
    assert_eq!(
        KVClient::delete(reply(500)).unwrap_err().message,
        "KV delete failed: status=500 Internal Server Error, body=why"
    );
    assert_eq!(KVClient::ttl_header(Some(3888000)).as_deref(), Some("3888000"));
    assert_eq!(KVClient::ttl_header(None), None);
}

#[test]
fn stores_are_chosen_by_mode() {
    assert_eq!(StorageMode::default(), StorageMode::Cloudflare);
    let pick = |c| CFOrMemStorage::from_config(c).map_err(|e| e.message);
    let full = |mode| config(Some("e"), Some("t"), mode);
    assert!(matches!(pick(full(StorageMode::Cloudflare)), Ok(CFOrMemStorage::CF(_))));
    assert!(matches!(pick(full(StorageMode::Auto)), Ok(CFOrMemStorage::CF(_))));
    assert!(matches!(pick(full(StorageMode::Memory)), Ok(CFOrMemStorage::Mem)));
    let empty = |mode| config(None, None, mode);
    assert!(matches!(pick(empty(StorageMode::Auto)), Ok(CFOrMemStorage::Mem)));
    let worker = |mode: StorageMode, built: Result<(), Error>| {
        pick(full(mode)).unwrap().settled(mode, built).map_err(|e| e.message)
    };
    let no_client = || Err(Error { message: "no client".to_string() });
    assert!(matches!(worker(StorageMode::Auto, Ok(())), Ok(CFOrMemStorage::CF(_))));
    assert!(matches!(worker(StorageMode::Auto, no_client()), Ok(CFOrMemStorage::Mem)));
    assert!(matches!(worker(StorageMode::Cloudflare, Ok(())), Ok(CFOrMemStorage::CF(_))));
    assert_eq!(worker(StorageMode::Cloudflare, no_client()).unwrap_err(), "no client");
    assert!(matches!(worker(StorageMode::Memory, no_client()), Ok(CFOrMemStorage::Mem)));
    assert_eq!(
        pick(empty(StorageMode::Cloudflare)).unwrap_err(),
        "worker_kv.endpoint is required for cloudflare mode"
    );
    assert_eq!(
        pick(config(Some("e"), None, StorageMode::Cloudflare)).unwrap_err(),
        "worker_kv.token is required for cloudflare mode"
    );
    assert_eq!(
        CFOrMemStorage::new_from_config(None).unwrap_err().message,
        "cloudflare worker config(key: worker_kv) not found; set worker_kv.mode = memory explicitly if you want in-memory cache"
    );
    let store = CFStorage::new("e".to_string(), "t".to_string(), 1, 2).unwrap();
    assert_eq!(store.client.endpoint, "e/");
}
