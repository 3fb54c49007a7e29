use cfdrop::cf::{bucket_parts, completion_token, unwrap_envelope, ApiError, UploadError, UploadSession};
use cfdrop::manifest::AssetEntry;

fn entry(path: &str, hash: &str, b64: &str) -> AssetEntry {
    AssetEntry {
        manifest_path: format!("/{path}"),
        disk_path: format!("/src/{path}"),
        hash: hash.into(),
        size: 1,
        content_b64: b64.into(),
    }
}

#[test]
fn buckets_default_to_empty() {
    let s = UploadSession::new("jwt".into(), None);
    assert!(s.buckets().is_empty());
    let s = UploadSession::new("jwt".into(), Some(vec![vec!["h1".into()]]));
    assert_eq!(s.buckets().len(), 1);
}

#[test]
fn empty_buckets_mean_the_session_jwt_completes() {
    let s = UploadSession::new("session".into(), Some(vec![]));
    assert_eq!(completion_token(&s, &[]).unwrap(), "session");
}

#[test]
fn last_returned_token_completes() {
    let s = UploadSession::new("session".into(), Some(vec![vec!["a".into()], vec!["b".into()]]));
    assert_eq!(completion_token(&s, &[Some("first".into()), None]).unwrap(), "first");
    assert_eq!(completion_token(&s, &[Some("first".into()), Some("second".into())]).unwrap(), "second");
    let err = completion_token(&s, &[None, None]).unwrap_err();
    assert_eq!(err, UploadError::NoCompletionToken);
    assert_eq!(err.message(), "upload finished but no completion token was returned");
}

#[test]
fn bucket_parts_look_up_hashes() {
    let entries = vec![entry("index.html", "h1", "PGgxPg=="), entry("site.css", "h2", "Ym9keXt9")];
    let parts = bucket_parts(&["h2".to_string(), "h1".to_string()], &entries).unwrap();
    assert_eq!(parts.len(), 2);
    assert_eq!(parts[0].hash, "h2");
    assert_eq!(parts[0].content_b64, "Ym9keXt9");
    assert_eq!(parts[0].mime, "text/css");
    assert_eq!(parts[1].mime, "text/html");
    let unknown = bucket_parts(&["h1".to_string(), "zz".to_string()], &entries).err().unwrap();
    assert_eq!(unknown, UploadError::UnknownHash("zz".into()));
    assert_eq!(unknown.message(), "server requested unknown hash zz");
}

#[test]
fn unknown_extension_is_octet_stream() {
    let entries = vec![entry("LICENSE", "h", "TUlU")];
    let parts = bucket_parts(&["h".to_string()], &entries).unwrap();
    assert_eq!(parts[0].mime, "application/octet-stream");
}

#[test]
fn envelopes() {
    assert_eq!(unwrap_envelope(true, Some(5), "[]", "call"), Ok(5));
    let e = unwrap_envelope::<i32>(true, None, "[]", "subdomain lookup").unwrap_err();
    assert_eq!(e.message(), "subdomain lookup: empty result");
    let e = unwrap_envelope(false, Some(5), "[{\"code\":1}]", "worker deploy").unwrap_err();
    assert_eq!(e, ApiError::Failed { what: "worker deploy".into(), errors: "[{\"code\":1}]".into() });
    assert_eq!(e.message(), "worker deploy failed: [{\"code\":1}]");
}
