//! What the Cloudflare client decides between requests: the upload buckets
//! and their parts, the completion token, and the reading of a response
//! envelope.

use vstd::prelude::*;
use crate::manifest::AssetEntry;
use crate::text::{push_str, str_eq};

verus! {

/// An assets upload session: the upload JWT and the buckets of file hashes
/// that still need uploading.
pub struct UploadSession {
    pub jwt: String,
    /// The buckets the server sent, if it sent any.
    pub buckets: Option<Vec<Vec<String>>>,
}

impl UploadSession {
    /// A session as the server described it (`buckets` may be absent).
    pub fn new(jwt: String, buckets: Option<Vec<Vec<String>>>) -> (s: Self)
        ensures
            s.jwt_of() == jwt@,
            s.bucket_list() == match buckets {
                Some(b) => b@,
                None => Seq::<Vec<String>>::empty(),
            },
    {
        UploadSession { jwt, buckets }
    }

    /// The session's upload JWT.
    pub open spec fn jwt_of(&self) -> Seq<char> {
        self.jwt@
    }

    /// The buckets, none when the server sent none.
    pub open spec fn bucket_list(&self) -> Seq<Vec<String>> {
        match self.buckets {
            Some(b) => b@,
            None => Seq::empty(),
        }
    }

    /// The buckets of hashes to upload; empty when the server sent none.
    pub fn buckets(&self) -> (b: &[Vec<String>])
        ensures
            b@ == self.bucket_list(),
    {
        match &self.buckets {
            Some(b) => b.as_slice(),
            None => &[],
        }
    }
}

/// The MIME type `mime_guess` gives for a path (by its extension), or
/// `application/octet-stream`.
pub uninterp spec fn guessed_mime(path: Seq<char>) -> Seq<char>;

/// `mime_guess::from_path(path).first_or_octet_stream()` as text: the first
/// MIME type known for the path's extension, or `application/octet-stream`;
/// a function of the path alone, left to the name.
#[verifier::external_body]
fn mime_for_path(path: &str) -> (m: String)
    ensures
        m@ == guessed_mime(path@),
{
    mime_guess::from_path(path).first_or_octet_stream().to_string()
}

/// One file of an upload bucket.
pub struct UploadPart {
    /// The hash, used as part name and file name.
    pub hash: String,
    /// The base64 content sent as the part's text.
    pub content_b64: String,
    /// The part's MIME type.
    pub mime: String,
}

/// The position of the last entry with hash `h`, if any.
pub open spec fn last_with_hash(entries: Seq<AssetEntry>, h: Seq<char>) -> Option<int>
    decreases entries.len(),
{
    if entries.len() == 0 {
        None
    } else if entries.last().hash@ == h {
        Some(entries.len() - 1)
    } else {
        last_with_hash(entries.drop_last(), h)
    }
}

proof fn lemma_last_with_hash_bounds(entries: Seq<AssetEntry>, h: Seq<char>)
    ensures
        last_with_hash(entries, h) matches Some(j) ==> 0 <= j < entries.len() && entries[j].hash@ == h,
    decreases entries.len(),
{
    if entries.len() > 0 && entries.last().hash@ != h {
        lemma_last_with_hash_bounds(entries.drop_last(), h);
    }
}

/// Why an upload could not go on.
#[derive(Debug, Clone, PartialEq, Eq)]
pub enum UploadError {
    /// The server asked for a hash that no entry has.
    UnknownHash(String),
    /// Every bucket was sent but no response carried a completion token.
    NoCompletionToken,
}

impl UploadError {
    /// The text shown for this error.
    pub fn message(&self) -> (m: String)
        ensures
            match self {
                UploadError::UnknownHash(h) => m@ == "server requested unknown hash "@ + h@,
                UploadError::NoCompletionToken => m@ == "upload finished but no completion token was returned"@,
            },
    {
        let mut m = String::new();
        match self {
            UploadError::UnknownHash(h) => {
                push_str(&mut m, "server requested unknown hash ");
                push_str(&mut m, h.as_str());
            },
            UploadError::NoCompletionToken => {
                push_str(&mut m, "upload finished but no completion token was returned");
            },
        }
        m
    }
}

fn find_last_with_hash(entries: &[AssetEntry], h: &str) -> (r: Option<usize>)
    ensures
        match r {
            Some(i) => last_with_hash(entries@, h@) == Some(i as int),
            None => last_with_hash(entries@, h@) is None,
        },
{
    let mut i = entries.len();
    assert(entries@.take(i as int) =~= entries@);
    while i > 0
        invariant
            i <= entries@.len(),
            last_with_hash(entries@, h@) == last_with_hash(entries@.take(i as int), h@),
        decreases i,
    {
        assert(entries@.take(i as int).last() == entries@[i - 1]);
        if str_eq(entries[i - 1].hash.as_str(), h) {
            return Some(i - 1);
        }
        assert(entries@.take(i as int).drop_last() =~= entries@.take(i - 1));
        i = i - 1;
    }
    None
}

/// The parts of one bucket: for each requested hash, the last entry with
/// that hash, its base64 content and its guessed MIME type; refused at the
/// first hash that no entry has.
pub fn bucket_parts(bucket: &[String], entries: &[AssetEntry]) -> (r: Result<Vec<UploadPart>, UploadError>)
    ensures
        match r {
            Ok(parts) => parts@.len() == bucket@.len() && forall|i: int|
                0 <= i < bucket@.len() ==> {
                    &&& #[trigger] last_with_hash(entries@, bucket@[i]@) matches Some(j)
                    &&& parts@[i].hash@ == bucket@[i]@
                    &&& parts@[i].content_b64@ == entries@[j].content_b64@
                    &&& parts@[i].mime@ == guessed_mime(entries@[j].disk_path@)
                },
            Err(UploadError::UnknownHash(h)) => exists|i: int|
                0 <= i < bucket@.len() && h@ == bucket@[i]@ && last_with_hash(entries@, bucket@[i]@) is None
                    && forall|k: int| 0 <= k < i ==> #[trigger] last_with_hash(entries@, bucket@[k]@) is Some,
            Err(UploadError::NoCompletionToken) => false,
        },
{
    let mut parts: Vec<UploadPart> = Vec::new();
    let n = bucket.len();
    for i in 0..n
        invariant
            n == bucket@.len(),
            parts@.len() == i,
            forall|k: int|
                0 <= k < i ==> {
                    &&& #[trigger] last_with_hash(entries@, bucket@[k]@) matches Some(j)
                    &&& parts@[k].hash@ == bucket@[k]@
                    &&& parts@[k].content_b64@ == entries@[j].content_b64@
                    &&& parts@[k].mime@ == guessed_mime(entries@[j].disk_path@)
                },
    {
        let h = &bucket[i];
        proof {
            lemma_last_with_hash_bounds(entries@, h@);
        }
        match find_last_with_hash(entries, h.as_str()) {
            Some(j) => {
                let e = &entries[j];
                let part = UploadPart {
                    hash: h.clone(),
                    content_b64: e.content_b64.clone(),
                    mime: mime_for_path(e.disk_path.as_str()),
                };
                parts.push(part);
            },
            None => {
                return Err(UploadError::UnknownHash(h.clone()));
            },
        }
    }
    Ok(parts)
}

/// The completion token after sending every bucket: the session JWT itself
/// when there was no bucket, else the last token a bucket response carried.
pub open spec fn completion_spec(session_jwt: Seq<char>, no_buckets: bool, returned: Seq<Option<String>>) -> Option<Seq<char>>
    decreases returned.len(),
{
    if no_buckets {
        Some(session_jwt)
    } else if returned.len() == 0 {
        None
    } else {
        match returned.last() {
            Some(t) => Some(t@),
            None => completion_spec(session_jwt, no_buckets, returned.drop_last()),
        }
    }
}

/// The completion token, given the token (if any) each bucket response
/// carried, in order.
pub fn completion_token(session: &UploadSession, returned: &[Option<String>]) -> (r: Result<String, UploadError>)
    ensures
        match r {
            Ok(t) => completion_spec(session.jwt_of(), session.bucket_list().len() == 0, returned@) == Some(t@),
            Err(e) => e == UploadError::NoCompletionToken && completion_spec(
                session.jwt_of(),
                session.bucket_list().len() == 0,
                returned@,
            ) is None,
        },
{
    if session.buckets().len() == 0 {
        return Ok(session.jwt.clone());
    }
    let mut i = returned.len();
    assert(returned@.take(i as int) =~= returned@);
    while i > 0
        invariant
            i <= returned@.len(),
            session.bucket_list().len() > 0,
            completion_spec(session.jwt_of(), false, returned@) == completion_spec(
                session.jwt_of(),
                false,
                returned@.take(i as int),
            ),
        decreases i,
    {
        assert(returned@.take(i as int).last() == returned@[i - 1]);
        match &returned[i - 1] {
            Some(t) => {
                return Ok(t.clone());
            },
            None => {},
        }
        assert(returned@.take(i as int).drop_last() =~= returned@.take(i - 1));
        i = i - 1;
    }
    Err(UploadError::NoCompletionToken)
}

/// Why an API call failed.
#[derive(Debug, Clone, PartialEq, Eq)]
pub enum ApiError {
    /// The envelope says the call failed; `errors` is its `errors` as JSON.
    Failed { what: String, errors: String },
    /// The call succeeded but carried no result.
    EmptyResult { what: String },
}

impl ApiError {
    /// The text shown for this error.
    pub fn message(&self) -> (m: String)
        ensures
            match self {
                ApiError::Failed { what, errors } => m@ == what@ + " failed: "@ + errors@,
                ApiError::EmptyResult { what } => m@ == what@ + ": empty result"@,
            },
    {
        let mut m = String::new();
        match self {
            ApiError::Failed { what, errors } => {
                push_str(&mut m, what.as_str());
                push_str(&mut m, " failed: ");
                push_str(&mut m, errors.as_str());
            },
            ApiError::EmptyResult { what } => {
                push_str(&mut m, what.as_str());
                push_str(&mut m, ": empty result");
            },
        }
        m
    }
}

/// Reads a response envelope: its result when it reports success and has
/// one; otherwise why not. `errors_json` is the envelope's `errors` as JSON
/// text, `what` names the call.
pub fn unwrap_envelope<T>(success: bool, result: Option<T>, errors_json: &str, what: &str) -> (r: Result<T, ApiError>)
    ensures
        !success ==> (r matches Err(ApiError::Failed { what: w, errors: e }) && w@ == what@ && e@ == errors_json@),
        success && result is None ==> (r matches Err(ApiError::EmptyResult { what: w }) && w@ == what@),
        success && result is Some ==> r == Ok::<T, ApiError>(result.unwrap()),
{
    if !success {
        return Err(ApiError::Failed { what: what.to_owned(), errors: errors_json.to_owned() });
    }
    match result {
        Some(t) => Ok(t),
        None => Err(ApiError::EmptyResult { what: what.to_owned() }),
    }
}

} // verus!
