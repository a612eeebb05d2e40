//! Files attached to a project: upload checks, content decoding and
//! digests, and how a download is offered.
use vstd::prelude::*;
use base64::Engine;

use crate::actor::ActorKind;
use crate::crypto::{hex_lower, sha256, sha256_hex};
use crate::error::{fails_with, ApiError};
use crate::text::{clone_opt, is_blank, is_blank_str, opt_view, owned, str_eq};

verus! {

/// An asset as stored for a project.
#[derive(Debug)]
pub struct AssetResponse {
    pub id: String,
    pub workspace_id: String,
    pub project_id: String,
    pub uploaded_by_member_id: Option<String>,
    pub uploaded_by_github_login: Option<String>,
    pub file_name: String,
    pub media_type: String,
    pub size_bytes: i64,
    pub sha256: Option<String>,
    pub storage_backend: String,
    pub storage_key: String,
    pub created_at: String,
}

/// An upload: file name, media type and the content in base64.
#[derive(Debug)]
pub struct CreateAssetRequest {
    pub file_name: String,
    pub media_type: String,
    pub content_base64: String,
    pub sha256: Option<String>,
}

/// A change to an asset; absent fields stay as they are.
#[derive(Debug)]
pub struct UpdateAssetRequest {
    pub file_name: Option<String>,
    pub media_type: Option<String>,
    pub content_base64: Option<String>,
    pub sha256: Option<String>,
}

/// How a download should be offered.
#[derive(Debug)]
pub struct DownloadAssetQuery {
    pub disposition: Option<String>,
}

/// The bytes that standard base64 (with padding) encodes as `text`, or `None`
/// where `text` is not valid standard base64.
pub uninterp spec fn base64_decoded(text: Seq<u8>) -> Option<Seq<u8>>;

/// Calls `base64::engine::general_purpose::STANDARD.decode`.
#[verifier::external_body]
fn base64_decode(text: &[u8]) -> (r: Option<Vec<u8>>)
    ensures
        match r {
            Some(v) => base64_decoded(text@) == Some(v@),
            None => base64_decoded(text@) is None,
        },
{
    match base64::engine::general_purpose::STANDARD.decode(text) {
        Ok(v) => Some(v),
        Err(_) => None,
    }
}

/// Calls `base64::engine::general_purpose::STANDARD.encode`; the contract
/// claims only that decoding the text gives the bytes back.
#[verifier::external_body]
pub(crate) fn base64_encode(bytes: &[u8]) -> (r: String)
    ensures
        base64_decoded(vstd::utf8::encode_utf8(r@)) == Some(bytes@),
{
    base64::engine::general_purpose::STANDARD.encode(bytes)
}

/// A required text field must not be blank: `<field> must not be empty`.
pub fn validate_non_empty(value: &str, field: &str, request_id: &str) -> (r: Result<(), ApiError>)
    ensures
        is_blank(value@) ==> fails_with(r, "validation_error"@, request_id@, field@ + " must not be empty"@),
        !is_blank(value@) ==> r is Ok,
{
    if is_blank_str(value) {
        let mut m = owned(field);
        m.append(" must not be empty");
        return Err(ApiError::validation_error(request_id, m.as_str()));
    }
    Ok(())
}

/// The content of an upload, decoded from base64.
pub fn decode_content(encoded: &str, request_id: &str) -> (r: Result<Vec<u8>, ApiError>)
    ensures
        match base64_decoded(vstd::utf8::encode_utf8(encoded@)) {
            Some(bytes) => r matches Ok(v) && v@ == bytes,
            None => fails_with(r, "validation_error"@, request_id@, "content_base64 must be valid base64"@),
        },
{
    match base64_decode(encoded.as_bytes()) {
        Some(v) => Ok(v),
        None => Err(ApiError::validation_error(request_id, "content_base64 must be valid base64")),
    }
}

/// A stored size for `n` bytes.
pub open spec fn size_of_len(n: nat) -> i64 {
    if n <= i64::MAX {
        n as i64
    } else {
        i64::MAX
    }
}

fn size_bytes_of(content: &Vec<u8>) -> (r: i64)
    ensures
        r == size_of_len(content@.len()),
{
    let n = content.len();
    if n as u64 <= i64::MAX as u64 {
        n as i64
    } else {
        i64::MAX
    }
}

/// The digest stored for content: the one the client gave, else the content's SHA-256 in hex.
pub open spec fn digest_for(given: Option<Seq<char>>, content: Seq<u8>) -> Seq<char> {
    match given {
        Some(d) => d,
        None => hex_lower(sha256(content)),
    }
}

/// The row and file of a new asset.
#[derive(Debug)]
pub struct NewAsset {
    pub uploaded_by_member_id: Option<String>,
    pub file_name: String,
    pub media_type: String,
    pub size_bytes: i64,
    pub sha256: String,
    pub content: Vec<u8>,
}

/// Checks an upload and decodes it: file name and media type must not be
/// blank, the content must be valid base64.  A human uploader is recorded.
pub fn prepare_new_asset(
    body: &CreateAssetRequest,
    actor_kind: ActorKind,
    actor_id: &str,
    request_id: &str,
) -> (r: Result<NewAsset, ApiError>)
    ensures
        is_blank(body.file_name@) ==> fails_with(r, "validation_error"@, request_id@, "file_name must not be empty"@),
        !is_blank(body.file_name@) && is_blank(body.media_type@) ==> fails_with(
            r,
            "validation_error"@,
            request_id@,
            "media_type must not be empty"@,
        ),
        !is_blank(body.file_name@) && !is_blank(body.media_type@) ==> match base64_decoded(
            vstd::utf8::encode_utf8(body.content_base64@),
        ) {
            None => fails_with(r, "validation_error"@, request_id@, "content_base64 must be valid base64"@),
            Some(bytes) => r matches Ok(a) && {
                &&& a.content@ == bytes
                &&& a.size_bytes == size_of_len(bytes.len())
                &&& a.sha256@ == digest_for(opt_view(body.sha256), bytes)
                &&& a.file_name@ == body.file_name@
                &&& a.media_type@ == body.media_type@
                &&& opt_view(a.uploaded_by_member_id) == (if actor_kind == ActorKind::Human {
                    Some(actor_id@)
                } else {
                    None
                })
            },
        },
{
    proof {
        reveal_strlit("file_name");
        reveal_strlit("media_type");
        reveal_strlit(" must not be empty");
        reveal_strlit("file_name must not be empty");
        reveal_strlit("media_type must not be empty");
        assert(("file_name"@ + " must not be empty"@) =~= "file_name must not be empty"@);
        assert(("media_type"@ + " must not be empty"@) =~= "media_type must not be empty"@);
    }
    validate_non_empty(body.file_name.as_str(), "file_name", request_id)?;
    validate_non_empty(body.media_type.as_str(), "media_type", request_id)?;
    let content = decode_content(body.content_base64.as_str(), request_id)?;
    let sha = match &body.sha256 {
        Some(d) => d.clone(),
        None => sha256_hex(content.as_slice()),
    };
    let uploaded_by_member_id = if actor_kind == ActorKind::Human {
        Some(owned(actor_id))
    } else {
        None
    };
    Ok(NewAsset {
        uploaded_by_member_id,
        file_name: body.file_name.clone(),
        media_type: body.media_type.clone(),
        size_bytes: size_bytes_of(&content),
        sha256: sha,
        content,
    })
}

/// Checks the fields of an asset change before the asset is looked up.
pub fn validate_asset_update(body: &UpdateAssetRequest, request_id: &str) -> (r: Result<(), ApiError>)
    ensures
        body.file_name is Some && is_blank(body.file_name->0@) ==> fails_with(
            r,
            "validation_error"@,
            request_id@,
            "file_name must not be empty"@,
        ),
        !(body.file_name is Some && is_blank(body.file_name->0@)) && body.media_type is Some && is_blank(
            body.media_type->0@,
        ) ==> fails_with(r, "validation_error"@, request_id@, "media_type must not be empty"@),
        !(body.file_name is Some && is_blank(body.file_name->0@)) && !(body.media_type is Some && is_blank(
            body.media_type->0@,
        )) ==> r is Ok,
{
    proof {
        reveal_strlit("file_name");
        reveal_strlit("media_type");
        reveal_strlit(" must not be empty");
        reveal_strlit("file_name must not be empty");
        reveal_strlit("media_type must not be empty");
        assert(("file_name"@ + " must not be empty"@) =~= "file_name must not be empty"@);
        assert(("media_type"@ + " must not be empty"@) =~= "media_type must not be empty"@);
    }
    if let Some(f) = &body.file_name {
        validate_non_empty(f.as_str(), "file_name", request_id)?;
    }
    if let Some(m) = &body.media_type {
        validate_non_empty(m.as_str(), "media_type", request_id)?;
    }
    Ok(())
}

/// What an accepted asset change writes: the fields to set (absent ones are
/// kept) and, with new content, its bytes, size and digest.
#[derive(Debug)]
pub struct AssetChange {
    pub file_name: Option<String>,
    pub media_type: Option<String>,
    pub size_bytes: Option<i64>,
    pub sha256: Option<String>,
    pub content: Option<Vec<u8>>,
}

/// Decodes the new content of an asset change, if any; the digest is the
/// one given, else that of the new content.
pub fn prepare_asset_change(body: &UpdateAssetRequest, request_id: &str) -> (r: Result<AssetChange, ApiError>)
    ensures
        match body.content_base64 {
            Some(enc) => match base64_decoded(vstd::utf8::encode_utf8(enc@)) {
                None => fails_with(r, "validation_error"@, request_id@, "content_base64 must be valid base64"@),
                Some(bytes) => r matches Ok(c) && {
                    &&& c.content matches Some(v) && v@ == bytes
                    &&& c.size_bytes == Some(size_of_len(bytes.len()))
                    &&& opt_view(c.sha256) == Some(digest_for(opt_view(body.sha256), bytes))
                    &&& opt_view(c.file_name) == opt_view(body.file_name)
                    &&& opt_view(c.media_type) == opt_view(body.media_type)
                },
            },
            None => r matches Ok(c) && {
                &&& c.content is None
                &&& c.size_bytes is None
                &&& opt_view(c.sha256) == opt_view(body.sha256)
                &&& opt_view(c.file_name) == opt_view(body.file_name)
                &&& opt_view(c.media_type) == opt_view(body.media_type)
            },
        },
{
    let content = match &body.content_base64 {
        Some(enc) => Some(decode_content(enc.as_str(), request_id)?),
        None => None,
    };
    let sha256 = match &body.sha256 {
        Some(d) => Some(d.clone()),
        None => match &content {
            Some(bytes) => Some(sha256_hex(bytes.as_slice())),
            None => None,
        },
    };
    let size_bytes = match &content {
        Some(bytes) => Some(size_bytes_of(bytes)),
        None => None,
    };
    Ok(AssetChange {
        file_name: clone_opt(&body.file_name),
        media_type: clone_opt(&body.media_type),
        size_bytes,
        sha256,
        content,
    })
}

/// How a download is offered: inline only when asked for, else as an attachment.
pub fn download_disposition(query: &DownloadAssetQuery) -> (r: String)
    ensures
        r@ == (if opt_view(query.disposition) == Some("inline"@) {
            "inline"@
        } else {
            "attachment"@
        }),
{
    let inline = match &query.disposition {
        Some(d) => str_eq(d.as_str(), "inline"),
        None => false,
    };
    if inline {
        owned("inline")
    } else {
        owned("attachment")
    }
}

/// The `Content-Disposition` header of a download.
pub fn content_disposition(disposition: &str, file_name: &str) -> (r: String)
    ensures
        r@ == disposition@ + "; filename=\""@ + file_name@ + "\""@,
{
    let mut h = owned(disposition);
    h.append("; filename=\"");
    h.append(file_name);
    h.append("\"");
    h
}

} // verus!
