use vstd::prelude::*;
use crate::binary_patch::{
    apply_binary, detect_binary_salt, restore_binary, spec_apply, spec_detect_salt, spec_restore, ApplyResult,
    BinaryFile, DetectedSalt, RestoreResult,
};
use crate::state::{
    get_recorded_original_salt, record_original_salt, spec_entries, spec_entry, spec_record,
    spec_recorded_salt, StateFile,
};
use crate::parse::{spec_starts_with, starts_with};
use crate::search::{byte_len, spec_byte_len, MinStat, SearchFilters, SearchParams};
use crate::text::{push_str, str_eq, string_of};

verus! {

/// A response: status code, content type and body bytes.
#[derive(Clone, Debug, PartialEq, Eq)]
pub struct HttpResponse {
    pub status: u16,
    pub content_type: &'static str,
    pub body: Vec<u8>,
}

/// An error answered by the API: its status code and message.
#[derive(Clone, Debug, PartialEq, Eq)]
pub struct ApiError {
    pub status: u16,
    pub message: String,
}

impl ApiError {
    /// A client error (400).
    pub fn bad_request(message: String) -> (r: Self)
        ensures
            r.status == 400,
            r.message == message,
    {
        ApiError { status: 400, message }
    }

    /// A server error (500).
    pub fn internal(message: String) -> (r: Self)
        ensures
            r.status == 500,
            r.message == message,
    {
        ApiError { status: 500, message }
    }
}

impl ApiError {
    /// The answer to an API path that does not exist (404).
    pub fn not_found() -> (r: Self)
        ensures
            r.status == 404,
            r.message@ == "Not found"@,
    {
        ApiError { status: 404, message: "Not found".to_owned() }
    }
}

/// The JSON text of a string: the string quoted, with `serde_json`'s escapes.
pub uninterp spec fn spec_json_string(s: Seq<char>) -> Seq<char>;

/// Writes a string as a JSON string.
///
/// Calls `serde_json::to_string` on the `&str`; the text is named
/// `spec_json_string` of the string. Serialising a `str` does not fail; were
/// it to, the result would be empty.
#[verifier::external_body]
fn json_string(s: &str) -> (r: String)
    ensures
        r@ == spec_json_string(s@),
{
    serde_json::to_string(s).unwrap_or_default()
}

/// The JSON body of an error: `{"error":` and the message as a JSON string, `}`.
pub open spec fn spec_error_body(message: Seq<char>) -> Seq<char> {
    "{\"error\":"@ + spec_json_string(message) + "}"@
}

/// The JSON answer to an API error: its status and `{"error": message}`.
pub fn error_response(error: ApiError) -> (r: HttpResponse)
    ensures
        r.status == error.status,
        r.content_type@ == "application/json; charset=utf-8"@,
        r.body@ == vstd::utf8::encode_utf8(spec_error_body(error.message@)),
{
    let quoted = json_string(error.message.as_str());
    let mut out: Vec<char> = Vec::new();
    push_str(&mut out, "{\"error\":");
    push_str(&mut out, quoted.as_str());
    push_str(&mut out, "}");
    let text = string_of(out.as_slice());
    HttpResponse {
        status: error.status,
        content_type: "application/json; charset=utf-8",
        body: bytes_to_vec(text.as_str().as_bytes()),
    }
}

/// A server error (500) carrying the text of an error.
pub fn internal_error(error: String) -> (r: ApiError)
    ensures
        r.status == 500,
        r.message == error,
{
    ApiError::internal(error)
}

/// What a request asks for.
#[derive(Clone, Copy, Debug, PartialEq, Eq)]
pub enum Route {
    Index,
    NotFound,
    ApiNotFound,
    Meta,
    Preview,
    Search,
    Binary,
    Apply,
    Restore,
}

/// The route of a request: paths under `/api/` go to the API by method and
/// path; `GET /` and `GET /index.html` serve the page; anything else is not found.
pub open spec fn spec_route(method: Seq<char>, path: Seq<char>) -> Route {
    if spec_starts_with(path, "/api/"@) {
        if method == "GET"@ && path == "/api/meta"@ {
            Route::Meta
        } else if method == "POST"@ && path == "/api/preview"@ {
            Route::Preview
        } else if method == "POST"@ && path == "/api/search"@ {
            Route::Search
        } else if method == "GET"@ && path == "/api/binary"@ {
            Route::Binary
        } else if method == "POST"@ && path == "/api/apply"@ {
            Route::Apply
        } else if method == "POST"@ && path == "/api/restore"@ {
            Route::Restore
        } else {
            Route::ApiNotFound
        }
    } else if method == "GET"@ && (path == "/"@ || path == "/index.html"@) {
        Route::Index
    } else {
        Route::NotFound
    }
}

/// Routes a request.
pub fn route_request(method: &str, path: &str) -> (r: Route)
    ensures
        r == spec_route(method@, path@),
{
    if starts_with(path, "/api/") {
        if str_eq(method, "GET") && str_eq(path, "/api/meta") {
            Route::Meta
        } else if str_eq(method, "POST") && str_eq(path, "/api/preview") {
            Route::Preview
        } else if str_eq(method, "POST") && str_eq(path, "/api/search") {
            Route::Search
        } else if str_eq(method, "GET") && str_eq(path, "/api/binary") {
            Route::Binary
        } else if str_eq(method, "POST") && str_eq(path, "/api/apply") {
            Route::Apply
        } else if str_eq(method, "POST") && str_eq(path, "/api/restore") {
            Route::Restore
        } else {
            Route::ApiNotFound
        }
    } else if str_eq(method, "GET") && (str_eq(path, "/") || str_eq(path, "/index.html")) {
        Route::Index
    } else {
        Route::NotFound
    }
}

/// The plain-text 404 answered outside the API.
pub fn not_found_text() -> (r: HttpResponse)
    ensures
        r.status == 404,
        r.content_type@ == "text/plain; charset=utf-8"@,
        r.body@ == seq![78u8, 111u8, 116u8, 32u8, 102u8, 111u8, 117u8, 110u8, 100u8],
{
    HttpResponse {
        status: 404,
        content_type: "text/plain; charset=utf-8",
        body: vec![78u8, 111u8, 116u8, 32u8, 102u8, 111u8, 117u8, 110u8, 100u8],
    }
}

/// The page, served as HTML.
pub fn html_response(html: String) -> (r: HttpResponse)
    ensures
        r.status == 200,
        r.content_type@ == "text/html; charset=utf-8"@,
        r.body@ == vstd::utf8::encode_utf8(html@),
{
    let bytes = html.as_str().as_bytes();
    HttpResponse {
        status: 200,
        content_type: "text/html; charset=utf-8",
        body: crate::web::bytes_to_vec(bytes),
    }
}

/// A JSON response with the given status and serialized body.
pub fn json_response(status: u16, body: Vec<u8>) -> (r: HttpResponse)
    ensures
        r.status == status,
        r.content_type@ == "application/json; charset=utf-8"@,
        r.body == body,
{
    HttpResponse { status, content_type: "application/json; charset=utf-8", body }
}

/// The bytes of a slice, in a vector.
pub fn bytes_to_vec(bytes: &[u8]) -> (r: Vec<u8>)
    ensures
        r@ == bytes@,
{
    let mut out: Vec<u8> = Vec::new();
    let mut k: usize = 0;
    while k < bytes.len()
        invariant
            k <= bytes@.len(),
            out@ == bytes@.subrange(0, k as int),
        decreases bytes.len() - k,
    {
        out.push(bytes[k]);
        k = k + 1;
        assert(out@ =~= bytes@.subrange(0, k as int));
    }
    assert(bytes@.subrange(0, bytes@.len() as int) =~= bytes@);
    out
}

/// A text field of a request: present and not empty.
pub open spec fn spec_non_empty(value: Option<Seq<char>>) -> Option<Seq<char>> {
    match value {
        Some(v) => if v.len() > 0 {
            Some(v)
        } else {
            None
        },
        None => None,
    }
}

/// The views of an optional string.
pub open spec fn spec_opt_view(value: Option<&str>) -> Option<Seq<char>> {
    match value {
        Some(v) => Some(v@),
        None => None,
    }
}

/// A text field of a request, kept only when not empty.
pub fn non_empty(value: Option<&str>) -> (r: Option<String>)
    ensures
        match spec_non_empty(spec_opt_view(value)) {
            Some(v) => r matches Some(x) && x@ == v,
            None => r is None,
        },
{
    match value {
        Some(v) => if v.is_empty() {
            None
        } else {
            Some(v.to_owned())
        },
        None => None,
    }
}

/// The salt to preview: the request's, when not empty, else the default salt.
pub fn preview_salt(requested: Option<&str>, default_salt: &str) -> (r: String)
    ensures
        r@ == match spec_non_empty(spec_opt_view(requested)) {
            Some(v) => v,
            None => default_salt@,
        },
{
    match non_empty(requested) {
        Some(s) => s,
        None => default_salt.to_owned(),
    }
}

/// The salt to apply, which the request must give.
pub fn require_salt(salt: Option<&str>) -> (r: Result<String, ApiError>)
    ensures
        match spec_non_empty(spec_opt_view(salt)) {
            Some(v) => r matches Ok(x) && x@ == v,
            None => r matches Err(e) && e.status == 400 && e.message@ == "salt is required"@,
        },
{
    match non_empty(salt) {
        Some(s) => Ok(s),
        None => Err(ApiError::bad_request("salt is required".to_owned())),
    }
}

/// The message for a binary of the program run as `command` that was not found.
pub open spec fn spec_binary_not_found(command: Seq<char>) -> Seq<char> {
    "Could not find "@ + command + " binary."@
}

/// The message for a binary of the program named `product` holding no salt.
pub open spec fn spec_salt_undetected(product: Seq<char>) -> Seq<char> {
    "Could not detect current salt in "@ + product + " binary."@
}

fn message3(a: &str, b: &str, c: &str) -> (r: String)
    ensures
        r@ == a@ + b@ + c@,
{
    let mut out: Vec<char> = Vec::new();
    push_str(&mut out, a);
    push_str(&mut out, b);
    push_str(&mut out, c);
    string_of(out.as_slice())
}

/// The binary to patch, which must have been found; `command` is the
/// program's command name.
pub fn require_binary_path(resolved: Option<String>, command: &str) -> (r: Result<String, ApiError>)
    ensures
        match resolved {
            Some(p) => r == Ok::<String, ApiError>(p),
            None => r matches Err(e) && e.status == 400 && e.message@ == spec_binary_not_found(command@),
        },
{
    match resolved {
        Some(p) => Ok(p),
        None => Err(ApiError::bad_request(message3("Could not find ", command, " binary."))),
    }
}

/// The salt found in the binary, which must have been found; `product` is
/// the program's name.
pub fn require_detected(detected: Option<DetectedSalt>, product: &str) -> (r: Result<DetectedSalt, ApiError>)
    ensures
        match detected {
            Some(d) => r == Ok::<DetectedSalt, ApiError>(d),
            None => r matches Err(e) && e.status == 400 && e.message@ == spec_salt_undetected(product@),
        },
{
    match detected {
        Some(d) => Ok(d),
        None => Err(
            ApiError::bad_request(message3("Could not detect current salt in ", product, " binary.")),
        ),
    }
}

/// The original salt to restore, which must have been recorded.
pub fn require_recorded_salt(recorded: Option<String>) -> (r: Result<String, ApiError>)
    ensures
        match recorded {
            Some(s) => r == Ok::<String, ApiError>(s),
            None => r matches Err(e) && e.status == 400 && e.message@
                == "No recorded original salt found for this binary."@,
        },
{
    match recorded {
        Some(s) => Ok(s),
        None => Err(
            ApiError::bad_request("No recorded original salt found for this binary.".to_owned()),
        ),
    }
}

/// What an apply request did once the binary's salt was detected: whether
/// its original salt was newly recorded, and the outcome of writing the new
/// salt (the result, the bytes to write back and the original salt now
/// recorded) or the error answered.
pub struct ApplyStep {
    pub recorded: bool,
    pub outcome: Result<(ApplyResult, Vec<u8>, Option<String>), ApiError>,
}

/// The salt detected in a binary that was read, if any.
pub open spec fn spec_detected_in(binary: Option<BinaryFile>) -> Option<Seq<char>> {
    match binary {
        Some(b) => spec_detect_salt(b.contents@),
        None => None,
    }
}

/// Handles an apply request: the salt asked for must not be empty, the binary
/// must have been found at `binary_path` (read as `binary`) and hold a salt;
/// that salt is then recorded in `state` as the binary's original salt (the
/// first recording wins) before the new salt is written, and the record stays
/// even when writing fails.
pub fn apply_request(
    state: &mut StateFile,
    salt: Option<&str>,
    binary_path: Option<String>,
    binary: Option<BinaryFile>,
    recorded_at: String,
    command: &str,
    product: &str,
) -> (r: Result<ApplyStep, ApiError>)
    requires
        old(state).wf(),
    ensures
        final(state).wf(),
        final(state).version == old(state).version,
        match (spec_non_empty(spec_opt_view(salt)), binary_path, spec_detected_in(binary)) {
            (None, _, _) => r matches Err(e) && e.status == 400 && e.message@ == "salt is required"@
                && spec_entries(final(state)) == spec_entries(old(state)),
            (Some(_), None, _) => r matches Err(e) && e.status == 400 && e.message@
                == spec_binary_not_found(command@) && spec_entries(final(state)) == spec_entries(
                old(state),
            ),
            (Some(_), Some(_), None) => r matches Err(e) && e.status == 400 && e.message@
                == spec_salt_undetected(product@) && spec_entries(final(state)) == spec_entries(
                old(state),
            ),
            (Some(new), Some(p), Some(d)) => {
                &&& spec_entries(final(state)) == spec_record(spec_entries(old(state)), p@, d, recorded_at@)
                &&& spec_recorded_salt(spec_entries(final(state)), p@) == Some(
                    match spec_recorded_salt(spec_entries(old(state)), p@) {
                        Some(earlier) => earlier,
                        None => d,
                    },
                )
                &&& match r {
                    Err(_) => false,
                    Ok(step) => step.recorded == (spec_entry(spec_entries(old(state)), p@) is None)
                        && match spec_apply(new, binary, product@) {
                        Err(e) => step.outcome matches Err(x) && x.status == 500 && x.message@ == e,
                        Ok((path, count, old_salt, bytes)) => match step.outcome {
                            Err(_) => false,
                            Ok((res, v, rec)) => res.file_path@ == path && res.patch_count == count
                                && res.old_salt@ == old_salt && res.new_salt@ == new && v@ == bytes
                                && match rec {
                                Some(x) => spec_recorded_salt(spec_entries(final(state)), p@) == Some(x@),
                                None => false,
                            },
                        },
                    },
                }
            },
        },
{
    let new_salt = match require_salt(salt) {
        Ok(s) => s,
        Err(e) => return Err(e),
    };
    let path = match require_binary_path(binary_path, command) {
        Ok(p) => p,
        Err(e) => return Err(e),
    };
    let detected = match require_detected(detect_binary_salt(&binary), product) {
        Ok(d) => d,
        Err(e) => return Err(e),
    };
    proof {
        crate::state::lemma_record_then_get(
            spec_entries(state),
            path@,
            detected.salt@,
            recorded_at@,
        );
    }
    let recorded = record_original_salt(state, path.as_str(), detected.salt.as_str(), recorded_at);
    let outcome = match apply_binary(new_salt.as_str(), binary, product) {
        Err(e) => Err(ApiError::internal(e)),
        Ok((res, bytes)) => Ok((res, bytes, get_recorded_original_salt(state, path.as_str()))),
    };
    Ok(ApplyStep { recorded, outcome })
}

/// Handles a restore request: the binary must have been found at
/// `binary_path` (read as `binary`) and have an original salt recorded in
/// `state`; that salt is then written back. The result, the bytes to write
/// back (if any) and the original salt.
pub fn restore_request(
    state: &StateFile,
    binary_path: Option<String>,
    binary: Option<BinaryFile>,
    command: &str,
    product: &str,
) -> (r: Result<(RestoreResult, Option<Vec<u8>>, String), ApiError>)
    ensures
        match binary_path {
            None => r matches Err(e) && e.status == 400 && e.message@ == spec_binary_not_found(command@),
            Some(p) => match spec_recorded_salt(spec_entries(state), p@) {
                None => r matches Err(e) && e.status == 400 && e.message@
                    == "No recorded original salt found for this binary."@,
                Some(orig) => match spec_restore(orig, binary, product@) {
                    Err(e) => r matches Err(x) && x.status == 500 && x.message@ == e,
                    Ok((path, count, previous, bytes)) => match r {
                        Err(_) => false,
                        Ok((res, v, o)) => res.file_path@ == path && res.patch_count == count
                            && res.previous_salt@ == previous && res.restored_salt@ == orig && o@
                            == orig && match bytes {
                            None => v is None,
                            Some(bs) => v matches Some(x) && x@ == bs,
                        },
                    },
                },
            },
        },
{
    let path = match require_binary_path(binary_path, command) {
        Ok(p) => p,
        Err(e) => return Err(e),
    };
    let original = match require_recorded_salt(get_recorded_original_salt(state, path.as_str())) {
        Ok(s) => s,
        Err(e) => return Err(e),
    };
    match restore_binary(original.as_str(), binary, product) {
        Err(e) => Err(ApiError::internal(e)),
        Ok((res, bytes)) => Ok((res, bytes, original)),
    }
}

/// The fields an API request's JSON body gives: the strings, the counts and
/// the switch the routes read (each `None` when absent or of another type).
#[derive(Clone, Debug, PartialEq, Eq)]
pub struct RequestFields {
    pub user_id: Option<String>,
    pub salt: Option<String>,
    pub binary_path: Option<String>,
    pub prefix: Option<String>,
    pub species: Option<String>,
    pub rarity: Option<String>,
    pub eye: Option<String>,
    pub hat: Option<String>,
    pub min_stat: Option<String>,
    pub total: Option<u64>,
    pub length: Option<u64>,
    pub shiny: Option<bool>,
}

/// Request fields with their strings seen as character sequences.
pub struct RequestFieldsView {
    pub user_id: Option<Seq<char>>,
    pub salt: Option<Seq<char>>,
    pub binary_path: Option<Seq<char>>,
    pub prefix: Option<Seq<char>>,
    pub species: Option<Seq<char>>,
    pub rarity: Option<Seq<char>>,
    pub eye: Option<Seq<char>>,
    pub hat: Option<Seq<char>>,
    pub min_stat: Option<Seq<char>>,
    pub total: Option<u64>,
    pub length: Option<u64>,
    pub shiny: Option<bool>,
}

impl View for RequestFields {
    type V = RequestFieldsView;

    open spec fn view(&self) -> RequestFieldsView {
        RequestFieldsView {
            user_id: spec_opt_string(self.user_id),
            salt: spec_opt_string(self.salt),
            binary_path: spec_opt_string(self.binary_path),
            prefix: spec_opt_string(self.prefix),
            species: spec_opt_string(self.species),
            rarity: spec_opt_string(self.rarity),
            eye: spec_opt_string(self.eye),
            hat: spec_opt_string(self.hat),
            min_stat: spec_opt_string(self.min_stat),
            total: self.total,
            length: self.length,
            shiny: self.shiny,
        }
    }
}

/// The error `serde_json` reports on a body that is not JSON (`None` on JSON).
pub uninterp spec fn spec_json_error(body: Seq<u8>) -> Option<Seq<char>>;

/// The string at `key` of a JSON body, as `serde_json` reads it.
pub uninterp spec fn spec_json_str(body: Seq<u8>, key: Seq<char>) -> Option<Seq<char>>;

/// The unsigned 64-bit number at `key` of a JSON body, as `serde_json` reads it.
pub uninterp spec fn spec_json_u64(body: Seq<u8>, key: Seq<char>) -> Option<u64>;

/// The boolean at `key` of a JSON body, as `serde_json` reads it.
pub uninterp spec fn spec_json_bool(body: Seq<u8>, key: Seq<char>) -> Option<bool>;

/// Checks that a body is JSON.
///
/// Calls `serde_json::from_slice::<serde_json::Value>`; the error's text
/// (`Display`) is named `spec_json_error` of the body, `None` when it parses.
#[verifier::external_body]
fn json_error(body: &[u8]) -> (r: Option<String>)
    ensures
        spec_opt_string(r) == spec_json_error(body@),
{
    match serde_json::from_slice::<serde_json::Value>(body) {
        Ok(_) => None,
        Err(e) => Some(e.to_string()),
    }
}

/// Reads the string at `key` of a JSON body.
///
/// Calls `serde_json::from_slice::<serde_json::Value>`, then `Value::get` and
/// `Value::as_str`; the result is named `spec_json_str` of the body and key.
#[verifier::external_body]
fn json_str_field(body: &[u8], key: &str) -> (r: Option<String>)
    ensures
        spec_opt_string(r) == spec_json_str(body@, key@),
{
    serde_json::from_slice::<serde_json::Value>(body).ok().and_then(
        |v| v.get(key).and_then(serde_json::Value::as_str).map(str::to_string),
    )
}

/// Reads the unsigned number at `key` of a JSON body.
///
/// Calls `serde_json::from_slice::<serde_json::Value>`, then `Value::get` and
/// `Value::as_u64`; the result is named `spec_json_u64` of the body and key.
#[verifier::external_body]
fn json_u64_field(body: &[u8], key: &str) -> (r: Option<u64>)
    ensures
        r == spec_json_u64(body@, key@),
{
    serde_json::from_slice::<serde_json::Value>(body).ok().and_then(
        |v| v.get(key).and_then(serde_json::Value::as_u64),
    )
}

/// Reads the boolean at `key` of a JSON body.
///
/// Calls `serde_json::from_slice::<serde_json::Value>`, then `Value::get` and
/// `Value::as_bool`; the result is named `spec_json_bool` of the body and key.
#[verifier::external_body]
fn json_bool_field(body: &[u8], key: &str) -> (r: Option<bool>)
    ensures
        r == spec_json_bool(body@, key@),
{
    serde_json::from_slice::<serde_json::Value>(body).ok().and_then(
        |v| v.get(key).and_then(serde_json::Value::as_bool),
    )
}

/// The fields of a JSON body that parses.
pub open spec fn spec_body_fields(body: Seq<u8>) -> RequestFieldsView {
    RequestFieldsView {
        user_id: spec_json_str(body, "userId"@),
        salt: spec_json_str(body, "salt"@),
        binary_path: spec_json_str(body, "binaryPath"@),
        prefix: spec_json_str(body, "prefix"@),
        species: spec_json_str(body, "species"@),
        rarity: spec_json_str(body, "rarity"@),
        eye: spec_json_str(body, "eye"@),
        hat: spec_json_str(body, "hat"@),
        min_stat: spec_json_str(body, "minStat"@),
        total: spec_json_u64(body, "total"@),
        length: spec_json_u64(body, "length"@),
        shiny: spec_json_bool(body, "shiny"@),
    }
}

/// The fields of an empty body: none.
pub open spec fn spec_no_fields() -> RequestFieldsView {
    RequestFieldsView {
        user_id: None,
        salt: None,
        binary_path: None,
        prefix: None,
        species: None,
        rarity: None,
        eye: None,
        hat: None,
        min_stat: None,
        total: None,
        length: None,
        shiny: None,
    }
}

/// Reads the fields of an API request's body: an empty body counts as `{}`;
/// a body that is not JSON is a server error (500) with the parser's message.
pub fn request_fields(body: &[u8]) -> (r: Result<RequestFields, ApiError>)
    ensures
        body@.len() == 0 ==> (r matches Ok(f) && f@ == spec_no_fields()),
        body@.len() > 0 ==> match spec_json_error(body@) {
            Some(e) => r matches Err(x) && x.status == 500 && x.message@ == e,
            None => r matches Ok(f) && f@ == spec_body_fields(body@),
        },
{
    if body.len() == 0 {
        return Ok(
            RequestFields {
                user_id: None,
                salt: None,
                binary_path: None,
                prefix: None,
                species: None,
                rarity: None,
                eye: None,
                hat: None,
                min_stat: None,
                total: None,
                length: None,
                shiny: None,
            },
        );
    }
    match json_error(body) {
        Some(e) => return Err(ApiError::internal(e)),
        None => {},
    }
    Ok(
        RequestFields {
            user_id: json_str_field(body, "userId"),
            salt: json_str_field(body, "salt"),
            binary_path: json_str_field(body, "binaryPath"),
            prefix: json_str_field(body, "prefix"),
            species: json_str_field(body, "species"),
            rarity: json_str_field(body, "rarity"),
            eye: json_str_field(body, "eye"),
            hat: json_str_field(body, "hat"),
            min_stat: json_str_field(body, "minStat"),
            total: json_u64_field(body, "total"),
            length: json_u64_field(body, "length"),
            shiny: json_bool_field(body, "shiny"),
        },
    )
}

/// The views of an optional string.
pub open spec fn spec_opt_string(value: Option<String>) -> Option<Seq<char>> {
    match value {
        Some(v) => Some(v@),
        None => None,
    }
}

/// A string filter of a request: kept only when not empty.
pub open spec fn spec_filter_of(value: Option<String>, filter: Option<String>) -> bool {
    spec_opt_string(filter) == spec_non_empty(spec_opt_string(value))
}

fn filter_of(value: &Option<String>) -> (r: Option<String>)
    ensures
        spec_filter_of(*value, r),
{
    match value {
        Some(v) => non_empty(Some(v.as_str())),
        None => None,
    }
}

/// The search a request asks for, for `user_id`: `total` (100000 when
/// absent), `prefix` (`lab-`), `length` (the default salt's byte length)
/// taken as `usize`, the non-empty string filters, `shiny` (false), the
/// threshold given, and at most 24 matches.
pub fn search_request_params(
    request: &RequestFields,
    user_id: String,
    min_stat: Option<MinStat>,
    default_salt: &str,
) -> (r: SearchParams)
    ensures
        r.user_id == user_id,
        r.total == match request.total {
            Some(t) => t as usize,
            None => 100000usize,
        },
        r.prefix@ == match request.prefix {
            Some(p) => p@,
            None => "lab-"@,
        },
        r.length == match request.length {
            Some(l) => l as usize,
            None => spec_byte_len(default_salt@) as u64 as usize,
        },
        spec_filter_of(request.species, r.filters.species),
        spec_filter_of(request.rarity, r.filters.rarity),
        spec_filter_of(request.eye, r.filters.eye),
        spec_filter_of(request.hat, r.filters.hat),
        r.filters.shiny == match request.shiny {
            Some(b) => b,
            None => false,
        },
        r.filters.min_stat == min_stat,
        r.max_matches == 24,
{
    let total: usize = match request.total {
        Some(t) => #[verifier::truncate] (t as usize),
        None => 100000,
    };
    let prefix = match &request.prefix {
        Some(p) => p.clone(),
        None => "lab-".to_owned(),
    };
    let length: usize = match request.length {
        Some(l) => #[verifier::truncate] (l as usize),
        None => byte_len(default_salt) as u64 as usize,
    };
    let filters = SearchFilters {
        species: filter_of(&request.species),
        rarity: filter_of(&request.rarity),
        eye: filter_of(&request.eye),
        hat: filter_of(&request.hat),
        shiny: match request.shiny {
            Some(b) => b,
            None => false,
        },
        min_stat,
    };
    SearchParams { user_id, total, prefix, length, filters, max_matches: 24 }
}

} // verus!
