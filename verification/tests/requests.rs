use claude_buddy_changer::binary_patch::DetectedSalt;
use claude_buddy_changer::cli::{
    cli_preview_salt, cli_search_params, cli_user_id, get_flag, parse_args, parse_command, Command,
};
use claude_buddy_changer::http::{find_header_end, parse_request_head, parse_request_text, reason_phrase, RequestHead};
use claude_buddy_changer::search::MinStat;
use claude_buddy_changer::state::{get_recorded_original_salt, StateFile};
use claude_buddy_changer::web::{
    html_response, internal_error, json_response, non_empty, not_found_text, preview_salt,
    require_binary_path, require_detected, require_recorded_salt, require_salt, route_request,
    search_request_params, apply_request, error_response, request_fields, restore_request, ApiError,
    ApplyStep, RequestFields, Route,
};

fn no_fields() -> RequestFields {
    RequestFields {
        user_id: None,
        salt: None,
        binary_path: None,
        prefix: None,
        species: None,
        rarity: None,
        eye: None,
        hat: None,
        min_stat: None,
        total: None,
        length: None,
        shiny: None,
    }
}

fn error_of(response: &claude_buddy_changer::web::HttpResponse) -> Option<String> {
    let json: serde_json::Value = serde_json::from_slice(&response.body).expect("body should be JSON");
    json.get("error").and_then(serde_json::Value::as_str).map(str::to_string)
}

fn tokens(items: &[&str]) -> Vec<String> {
    items.iter().map(|s| s.to_string()).collect()
}

#[test]
fn header_end_is_first_blank_line() {
    assert_eq!(find_header_end(b"GET / HTTP/1.1\r\nHost: x\r\n\r\nbody"), Some(23));
    assert_eq!(find_header_end(b"\r\n\r\n"), Some(0));
    assert_eq!(find_header_end(b"GET / HTTP/1.1\r\n"), None);
    assert_eq!(find_header_end(b""), None);
}

#[test]
fn request_head_reads_method_path_and_length() {
    let head = parse_request_text("POST /api/search HTTP/1.1\r\nHost: x\r\nContent-Length:  42 \r\n");
    assert_eq!(
        head,
        RequestHead { method: "POST".to_string(), path: "/api/search".to_string(), content_length: 42 }
    );
    let head = parse_request_text("GET\r\ncontent-length: nope");
    assert_eq!(head, RequestHead { method: "GET".to_string(), path: "/".to_string(), content_length: 0 });
    let head = parse_request_text("");
    assert_eq!(head, RequestHead { method: String::new(), path: "/".to_string(), content_length: 0 });
    let head = parse_request_text("PUT  /x  extra\nContent-Length: 3\nCONTENT-LENGTH: 7");
    assert_eq!(head.content_length, 7);
    assert_eq!(head.path, "/x");
}

#[test]
fn request_head_decodes_bytes() {
    let head = parse_request_head(b"GET /index.html HTTP/1.1\r\nContent-Length: 5");
    assert_eq!(head.method, "GET");
    assert_eq!(head.path, "/index.html");
    assert_eq!(head.content_length, 5);
    let head = parse_request_head(b"GET /\xff HTTP/1.1");
    assert_eq!(head.path, "/\u{fffd}");
}

#[test]
fn reason_phrases_follow_status() {
    assert_eq!(reason_phrase(200), "OK");
    assert_eq!(reason_phrase(400), "Bad Request");
    assert_eq!(reason_phrase(404), "Not Found");
    assert_eq!(reason_phrase(500), "Internal Server Error");
    assert_eq!(reason_phrase(302), "OK");
}

#[test]
fn routes_follow_method_and_path() {
    assert_eq!(route_request("GET", "/api/meta"), Route::Meta);
    assert_eq!(route_request("POST", "/api/preview"), Route::Preview);
    assert_eq!(route_request("POST", "/api/search"), Route::Search);
    assert_eq!(route_request("GET", "/api/binary"), Route::Binary);
    assert_eq!(route_request("POST", "/api/apply"), Route::Apply);
    assert_eq!(route_request("POST", "/api/restore"), Route::Restore);
    assert_eq!(route_request("GET", "/api/unknown"), Route::ApiNotFound);
    assert_eq!(route_request("GET", "/api/preview"), Route::ApiNotFound);
    assert_eq!(route_request("GET", "/"), Route::Index);
    assert_eq!(route_request("GET", "/index.html"), Route::Index);
    assert_eq!(route_request("POST", "/"), Route::NotFound);
    assert_eq!(route_request("GET", "/favicon.ico"), Route::NotFound);
}

#[test]
fn plain_responses_have_their_types() {
    let r = not_found_text();
    assert_eq!((r.status, r.content_type, r.body), (404, "text/plain; charset=utf-8", b"Not found".to_vec()));
    let r = html_response("<title>Buddy Changer</title>".to_string());
    assert_eq!(r.status, 200);
    assert_eq!(r.content_type, "text/html; charset=utf-8");
    assert_eq!(r.body, b"<title>Buddy Changer</title>".to_vec());
    let r = json_response(400, b"{\"error\":\"x\"}".to_vec());
    assert_eq!((r.status, r.content_type), (400, "application/json; charset=utf-8"));
    assert_eq!(r.body, b"{\"error\":\"x\"}".to_vec());
}

#[test]
fn api_errors_carry_status_and_message() {
    assert_eq!(
        require_salt(Some("")),
        Err(ApiError { status: 400, message: "salt is required".to_string() })
    );
    assert_eq!(require_salt(None).unwrap_err().message, "salt is required");
    assert_eq!(require_salt(Some("friend-2026-999")), Ok("friend-2026-999".to_string()));
    assert_eq!(
        require_binary_path(None, "acme"),
        Err(ApiError { status: 400, message: "Could not find acme binary.".to_string() })
    );
    assert_eq!(require_binary_path(Some("/b".to_string()), "acme"), Ok("/b".to_string()));
    assert_eq!(
        require_detected(None, "Acme Code"),
        Err(ApiError {
            status: 400,
            message: "Could not detect current salt in Acme Code binary.".to_string()
        })
    );
    let d = DetectedSalt { salt: "friend-2026-401".to_string(), length: 15, file_path: "/b".to_string() };
    assert_eq!(require_detected(Some(d.clone()), "Acme Code"), Ok(d));
    assert_eq!(
        require_recorded_salt(None),
        Err(ApiError { status: 400, message: "No recorded original salt found for this binary.".to_string() })
    );
    assert_eq!(
        internal_error("Invalid min stat value: CHAOS:not-a-number".to_string()),
        ApiError { status: 500, message: "Invalid min stat value: CHAOS:not-a-number".to_string() }
    );
    assert_eq!(ApiError::bad_request("x".to_string()).status, 400);
    assert_eq!(ApiError::internal("x".to_string()).status, 500);
}

#[test]
fn request_fields_drop_empty_text() {
    assert_eq!(non_empty(Some("")), None);
    assert_eq!(non_empty(None), None);
    assert_eq!(non_empty(Some("a")), Some("a".to_string()));
    assert_eq!(preview_salt(Some(""), "friend-2026-401"), "friend-2026-401");
    assert_eq!(preview_salt(Some("lab-1"), "friend-2026-401"), "lab-1");
}

#[test]
fn search_request_defaults() {
    let req = RequestFields {
        species: Some(String::new()),
        rarity: Some("rare".to_string()),
        ..no_fields()
    };
    let p = search_request_params(&req, "u".to_string(), None, "friend-2026-401");
    assert_eq!(p.user_id, "u");
    assert_eq!(p.total, 100_000);
    assert_eq!(p.prefix, "lab-");
    assert_eq!(p.length, 15);
    assert_eq!(p.filters.species, None);
    assert_eq!(p.filters.rarity, Some("rare".to_string()));
    assert!(!p.filters.shiny);
    assert_eq!(p.max_matches, 24);
    let req = RequestFields {
        total: Some(10),
        prefix: Some(String::new()),
        length: Some(8),
        eye: Some("·".to_string()),
        hat: Some("crown".to_string()),
        shiny: Some(true),
        ..no_fields()
    };
    let ms = MinStat { name: "CHAOS".to_string(), at_least: 50 };
    let p = search_request_params(&req, "u".to_string(), Some(ms.clone()), "friend-2026-401");
    assert_eq!((p.total, p.prefix.as_str(), p.length), (10, "", 8));
    assert_eq!(p.filters.eye, Some("·".to_string()));
    assert_eq!(p.filters.hat, Some("crown".to_string()));
    assert!(p.filters.shiny);
    assert_eq!(p.filters.min_stat, Some(ms));
}

#[test]
fn arguments_split_into_words_flags_and_switches() {
    let args = parse_args(tokens(&["search", "--species", "cat", "--shiny", "--total", "5", "extra", "--species", "duck"])).unwrap();
    assert_eq!(args.positionals, tokens(&["search", "extra"]));
    assert_eq!(args.switches, tokens(&["shiny"]));
    assert_eq!(get_flag(&args, "species"), Some(&"duck".to_string()));
    assert_eq!(get_flag(&args, "total"), Some(&"5".to_string()));
    assert_eq!(get_flag(&args, "hat"), None);
    assert_eq!(parse_args(tokens(&["preview", "--salt"])), Err("Missing value for --salt".to_string()));
    assert_eq!(
        parse_args(tokens(&["preview", "--salt", "--user-id", "u"])),
        Err("Missing value for --salt".to_string())
    );
    let args = parse_args(tokens(&["----salt", "x"])).unwrap();
    assert_eq!(get_flag(&args, "salt"), Some(&"x".to_string()));
}

#[test]
fn commands_are_named_by_first_word() {
    let cmd = |t: &[&str]| parse_command(&parse_args(tokens(t)).unwrap());
    assert_eq!(cmd(&[]), Ok(Command::Help));
    assert_eq!(cmd(&["help"]), Ok(Command::Help));
    assert_eq!(cmd(&["preview"]), Ok(Command::Preview));
    assert_eq!(cmd(&["search", "x"]), Ok(Command::Search));
    assert_eq!(cmd(&["roll"]), Err("Unknown command: roll".to_string()));
}

#[test]
fn command_line_search_checks_counts() {
    let params = |t: &[&str]| cli_search_params(&parse_args(tokens(t)).unwrap(), "u".to_string(), "friend-2026-401");
    let p = params(&["search"]).unwrap();
    assert_eq!((p.total, p.prefix.as_str(), p.length, p.max_matches), (100_000, "lab-", 15, 20));
    let p = params(&["search", "--salt", "abc", "--salt-prefix", "x-", "--hat", "crown", "--shiny"]).unwrap();
    assert_eq!((p.length, p.prefix.as_str()), (3, "x-"));
    assert_eq!(p.filters.hat, Some("crown".to_string()));
    assert!(p.filters.shiny);
    assert_eq!(p.filters.min_stat, None);
    assert_eq!(params(&["search", "--total", "0"]).unwrap_err(), "Invalid --total value: 0");
    assert_eq!(params(&["search", "--total", "-3"]).unwrap_err(), "Invalid --total value: -3");
    assert_eq!(params(&["search", "--length", "x"]).unwrap_err(), "Invalid --length value: x");
    assert_eq!(params(&["search", "--length", "+0"]).unwrap_err(), "Invalid --length value: +0");
    assert_eq!(params(&["search", "--length", "+7"]).unwrap().length, 7);
}

#[test]
fn command_line_user_id_and_salt() {
    let args = parse_args(tokens(&["preview", "--user-id", "given", "--salt", "s"])).unwrap();
    assert_eq!(cli_user_id(&args, Ok("found".to_string())), Ok("given".to_string()));
    assert_eq!(cli_user_id(&args, Err("no home".to_string())), Ok("given".to_string()));
    assert_eq!(cli_preview_salt(&args, "friend-2026-401"), "s");
    let bare = parse_args(tokens(&["preview"])).unwrap();
    assert_eq!(cli_user_id(&bare, Ok("found".to_string())), Ok("found".to_string()));
    assert_eq!(cli_user_id(&bare, Err("no home".to_string())), Err("no home".to_string()));
    assert_eq!(cli_preview_salt(&bare, "friend-2026-401"), "friend-2026-401");
}

fn acme_binary(bytes: &[u8]) -> Option<claude_buddy_changer::binary_patch::BinaryFile> {
    Some(claude_buddy_changer::binary_patch::BinaryFile { path: "/bin/acme".to_string(), contents: bytes.to_vec() })
}

#[test]
fn apply_request_records_before_patching() {
    let mut state = StateFile::default();
    let step = apply_request(
        &mut state,
        Some("friend-2026-999"),
        Some("/bin/acme".to_string()),
        acme_binary(b"x friend-2026-401 y"),
        "10".to_string(),
        "acme",
        "Acme Code",
    )
    .unwrap();
    assert!(step.recorded);
    let (result, bytes, recorded) = step.outcome.unwrap();
    assert_eq!(result.patch_count, 1);
    assert_eq!(result.old_salt, "friend-2026-401");
    assert_eq!(bytes, b"x friend-2026-999 y".to_vec());
    assert_eq!(recorded, Some("friend-2026-401".to_string()));

    let step = apply_request(
        &mut state,
        Some("lab-1"),
        Some("/bin/acme".to_string()),
        acme_binary(&bytes),
        "20".to_string(),
        "acme",
        "Acme Code",
    )
    .unwrap();
    assert!(!step.recorded);
    assert_eq!(
        step.outcome.unwrap_err(),
        ApiError {
            status: 500,
            message: "Salt length mismatch: \"friend-2026-999\" is 15, \"lab-1\" is 5.".to_string()
        }
    );
    assert_eq!(get_recorded_original_salt(&state, "/bin/acme"), Some("friend-2026-401".to_string()));
}

#[test]
fn apply_request_checks_in_order() {
    let mut state = StateFile::default();
    let err = |r: Result<ApplyStep, ApiError>| r.err().unwrap();
    assert_eq!(
        err(apply_request(&mut state, Some(""), None, None, "1".to_string(), "acme", "Acme Code")),
        ApiError { status: 400, message: "salt is required".to_string() }
    );
    assert_eq!(
        err(apply_request(&mut state, Some("s"), None, None, "1".to_string(), "acme", "Acme Code")),
        ApiError { status: 400, message: "Could not find acme binary.".to_string() }
    );
    assert_eq!(
        err(apply_request(
            &mut state,
            Some("s"),
            Some("/bin/acme".to_string()),
            acme_binary(b"nothing"),
            "1".to_string(),
            "acme",
            "Acme Code"
        )),
        ApiError { status: 400, message: "Could not detect current salt in Acme Code binary.".to_string() }
    );
    assert!(state.binaries.is_empty());
}

#[test]
fn request_bodies_are_read_as_json() {
    assert_eq!(request_fields(b""), Ok(no_fields()));
    assert_eq!(request_fields(b"{}"), Ok(no_fields()));
    let fields = request_fields(
        br#"{"userId":"u","salt":"s","binaryPath":"/b","prefix":"p-","species":"cat","rarity":"rare","eye":"x","hat":"crown","minStat":"CHAOS:5","total":12,"length":9,"shiny":true}"#,
    )
    .unwrap();
    assert_eq!(
        fields,
        RequestFields {
            user_id: Some("u".to_string()),
            salt: Some("s".to_string()),
            binary_path: Some("/b".to_string()),
            prefix: Some("p-".to_string()),
            species: Some("cat".to_string()),
            rarity: Some("rare".to_string()),
            eye: Some("x".to_string()),
            hat: Some("crown".to_string()),
            min_stat: Some("CHAOS:5".to_string()),
            total: Some(12),
            length: Some(9),
            shiny: Some(true),
        }
    );
    let fields = request_fields(br#"{"salt":5,"total":-1,"shiny":"yes"}"#).unwrap();
    assert_eq!(fields, no_fields());
    let error = request_fields(b"{oops").unwrap_err();
    assert_eq!(error.status, 500);
    assert!(!error.message.is_empty());
}

#[test]
fn error_answers_are_json() {
    let r = error_response(ApiError { status: 400, message: "say \"hi\"".to_string() });
    assert_eq!(r.status, 400);
    assert_eq!(r.content_type, "application/json; charset=utf-8");
    assert_eq!(r.body, br#"{"error":"say \"hi\""}"#.to_vec());
    assert_eq!(error_of(&r), Some("say \"hi\"".to_string()));
}

#[test]
fn apply_route_rejects_missing_salt() {
    assert_eq!(route_request("POST", "/api/apply"), Route::Apply);
    let fields = request_fields(br#"{}"#).unwrap();
    let mut state = StateFile::default();
    let error = apply_request(&mut state, fields.salt.as_deref(), None, None, "1".to_string(), "acme", "Acme Code")
        .err()
        .unwrap();
    let response = error_response(error);
    assert_eq!(response.status, 400);
    assert_eq!(error_of(&response), Some("salt is required".to_string()));
}

#[test]
fn restore_route_rejects_missing_binary_path() {
    assert_eq!(route_request("POST", "/api/restore"), Route::Restore);
    let fields = request_fields(br#"{"binaryPath":"Z:\\definitely-missing\\acme.exe"}"#).unwrap();
    assert_eq!(fields.binary_path, Some("Z:\\definitely-missing\\acme.exe".to_string()));
    let state = StateFile::default();
    let error = restore_request(&state, None, None, "acme", "Acme Code").err().unwrap();
    let response = error_response(error);
    assert_eq!(response.status, 400);
    assert_eq!(error_of(&response), Some("Could not find acme binary.".to_string()));
}

#[test]
fn unknown_api_route_returns_not_found_json() {
    assert_eq!(route_request("GET", "/api/unknown"), Route::ApiNotFound);
    let response = error_response(ApiError::not_found());
    assert_eq!(response.status, 404);
    assert_eq!(error_of(&response), Some("Not found".to_string()));
}

#[test]
fn restore_request_writes_back_the_recorded_salt() {
    let mut state = StateFile::default();
    claude_buddy_changer::state::record_original_salt(&mut state, "/bin/acme", "friend-2026-401", "1".to_string());
    let (res, bytes, original) = restore_request(
        &state,
        Some("/bin/acme".to_string()),
        acme_binary(b"a friend-2026-999 b"),
        "acme",
        "Acme Code",
    )
    .unwrap();
    assert_eq!(res.patch_count, 1);
    assert_eq!(res.previous_salt, "friend-2026-999");
    assert_eq!(bytes, Some(b"a friend-2026-401 b".to_vec()));
    assert_eq!(original, "friend-2026-401");
    let error = restore_request(&StateFile::default(), Some("/bin/acme".to_string()), None, "acme", "Acme Code")
        .err()
        .unwrap();
    assert_eq!(
        error,
        ApiError { status: 400, message: "No recorded original salt found for this binary.".to_string() }
    );
}
