use immutable_bank_model::account::AccountType;
use immutable_bank_model::bank::Bank;
use immutable_bank_model::bank_id::BankId;
use immutable_bank_model::error::LedgerError;
use immutable_bank_model::password_hash::PasswordHash;
use immutable_bank_model::responses::create_bank::ResponseCreateBank;
use immutable_bank_model::responses::transfer::ResponseTransfer;
use immutable_bank_model::web::{
    bank_from_socket_path, cache_control, file_headers, find, frame_refused, post_route, route, same_text,
    static_file_path, text_eq, PostRoute, RequestMethod, Route, MAX_REQUEST_BODY,
};

#[test]
fn routing_order() {
    assert_eq!(route(RequestMethod::Options, true), Route::Options);
    assert_eq!(route(RequestMethod::Get, true), Route::Upgrade);
    assert_eq!(route(RequestMethod::Other, true), Route::Upgrade);
    assert_eq!(route(RequestMethod::Get, false), Route::Get);
    assert_eq!(route(RequestMethod::Post, false), Route::Post);
    assert_eq!(route(RequestMethod::Other, false), Route::BadRequest);
}

#[test]
fn post_routes() {
    assert_eq!(post_route("/update-bank"), Some(PostRoute::UpdateBank));
    assert_eq!(post_route("/new-bank"), Some(PostRoute::NewBank));
    assert_eq!(post_route("/copy-bank"), Some(PostRoute::CopyBank));
    assert_eq!(post_route("/transfer"), Some(PostRoute::Transfer));
    assert_eq!(post_route("/transfer/"), None);
    assert_eq!(post_route("transfer"), None);
    assert_eq!(post_route(""), None);
}

#[test]
fn static_paths() {
    assert_eq!(static_file_path(""), Some("index.html".to_string()));
    assert_eq!(static_file_path("/"), Some("index.html".to_string()));
    assert_eq!(static_file_path("/app.js"), Some("app.js".to_string()));
    assert_eq!(static_file_path("/img/logo.png"), Some("img/logo.png".to_string()));
    assert_eq!(static_file_path("/a/../b"), None);
    assert_eq!(static_file_path("/..."), None);
    assert_eq!(static_file_path("//etc/passwd"), None);
    assert_eq!(static_file_path("/~root"), None);
    assert_eq!(static_file_path("~root"), None);
    assert_eq!(static_file_path("plain"), Some("plain".to_string()));
    assert_eq!(static_file_path("/a.b/c"), Some("a.b/c".to_string()));
}

#[test]
fn cache_headers_by_component() {
    let long = "Cache-Control: max-age=86400, stale-while-revalidate=86400";
    let short = "Cache-Control: max-age=30, stale-while-revalidate=86400";
    assert_eq!(cache_control("music/.mp3"), long);
    assert_eq!(cache_control(".wasm"), long);
    assert_eq!(cache_control("a/.wav"), long);
    assert_eq!(cache_control("clip/.mp4"), long);
    assert_eq!(cache_control("song.mp3"), short);
    assert_eq!(cache_control("index.html"), short);
}

#[test]
fn socket_paths_name_banks() {
    assert_eq!(bank_from_socket_path("/ws/Bank/Alice").unwrap().as_str(), "alice");
    assert_eq!(bank_from_socket_path("/bank/bob").unwrap().as_str(), "bob");
    assert_eq!(bank_from_socket_path("/x/bank/a/bank/b").unwrap().as_str(), "a/bank/b");
    assert_eq!(bank_from_socket_path("/bank/").unwrap().as_str(), "");
    assert!(bank_from_socket_path("/ws/banks/alice").is_none());
    assert!(bank_from_socket_path("").is_none());
}

#[test]
fn frames_after_a_larger_body_are_refused() {
    assert!(!frame_refused(0, 10));
    assert!(!frame_refused(10, 10));
    assert!(frame_refused(11, 10));
    assert_eq!(MAX_REQUEST_BODY, 1_048_576);
}

#[test]
fn finding_and_comparing_text() {
    assert_eq!(find("abcabc", "ca"), Some(2));
    assert_eq!(find("abc", ""), Some(0));
    assert_eq!(find("ab", "abc"), None);
    assert_eq!(find("héllo", "llo"), Some(2));
    assert!(text_eq("abc", "abc"));
    assert!(!text_eq("abc", "abd"));
    assert!(!text_eq("abc", "ab"));
    assert!(same_text("xy", "xy"));
    assert!(!same_text("xy", "yx"));
}

#[test]
fn response_texts() {
    let bank = Bank::new(BankId::from_name("Alice"), PasswordHash::from_password("s", "p"));
    assert_eq!(
        ResponseCreateBank::Created { bank }.to_string(),
        "ResponseCreateBank::Created ((alice))"
    );
    assert_eq!(
        ResponseCreateBank::AlreadyExists { err_msg: "taken".to_string() }.to_string(),
        "ResposneCreateBank::AlreadyExists(taken)"
    );
    assert_eq!(
        ResponseTransfer::InvalidBank { bank_id: BankId::from_name("bob") }.to_string(),
        "ResponseTransfer::InvalidBank ((bob))"
    );
    assert_eq!(ResponseTransfer::InvalidSignature.to_string(), "ResponseTransfer::InvalidSignature");
    assert_eq!(
        ResponseTransfer::InvalidAccount { bank_id: BankId::from_name("bob"), account: AccountType::Printer }
            .to_string(),
        "ResponseTransfer::InvalidAccount ((bob))[Money Printer]"
    );
    assert_eq!(
        ResponseTransfer::InsufficientFunds {
            requested: 500,
            available: 20,
            bank_id: BankId::from_name("bob"),
            account: AccountType::Wallet,
        }
        .to_string(),
        "ResponseTransfer::InsufficientFunds ((bob))[Wallet Account] 500 vs 20"
    );
    assert_eq!(ResponseTransfer::Transferred.to_string(), "ResponseTransfer::Transferred");
}

#[test]
fn error_messages() {
    assert_eq!(LedgerError::UnknownBank.to_string(), "The bank is unknown to this ledger");
    assert_eq!(LedgerError::InvalidBankSignature.to_string(), "Invalid bank signature");
}

#[test]
fn file_headers_by_extension() {
    let h = file_headers("index.html");
    assert_eq!(h.content_type, "text/html");
    assert_eq!(h.cache_control, "Cache-Control: max-age=30, stale-while-revalidate=86400");
    assert_eq!(file_headers("app.wasm").content_type, "application/wasm");
    assert_eq!(file_headers("data.unknownext").content_type, "application/octet-stream");
    assert_eq!(
        file_headers("media/.mp3").cache_control,
        "Cache-Control: max-age=86400, stale-while-revalidate=86400"
    );
}
