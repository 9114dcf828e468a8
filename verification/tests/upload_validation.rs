use screenshot_store::upload::Service;
use screenshot_store::upload::basic_auth_header;
use screenshot_store::upload::classify_status;
use screenshot_store::upload::jira_attachments_url;
use screenshot_store::upload::jira_browse_url;
use screenshot_store::upload::jira_comment_url;
use screenshot_store::upload::jira_myself_url;
use screenshot_store::upload::parse_service;
use screenshot_store::upload::validate_jira_ticket_id;
use screenshot_store::upload::validate_zendesk_subdomain;
use screenshot_store::upload::validate_zendesk_ticket_id;
use screenshot_store::upload::zendesk_agent_ticket_url;
use screenshot_store::upload::zendesk_comment_url;
use screenshot_store::upload::zendesk_upload_url;
use screenshot_store::upload::zendesk_users_me_url;
use screenshot_store::upload::StatusClass;

#[test]
fn jira_ticket_id_validation_enforces_expected_format() {
    assert_eq!(
        validate_jira_ticket_id("PROJ-123").unwrap(),
        "PROJ-123".to_string()
    );
    assert!(validate_jira_ticket_id("proj-123").is_err());
    assert!(validate_jira_ticket_id("PROJ-").is_err());
    assert!(validate_jira_ticket_id("PROJ123").is_err());
}

#[test]
fn zendesk_subdomain_validation_rejects_unsafe_values() {
    assert_eq!(
        validate_zendesk_subdomain("my-company").unwrap(),
        "my-company".to_string()
    );
    assert!(validate_zendesk_subdomain("my.company").is_err());
    assert!(validate_zendesk_subdomain("../evil").is_err());
    assert!(validate_zendesk_subdomain("-bad").is_err());
}

#[test]
fn zendesk_ticket_id_requires_digits() {
    assert_eq!(
        validate_zendesk_ticket_id("123456").unwrap(),
        "123456".to_string()
    );
    assert!(validate_zendesk_ticket_id("ABC-123").is_err());
    assert!(validate_zendesk_ticket_id("").is_err());
}

#[test]
fn jira_ticket_id_is_trimmed_and_allows_digits_and_underscores() {
    assert_eq!(
        validate_jira_ticket_id("  AB_2-007  ").unwrap(),
        "AB_2-007".to_string()
    );
    assert!(validate_jira_ticket_id("A-1").is_err()); // project key too short
    assert!(validate_jira_ticket_id("AB-12-3").is_err()); // dash in the number
}

#[test]
fn zendesk_subdomain_is_case_folded_and_trimmed() {
    assert_eq!(
        validate_zendesk_subdomain("  MY-Company9  ").unwrap(),
        "my-company9".to_string()
    );
    assert!(validate_zendesk_subdomain("ends-with-").is_err());
    assert!(validate_zendesk_subdomain("").is_err());
    let sixty_four = "a".repeat(64);
    assert!(validate_zendesk_subdomain(&sixty_four).is_err());
}

#[test]
fn zendesk_ticket_id_is_trimmed() {
    assert_eq!(validate_zendesk_ticket_id(" 42 ").unwrap(), "42".to_string());
}

#[test]
fn service_names_are_recognised() {
    assert_eq!(parse_service("jira"), Some(Service::Jira));
    assert_eq!(parse_service("zendesk"), Some(Service::Zendesk));
    assert_eq!(parse_service("github"), None);
    assert_eq!(parse_service("Jira"), None);
}

#[test]
fn status_codes_are_classified_as_the_upload_paths_act_on_them() {
    assert_eq!(classify_status(401), StatusClass::AuthFailed);
    assert_eq!(classify_status(403), StatusClass::AuthFailed);
    assert_eq!(classify_status(404), StatusClass::TicketNotFound);
    assert_eq!(classify_status(200), StatusClass::Success);
    assert_eq!(classify_status(299), StatusClass::Success);
    assert_eq!(classify_status(500), StatusClass::Failure);
    assert_eq!(classify_status(302), StatusClass::Failure);
}

#[test]
fn auth_headers_encode_the_service_credentials() {
    // "user@example.com:tok" in standard base64.
    let jira = basic_auth_header("user@example.com", "tok", Service::Jira);
    let expected = base64::Engine::encode(
        &base64::engine::general_purpose::STANDARD,
        "user@example.com:tok",
    );
    assert_eq!(jira, format!("Basic {}", expected));
    let zendesk = basic_auth_header("user@example.com", "tok", Service::Zendesk);
    let expected_z = base64::Engine::encode(
        &base64::engine::general_purpose::STANDARD,
        "user@example.com/token:tok",
    );
    assert_eq!(zendesk, format!("Basic {}", expected_z));
}

#[test]
fn request_urls_follow_each_service_layout() {
    assert_eq!(
        jira_attachments_url("https://x.atlassian.net", "AB-1"),
        "https://x.atlassian.net/rest/api/3/issue/AB-1/attachments"
    );
    assert_eq!(
        jira_comment_url("https://x.atlassian.net", "AB-1"),
        "https://x.atlassian.net/rest/api/3/issue/AB-1/comment"
    );
    assert_eq!(
        jira_browse_url("https://x.atlassian.net", "AB-1"),
        "https://x.atlassian.net/browse/AB-1"
    );
    assert_eq!(
        jira_myself_url("https://x.atlassian.net"),
        "https://x.atlassian.net/rest/api/3/myself"
    );
    assert_eq!(
        zendesk_upload_url("acme", "shot.png"),
        "https://acme.zendesk.com/api/v2/uploads?filename=shot.png"
    );
    assert_eq!(
        zendesk_comment_url("acme", "77"),
        "https://acme.zendesk.com/api/v2/tickets/77/comments"
    );
    assert_eq!(
        zendesk_agent_ticket_url("acme", "77"),
        "https://acme.zendesk.com/agent/tickets/77"
    );
    assert_eq!(
        zendesk_users_me_url("acme"),
        "https://acme.zendesk.com/api/v2/users/me"
    );
}
