use btcmap_api::rest::v4::place_submissions::{check_submission_text, humanize_ticket_url, shown_ticket_url};

#[test]
fn humanize_ticket_url_strips_api_prefix() {
    assert_eq!(
        "https://gitea.btcmap.org/teambtcmap/btcmap-data/issues/1",
        humanize_ticket_url(
            "https://gitea.btcmap.org/api/v1/repos/teambtcmap/btcmap-data/issues/1".to_string()
        )
    );
}

#[test]
fn humanize_ticket_url_leaves_non_gitea_urls_alone() {
    let url = "https://example.com/issue/123".to_string();
    assert_eq!(url.clone(), humanize_ticket_url(url));
}

#[test]
fn humanize_ticket_url_strips_only_first_occurrence() {
    assert_eq!(
        "https://gitea.btcmap.org/foo/api/v1/repos/bar",
        humanize_ticket_url("https://gitea.btcmap.org/api/v1/repos/foo/api/v1/repos/bar".to_string())
    );
}

#[test]
fn shown_ticket_url_keeps_absence() {
    assert_eq!(None, shown_ticket_url(None));
}

#[test]
fn blank_category_is_reported_before_blank_name() {
    assert_eq!("category cannot be empty", check_submission_text(" ", "").unwrap_err().message);
    assert_eq!("name cannot be empty", check_submission_text("cafe", "\t").unwrap_err().message);
    assert!(check_submission_text("cafe", "Satoshi's").is_ok());
}
