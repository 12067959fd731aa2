use dsmr_exporter::client::{upstream_url, API_PATH, MAX_BASE_URL_BYTES};

#[test]
fn api_path_is_the_path_of_the_current_readings() {
    assert_eq!(API_PATH, "/api/v1/sm/actual");
}

#[test]
fn base_without_a_path_gets_the_api_path() {
    assert_eq!(
        upstream_url("http://192.168.1.20"),
        Some("http://192.168.1.20/api/v1/sm/actual".to_string())
    );
}

#[test]
fn path_of_the_base_is_replaced() {
    assert_eq!(
        upstream_url("http://dsmr.local/some/other/page.html"),
        Some("http://dsmr.local/api/v1/sm/actual".to_string())
    );
    assert_eq!(
        upstream_url("http://dsmr.local/api/v1/sm/actual"),
        Some("http://dsmr.local/api/v1/sm/actual".to_string())
    );
}

#[test]
fn scheme_host_port_and_query_of_the_base_stay() {
    assert_eq!(
        upstream_url("https://user@Logger.Example:8443/old?x=1#top"),
        Some("https://user@logger.example:8443/api/v1/sm/actual?x=1#top".to_string())
    );
}

#[test]
fn text_that_is_no_absolute_url_is_refused() {
    assert_eq!(upstream_url(""), None);
    assert_eq!(upstream_url("dsmr.local"), None);
    assert_eq!(upstream_url("/api/v1"), None);
    assert_eq!(upstream_url("http://"), None);
}

#[test]
fn base_at_the_length_limit_is_used() {
    let head = "http://h/";
    let base = format!("{}{}", head, "a".repeat(MAX_BASE_URL_BYTES - head.len()));
    assert_eq!(base.len(), MAX_BASE_URL_BYTES);
    assert_eq!(upstream_url(&base), Some("http://h/api/v1/sm/actual".to_string()));
}

#[test]
fn base_over_the_length_limit_is_refused() {
    let head = "http://h/";
    let base = format!("{}{}", head, "a".repeat(MAX_BASE_URL_BYTES - head.len() + 1));
    assert_eq!(base.len(), MAX_BASE_URL_BYTES + 1);
    assert_eq!(upstream_url(&base), None);
}
