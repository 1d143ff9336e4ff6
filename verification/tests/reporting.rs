//! Where a pool reports to.

use resource_pool::observability::build_url_from_str;
use resource_pool::{get_observability_server_address, ResourcePool};

#[test]
fn address_is_the_configured_one_or_the_local_machine() {
    assert_eq!(get_observability_server_address(None), "http://127.0.0.1:5000");
    let configured = Some("http://example.com:80".to_string());
    assert_eq!(get_observability_server_address(configured), "http://example.com:80");
}

#[test]
fn urls_are_given_in_their_normal_form() {
    let configured = Some("HTTP://Example.COM:80/a/../b".to_string());
    assert_eq!(
        build_url_from_str(configured, "/data set"),
        Some("http://example.com/b/data%20set".to_string())
    );
    assert_eq!(
        build_url_from_str(None, "/data"),
        Some("http://127.0.0.1:5000/data".to_string())
    );
}

#[test]
fn an_address_that_is_no_url_gives_none() {
    assert_eq!(build_url_from_str(Some("nowhere".to_string()), "/data"), None);
    assert_eq!(ResourcePool::new(1).url(Some("127.0.0.1:5000".to_string())), None);
}

#[test]
fn a_pool_has_its_own_endpoint() {
    let pool = ResourcePool::new(1024);
    assert_eq!(pool.url(None), Some("http://127.0.0.1:5000/resource_pool".to_string()));
    assert_eq!(
        pool.url(Some("http://10.0.0.1:8080".to_string())),
        Some("http://10.0.0.1:8080/resource_pool".to_string())
    );
}
