//! Where the state of a pool is reported to.

use reqwest::Url;
use std::str::FromStr;
use vstd::prelude::*;

verus! {

/// What `reqwest::Url` makes of a text: the URL in its normal form, if the text is one.
pub uninterp spec fn parsed_url(text: Seq<char>) -> Option<Seq<char>>;

/// `Url::from_str` parses a text into a URL, which is then given as a text in its normal form. The
/// form depends on the text alone. Nothing is said of what the form is, or of which texts are URLs.
#[verifier::external_body]
fn parse_url(text: &str) -> (url: Option<String>)
    ensures
        url is Some <==> parsed_url(text@) is Some,
        url matches Some(form) ==> parsed_url(text@) == Some(form@),
{
    match Url::from_str(text) {
        Ok(url) => Some(String::from(url)),
        Err(_) => None,
    }
}

/// The address that a setting stands for; the local machine where there is no setting.
pub open spec fn server_address(configured: Option<String>) -> Seq<char> {
    match configured {
        Some(address) => address@,
        None => "http://127.0.0.1:5000"@,
    }
}

/// A configured address is taken as it is, whatever it holds, and the local machine stands in only
/// where none is configured.
pub proof fn law_configured_address_is_taken(configured: Option<String>)
    ensures
        configured matches Some(address) ==> server_address(configured) == address@,
        configured is None ==> server_address(configured) == "http://127.0.0.1:5000"@,
{
}

/// The address of the server that pools report to: the configured one, or the local machine.
pub fn get_observability_server_address(configured: Option<String>) -> (address: String)
    ensures
        address@ == server_address(configured),
        configured matches Some(given) ==> address@ == given@,
        configured is None ==> address@ == "http://127.0.0.1:5000"@,
{
    match configured {
        Some(address) => address,
        None => "http://127.0.0.1:5000".to_string(),
    }
}

/// The URL of an endpoint of the server that pools report to, in its normal form, or nothing if
/// address and endpoint together are no URL.
pub fn build_url_from_str(configured: Option<String>, endpoint: &str) -> (url: Option<String>)
    ensures
        url is Some <==> parsed_url(server_address(configured) + endpoint@) is Some,
        url matches Some(form) ==> parsed_url(server_address(configured) + endpoint@) == Some(
            form@,
        ),
        configured matches Some(given) ==> (url is Some <==> parsed_url(given@ + endpoint@) is Some)
            && (url matches Some(form) ==> parsed_url(given@ + endpoint@) == Some(form@)),
        configured is None ==> (url is Some <==> parsed_url(
            "http://127.0.0.1:5000"@ + endpoint@,
        ) is Some) && (url matches Some(form) ==> parsed_url("http://127.0.0.1:5000"@ + endpoint@)
            == Some(form@)),
{
    let text: String = get_observability_server_address(configured).concat(endpoint);
    parse_url(text.as_str())
}

} // verus!
