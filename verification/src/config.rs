//! How an instance is set up, and the addresses it hands out.

use vstd::prelude::*;

use crate::cli::Command;
use crate::text;

verus! {

/// What an instance is started with.
#[derive(Debug)]
pub struct Config {
    /// SQLite database file (created on first run).
    pub db: String,
    /// Address to listen on.
    pub listen: String,
    /// Public base URL, used to build the ping URLs handed out to clients.
    pub site_url: String,
    pub command: Option<Command>,
}

/// The base of the ping addresses of a site.
pub open spec fn ping_base_of(site_url: Seq<char>) -> Seq<char> {
    text::trim_end_of(site_url, '/') + "/ping"@
}

/// The address of a badge on a site.
pub open spec fn badge_url_of(site_url: Seq<char>, badge_token: Seq<char>) -> Seq<char> {
    text::trim_end_of(site_url, '/') + "/badge/"@ + badge_token + ".svg"@
}

impl Config {
    /// Base URL for ping endpoints, without a trailing slash.
    pub fn ping_base(&self) -> (r: String)
        ensures
            r@ == ping_base_of(self.site_url@),
    {
        ping_base(self.site_url.as_str())
    }

    /// Public badge URL for a check's badge token.
    pub fn badge_url(&self, badge_token: &str) -> (r: String)
        ensures
            r@ == badge_url_of(self.site_url@, badge_token@),
    {
        badge_url(self.site_url.as_str(), badge_token)
    }
}

/// The base of the ping addresses of a site.
pub fn ping_base(site_url: &str) -> (r: String)
    ensures
        r@ == ping_base_of(site_url@),
{
    let mut r = text::trim_end_char(site_url, '/');
    r.append("/ping");
    r
}

/// The address of a badge on a site.
pub fn badge_url(site_url: &str, badge_token: &str) -> (r: String)
    ensures
        r@ == badge_url_of(site_url@, badge_token@),
{
    let mut r = text::trim_end_char(site_url, '/');
    r.append("/badge/");
    r.append(badge_token);
    r.append(".svg");
    r
}

/// Slashes at the end of the site's address make no difference.
pub proof fn law_trailing_slash_is_dropped(site_url: Seq<char>, badge_token: Seq<char>)
    ensures
        ping_base_of(site_url.push('/')) == ping_base_of(site_url),
        badge_url_of(site_url.push('/'), badge_token) == badge_url_of(site_url, badge_token),
{
    assert(site_url.push('/').drop_last() =~= site_url);
}

/// Addresses for pings and badges are under the site, whatever slashes it ends
/// in.
pub proof fn law_addresses_are_under_the_site(base: Seq<char>, slashes: Seq<char>, token: Seq<char>)
    requires
        base.len() > 0 ==> base.last() != '/',
        forall|i: int| 0 <= i < slashes.len() ==> #[trigger] slashes[i] == '/',
    ensures
        ping_base_of(base + slashes) == base + "/ping"@,
        badge_url_of(base + slashes, token) == base + "/badge/"@ + token + ".svg"@,
    decreases slashes.len(),
{
    let whole = base + slashes;
    if slashes.len() > 0 {
        let fewer = slashes.drop_last();
        assert forall|i: int| 0 <= i < fewer.len() implies #[trigger] fewer[i] == '/' by {
            assert(fewer[i] == slashes[i]);
        }
        law_addresses_are_under_the_site(base, fewer, token);
        assert(whole.last() == slashes.last());
        assert(whole.drop_last() =~= base + fewer);
    } else {
        assert(whole =~= base);
    }
}

} // verus!
