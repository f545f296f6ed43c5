//! Runtime configuration, from settings given in the environment, with
//! defaults for those that are absent.

use vstd::prelude::*;

use crate::text::opt_string_view;

verus! {

/// Application configuration shared across request handlers.
#[derive(Clone, Debug)]
pub struct AppConfig {
    /// Address the HTTP server binds to, e.g. `127.0.0.1:8080`.
    pub bind_address: String,
    /// Directory where downloads are temporarily written.
    pub download_dir: String,
}

/// `value`, or `default` when it is absent.
pub open spec fn or_default(value: Option<Seq<char>>, default: Seq<char>) -> Seq<char> {
    match value {
        Some(v) => v,
        None => default,
    }
}

/// The bind address for the given host and port settings.
pub open spec fn spec_bind_address(host: Option<Seq<char>>, port: Option<Seq<char>>) -> Seq<char> {
    or_default(host, "127.0.0.1"@) + ":"@ + or_default(port, "8080"@)
}

/// The download directory for the given setting.
pub open spec fn spec_download_dir(dir: Option<Seq<char>>) -> Seq<char> {
    or_default(dir, "./downloads"@)
}

/// `value`, or an owned copy of `default`.
fn value_or(value: Option<String>, default: &str) -> (res: String)
    ensures
        res@ == or_default(opt_string_view(value), default@),
{
    match value {
        Some(v) => v,
        None => String::from_str(default),
    }
}

impl AppConfig {
    /// Build the configuration from the settings `UDOWN_HOST` (default
    /// `127.0.0.1`), `UDOWN_PORT` (default `8080`) and `UDOWN_DOWNLOAD_DIR`
    /// (default `./downloads`), each `None` when unset.
    pub fn from_settings(host: Option<String>, port: Option<String>, download_dir: Option<String>) -> (res: Self)
        ensures
            res.bind_address@ == spec_bind_address(opt_string_view(host), opt_string_view(port)),
            res.download_dir@ == spec_download_dir(opt_string_view(download_dir)),
    {
        let port = value_or(port, "8080");
        let mut bind_address = value_or(host, "127.0.0.1");
        bind_address.append(":");
        bind_address.append(port.as_str());
        AppConfig { bind_address, download_dir: value_or(download_dir, "./downloads") }
    }
}

impl Default for AppConfig {
    fn default() -> (res: Self)
        ensures
            res.bind_address@ == "127.0.0.1:8080"@,
            res.download_dir@ == "./downloads"@,
    {
        AppConfig {
            bind_address: String::from_str("127.0.0.1:8080"),
            download_dir: String::from_str("./downloads"),
        }
    }
}

/// With no settings given, the configuration is the default one.
pub proof fn lemma_unset_settings_give_defaults()
    ensures
        spec_bind_address(None, None) == "127.0.0.1:8080"@,
        spec_download_dir(None) == "./downloads"@,
{
    reveal_strlit("127.0.0.1");
    reveal_strlit(":");
    reveal_strlit("8080");
    reveal_strlit("127.0.0.1:8080");
    assert(spec_bind_address(None, None) =~= "127.0.0.1:8080"@);
}

} // verus!
