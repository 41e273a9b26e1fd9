//! Server and render settings with the defaults that a missing setting takes.
use vstd::prelude::*;
use crate::text::owned;

verus! {

/// The whole configuration: server settings and render settings.
pub struct Config {
    pub server: ServerConfig,
    pub render: RenderConfig,
}

/// Where the server listens, where uploads go, and the token for song
/// recognition (empty when none is set).
pub struct ServerConfig {
    pub bind: String,
    pub uploads_dir: String,
    pub audd_token: String,
}

/// Encoder settings: whether to use the NVIDIA encoder, and its quality level.
pub struct RenderConfig {
    pub nvidia: bool,
    pub cq: u8,
}

/// The address the server binds to when none is configured.
pub fn default_bind() -> (r: String)
    ensures
        r@ == "127.0.0.1:7979"@,
{
    owned("127.0.0.1:7979")
}

/// The directory uploads go to when none is configured.
pub fn default_uploads_dir() -> (r: String)
    ensures
        r@ == "uploads"@,
{
    owned("uploads")
}

/// The value that a flag marked "defaults to true" takes.
pub fn default_true() -> (r: bool)
    ensures
        r,
{
    true
}

/// The encoder quality level when none is configured.
pub fn default_cq() -> (r: u8)
    ensures
        r == 18,
{
    18
}

impl Default for ServerConfig {
    fn default() -> (r: Self)
        ensures
            r.bind@ == "127.0.0.1:7979"@,
            r.uploads_dir@ == "uploads"@,
            r.audd_token@ == Seq::<char>::empty(),
    {
        ServerConfig { bind: default_bind(), uploads_dir: default_uploads_dir(), audd_token: String::new() }
    }
}

impl Default for RenderConfig {
    fn default() -> (r: Self)
        ensures
            r.nvidia,
            r.cq == 18,
    {
        RenderConfig { nvidia: true, cq: default_cq() }
    }
}

impl Default for Config {
    fn default() -> (r: Self)
        ensures
            r.server.bind@ == "127.0.0.1:7979"@,
            r.server.uploads_dir@ == "uploads"@,
            r.server.audd_token@ == Seq::<char>::empty(),
            r.render.nvidia,
            r.render.cq == 18,
    {
        Config { server: ServerConfig::default(), render: RenderConfig::default() }
    }
}

/// The message given when song recognition is asked for without a token.
pub open spec fn missing_token_message() -> Seq<char> {
    "No audd_token set in config.toml \u{2014} add audd_token = \"your-token\" under [server]"@
}

impl ServerConfig {
    /// The recognition token, or the message that says how to set one when it
    /// is empty.
    pub fn require_audd_token(&self) -> (r: Result<String, String>)
        ensures
            self.audd_token@.len() == 0 ==> (r matches Err(m) && m@ == missing_token_message()),
            self.audd_token@.len() > 0 ==> (r matches Ok(t) && t@ == self.audd_token@),
    {
        if self.audd_token.as_str().is_empty() {
            Err(owned("No audd_token set in config.toml \u{2014} add audd_token = \"your-token\" under [server]"))
        } else {
            Ok(self.audd_token.clone())
        }
    }
}

} // verus!
