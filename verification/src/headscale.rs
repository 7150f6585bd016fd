//! The mesh control process: its settings, its access key and its configuration file.
use vstd::prelude::*;
use vstd::string::*;

use crate::caddy;
use crate::caddy::join_path;
use crate::supervisor;
use crate::supervisor::backoff_seconds;
use crate::text;
use crate::text::{
    bytes_of, has_char, join3, lower, replace, same, split_on, starts_with, trim, trim_end,
};

verus! {

pub const HEADSCALE_VERSION: &'static str = "0.29.3";

pub const TAILSCALE_VERSION: &'static str = "1.102.3";

pub const DEFAULT_DERP_MAP_URL: &'static str = "https://controlplane.tailscale.com/derpmap/default";

/// The life of an access key: ninety days.
pub const API_KEY_LIFETIME_SECONDS: u64 = 7776000;

/// An access key is replaced this long before its end: fourteen days.
pub const API_KEY_ROTATE_BEFORE_SECONDS: u64 = 1209600;

/// The state of the mesh process as it is shown.
#[derive(Debug, Clone, Copy, PartialEq, Eq, Structural)]
pub enum MeshComponentStatus {
    Normal,
    Starting,
    Abnormal,
    Restricted,
    VersionIncompatible,
}

/// The settings of the mesh process.
#[derive(Debug, Clone)]
pub struct HeadscaleRuntimeConfig {
    pub binary: String,
    pub data_dir: String,
    pub listen_addr: String,
    pub api_url: String,
    pub server_url: String,
    pub oidc_issuer: Option<String>,
    pub dns_base_domain: String,
    pub embedded_derp_enabled: bool,
    pub enabled: bool,
}

/// The environment variables that change the settings of the mesh process.
pub struct HeadscaleEnvironment {
    pub binary: Option<String>,
    pub enabled: Option<String>,
    pub listen_addr: Option<String>,
    pub api_url: Option<String>,
    pub server_url: Option<String>,
    pub oidc_issuer: Option<String>,
    pub dns_base_domain: Option<String>,
    pub embedded_derp_enabled: Option<String>,
}

fn text_or(value: Option<String>, default: &str) -> (r: String)
    ensures
        r@ == caddy::or_default(value, default@),
{
    match value {
        Some(text) => text,
        None => default.to_owned(),
    }
}

/// Whether a text is the word true in letters of either case.
pub open spec fn says_true(value: Seq<char>) -> bool {
    text::lowered(value) == "true"@
}

impl HeadscaleRuntimeConfig {
    /// The settings for a data directory, as the environment changes them: without a word on it,
    /// the process is used where its program is named.
    pub fn from_env(data_dir: &str, vars: HeadscaleEnvironment) -> (r: HeadscaleRuntimeConfig)
        ensures
            r.binary@ == caddy::or_default(vars.binary, "headscale"@),
            r.data_dir@ == data_dir@,
            r.listen_addr@ == caddy::or_default(vars.listen_addr, "127.0.0.1:8281"@),
            r.api_url@ == caddy::or_default(vars.api_url, "http://127.0.0.1:8281"@),
            r.server_url@ == caddy::or_default(vars.server_url, "http://nexo-server:8281"@),
            text::opt(r.oidc_issuer) == text::opt(vars.oidc_issuer),
            r.dns_base_domain@ == caddy::or_default(vars.dns_base_domain, "mesh.nexo.internal"@),
            r.embedded_derp_enabled == (vars.embedded_derp_enabled matches Some(value) && says_true(
                value@,
            )),
            r.enabled == (match vars.enabled {
                Some(value) => says_true(value@),
                None => vars.binary is Some,
            }),
    {
        let enabled: bool = match &vars.enabled {
            Some(value) => same(lower(value.as_str()).as_str(), "true"),
            None => vars.binary.is_some(),
        };
        let embedded: bool = match &vars.embedded_derp_enabled {
            Some(value) => same(lower(value.as_str()).as_str(), "true"),
            None => false,
        };
        HeadscaleRuntimeConfig {
            binary: text_or(vars.binary, "headscale"),
            data_dir: data_dir.to_owned(),
            listen_addr: text_or(vars.listen_addr, "127.0.0.1:8281"),
            api_url: text_or(vars.api_url, "http://127.0.0.1:8281"),
            server_url: text_or(vars.server_url, "http://nexo-server:8281"),
            oidc_issuer: vars.oidc_issuer,
            dns_base_domain: text_or(vars.dns_base_domain, "mesh.nexo.internal"),
            embedded_derp_enabled: embedded,
            enabled,
        }
    }

    /// A file of the mesh process in the data directory.
    pub open spec fn file(self, name: Seq<char>) -> Seq<char> {
        caddy::below(caddy::below(self.data_dir@, "headscale"@), name)
    }

    fn path_of(&self, name: &str) -> (r: String)
        ensures
            r@ == self.file(name@),
    {
        join_path(join_path(self.data_dir.as_str(), "headscale").as_str(), name)
    }

    /// The configuration file.
    pub fn config_path(&self) -> (r: String)
        ensures
            r@ == self.file("config.yaml"@),
    {
        self.path_of("config.yaml")
    }

    /// The file of the access key.
    pub fn secret_path(&self) -> (r: String)
        ensures
            r@ == self.file("nexo-api-key.secret"@),
    {
        self.path_of("nexo-api-key.secret")
    }

    /// The address at which an agent logs in without a public entry: the configured one, or the
    /// one of the interface.
    pub fn internal_server_url(&self, configured: Option<&str>) -> (r: String)
        ensures
            r@ == text::trimmed_end(
                match text::opt_str(configured) {
                    Some(url) => url,
                    None => self.api_url@,
                },
                '/',
            ),
    {
        match configured {
            Some(url) => trim_end(url, '/'),
            None => trim_end(self.api_url.as_str(), '/'),
        }
    }
}

/// The seconds since 1970 by the clock of the system, `std::time::SystemTime::now`; zero where
/// the clock stands before that. Nothing more is said of the time.
#[verifier::external_body]
pub fn unix_now() -> (r: u64) {
    std::time::SystemTime::now()
        .duration_since(std::time::UNIX_EPOCH)
        .map(|duration| duration.as_secs())
        .unwrap_or_default()
}

/// The seconds before the mesh process is started again after a number of failed starts.
pub fn supervisor_backoff(attempt: u32) -> (r: u64)
    ensures
        r == supervisor::backoff(attempt - 1),
{
    if attempt == 0 {
        2
    } else {
        backoff_seconds(attempt - 1)
    }
}

/// The keeper of the access key.
#[derive(Debug, Clone)]
pub struct ApiKeyManager {
    pub binary: String,
    pub secret_path: String,
    pub config_path: String,
}

/// The sum of two unsigned times, held at the end of the range.
pub open spec fn later_unsigned(a: u64, b: u64) -> u64 {
    if a + b > u64::MAX {
        u64::MAX
    } else {
        (a + b) as u64
    }
}

/// What is to be done about the access key.
#[derive(Debug, Clone)]
pub enum KeyPlan {
    /// The stored key stays.
    Keep { api_key: String, expires_at: u64 },
    /// A new key is made.
    Create,
}

/// What is to be done with a new key after its trial.
#[derive(Debug, Clone)]
pub struct KeyOutcome {
    /// The new key is stored and used.
    pub store: bool,
    /// The key that is revoked.
    pub revoke: Option<String>,
}

impl ApiKeyManager {
    /// A keeper that works with a program, a file for the key and a configuration file.
    pub fn with_config(binary: String, secret_path: String, config_path: String) -> (r:
        ApiKeyManager)
        ensures
            r.binary@ == binary@,
            r.secret_path@ == secret_path@,
            r.config_path@ == config_path@,
    {
        ApiKeyManager { binary, secret_path, config_path }
    }

    /// Whether a key that ends at a time is to be replaced now: fourteen days before its end.
    pub open spec fn due(expires_at: u64, now: u64) -> bool {
        expires_at <= later_unsigned(now, API_KEY_ROTATE_BEFORE_SECONDS)
    }

    /// Whether a key that ends at a time is to be replaced now: fourteen days before its end.
    pub fn needs_rotation(expires_at: u64, now: u64) -> (r: bool)
        ensures
            r == Self::due(expires_at, now),
    {
        expires_at <= now.saturating_add(API_KEY_ROTATE_BEFORE_SECONDS)
    }

    /// The end of a key that is made now.
    pub fn key_expiry(now: u64) -> (r: u64)
        ensures
            r == later_unsigned(now, API_KEY_LIFETIME_SECONDS),
    {
        now.saturating_add(API_KEY_LIFETIME_SECONDS)
    }

    /// Whether a text can be a key: one of white space alone is none.
    pub fn usable_key(api_key: &str) -> (r: bool)
        ensures
            r == (text::trimmed(api_key@).len() > 0),
    {
        !trim(api_key).as_str().is_empty()
    }

    /// What is to be done about the stored key, if there is one.
    pub fn plan_rotation(current: &Option<(String, u64)>, now: u64) -> (r: KeyPlan)
        ensures
            match r {
                KeyPlan::Keep { api_key, expires_at } => current matches Some(stored)
                    && api_key@ == stored.0@ && expires_at == stored.1 && !Self::due(stored.1, now),
                KeyPlan::Create => current matches Some(stored) ==> Self::due(stored.1, now),
            },
    {
        if let Some((api_key, expires_at)) = current {
            if !Self::needs_rotation(*expires_at, now) {
                return KeyPlan::Keep { api_key: api_key.clone(), expires_at: *expires_at };
            }
        }
        KeyPlan::Create
    }

    /// What is to be done with a new key: one that the interface accepts replaces the stored one,
    /// which is then revoked; one that it does not accept is revoked itself.
    pub fn settle_rotation(
        created: &str,
        accepted: bool,
        previous: &Option<(String, u64)>,
    ) -> (r: KeyOutcome)
        ensures
            r.store == accepted,
            text::opt(r.revoke) == (if !accepted {
                Some(created@)
            } else {
                match previous {
                    Some(stored) => Some(stored.0@),
                    None => None,
                }
            }),
    {
        if !accepted {
            return KeyOutcome { store: false, revoke: Some(created.to_owned()) };
        }
        KeyOutcome {
            store: true,
            revoke: match previous {
                Some(stored) => Some(stored.0.clone()),
                None => None,
            },
        }
    }
}

/// A key that is made now needs no replacement for seventy-six days, and one from then on.
pub proof fn new_keys_rotate_after_seventy_six_days(now: u64, later: u64)
    requires
        now + API_KEY_LIFETIME_SECONDS <= u64::MAX,
        now <= later,
        later + API_KEY_ROTATE_BEFORE_SECONDS <= u64::MAX,
    ensures
        ApiKeyManager::due(later_unsigned(now, API_KEY_LIFETIME_SECONDS), later) <==> later - now
            >= 76 * 86400,
{
}

/// The text of some bytes; bytes that are no UTF-8 stand for the replacement character.
pub uninterp spec fn lossy_text(bytes: Seq<u8>) -> Seq<char>;

/// `String::from_utf8_lossy`: the text of bytes that are UTF-8.
#[verifier::external_body]
fn from_utf8_lossy(bytes: &[u8]) -> (r: String)
    ensures
        r@ == lossy_text(bytes@),
        vstd::utf8::valid_utf8(bytes@) ==> r@ == vstd::utf8::decode_utf8(bytes@),
{
    String::from_utf8_lossy(bytes).into_owned()
}

/// Whether a line can be a key: not empty, without a space and without a tab.
pub open spec fn key_line(line: Seq<char>) -> bool {
    line.len() > 0 && !line.contains(' ') && !line.contains('\t')
}

/// The last of the first `n` lines that can be a key.
pub open spec fn last_key(lines: Seq<Seq<char>>, n: int) -> Option<Seq<char>>
    decreases n,
{
    if n <= 0 {
        None
    } else if key_line(text::trimmed(lines[n - 1])) {
        Some(text::trimmed(lines[n - 1]))
    } else {
        last_key(lines, n - 1)
    }
}

/// The key in the text that a command printed: its last line without a space or a tab in it.
pub fn secret_line(text: &str) -> (r: Option<String>)
    ensures
        text::opt(r) == last_key(text::split(text@, '\n'), text::split(text@, '\n').len() as int),
{
    let lines: Vec<String> = split_on(text, '\n');
    let ghost all = text::split(text@, '\n');
    let mut n: usize = lines.len();
    assert(all.len() == lines@.len());
    while n > 0
        invariant
            n <= lines@.len(),
            all == text::views(lines@),
            all == text::split(text@, '\n'),
            last_key(all, all.len() as int) == last_key(all, n as int),
        decreases n,
    {
        let line: String = trim(lines[n - 1].as_str());
        assert(all[n - 1] == lines@[n - 1]@);
        if !line.as_str().is_empty() && !has_char(line.as_str(), ' ') && !has_char(
            line.as_str(),
            '\t',
        ) {
            return Some(line);
        }
        n = n - 1;
    }
    None
}

/// The key in what a command printed.
pub fn parse_cli_secret(output: &[u8]) -> (r: Option<String>)
    ensures
        text::opt(r) == ({
            let lines = text::split(lossy_text(output@), '\n');
            last_key(lines, lines.len() as int)
        }),
        vstd::utf8::valid_utf8(output@) ==> text::opt(r) == ({
            let lines = text::split(vstd::utf8::decode_utf8(output@), '\n');
            last_key(lines, lines.len() as int)
        }),
{
    secret_line(from_utf8_lossy(output).as_str())
}

/// A text between single quotes, with each single quote in it doubled.
pub open spec fn quoted(value: Seq<char>) -> Seq<char> {
    "'"@ + text::replaced(value, "'"@, "''"@) + "'"@
}

/// A text between single quotes, with each single quote in it doubled.
pub fn yaml_quote(value: &str) -> (r: String)
    ensures
        r@ == quoted(value@),
{
    join3("'", replace(value, "'", "''").as_str(), "'")
}

/// The relay section of the configuration.
pub open spec fn derp_section(embedded: bool, private_key_path: Seq<char>) -> Seq<char> {
    if embedded {
        "  # 仅供集成测试使用：DERP 通过现有 HTTPS 入口提供，STUN 监听测试网络。\n  server:\n    enabled: true\n    region_id: 900\n    region_code: nexo-integration\n    region_name: Nexo Integration\n    verify_clients: true\n    stun_listen_addr: 0.0.0.0:3478\n    private_key_path: "@
            + quoted(private_key_path)
            + "\n    automatically_add_embedded_derp_region: true\n  urls: []\n  paths: []\n  auto_update_enabled: false"@
    } else {
        "  server:\n    enabled: false\n  # 使用官方默认地图提供 NAT 穿透回退；可达节点优先走 WireGuard 直连。\n  urls:\n    - "@
            + quoted(DEFAULT_DERP_MAP_URL@) + "\n  paths: []\n  auto_update_enabled: true"@
    }
}

/// The relay section of the configuration.
pub fn render_derp_config(embedded_enabled: bool, private_key_path: &str) -> (r: String)
    ensures
        r@ == derp_section(embedded_enabled, private_key_path@),
{
    if embedded_enabled {
        join3(
            "  # 仅供集成测试使用：DERP 通过现有 HTTPS 入口提供，STUN 监听测试网络。\n  server:\n    enabled: true\n    region_id: 900\n    region_code: nexo-integration\n    region_name: Nexo Integration\n    verify_clients: true\n    stun_listen_addr: 0.0.0.0:3478\n    private_key_path: ",
            yaml_quote(private_key_path).as_str(),
            "\n    automatically_add_embedded_derp_region: true\n  urls: []\n  paths: []\n  auto_update_enabled: false",
        )
    } else {
        join3(
            "  server:\n    enabled: false\n  # 使用官方默认地图提供 NAT 穿透回退；可达节点优先走 WireGuard 直连。\n  urls:\n    - ",
            yaml_quote(DEFAULT_DERP_MAP_URL).as_str(),
            "\n  paths: []\n  auto_update_enabled: true",
        )
    }
}

/// The login section of the configuration; none without an issuer.
pub open spec fn oidc_section(issuer: Option<Seq<char>>) -> Seq<char> {
    match issuer {
        Some(issuer) => "oidc:\n  issuer: "@ + quoted(issuer)
            + "\n  client_id: headscale\n  client_secret: \"\"\n  use_expiry_from_token: false\n  scope: [\"openid\", \"profile\"]\n  pkce:\n    enabled: true\n    method: S256\n"@,
        None => Seq::empty(),
    }
}

/// The configuration file: only the loopback proxy is trusted, the policy is kept in the
/// database, and every value is quoted.
pub open spec fn config_document(
    config: HeadscaleRuntimeConfig,
    server_url: Seq<char>,
    issuer: Option<Seq<char>>,
) -> Seq<char> {
    "server_url: "@ + quoted(server_url) + "\nlisten_addr: "@ + quoted(config.listen_addr@)
        + "\nmetrics_listen_addr: 127.0.0.1:9090\n# Caddy 与 Headscale 在同一容器内，只有回环反代可以提交真实客户端 IP。\ntrusted_proxies:\n  - 127.0.0.1/32\n  - ::1/128\nnoise:\n  private_key_path: "@
        + quoted(config.file("noise_private.key"@))
        + "\nprefixes:\n  v4: 100.64.0.0/10\n  v6: fd7a:115c:a1e0::/48\nderp:\n"@ + derp_section(
        config.embedded_derp_enabled,
        config.file("derp_server_private.key"@),
    ) + "\n  update_frequency: 3h\ndatabase:\n  type: sqlite\n  sqlite:\n    path: "@ + quoted(
        config.file("headscale.db"@),
    )
        + "\npolicy:\n  # Headscale 0.29.x 只有 database 模式支持通过官方 API 更新策略。\n  mode: database\nnode:\n  expiry: 0\n"@
        + oidc_section(issuer) + "dns:\n  magic_dns: true\n  base_domain: "@ + quoted(
        config.dns_base_domain@,
    )
        + "\n  override_local_dns: true\n  nameservers:\n    # Headscale 0.29.x 在 override_local_dns 开启时要求至少一个上游 DNS。\n    # MagicDNS 仍负责 mesh.nexo.internal，其他名称交给这些公共解析器。\n    global:\n      - 1.1.1.1\n      - 1.0.0.1\n      - 2606:4700:4700::1111\n      - 2606:4700:4700::1001\n    split: {}\n  search_domains: []\n  extra_records: []\nunix_socket: "@
        + quoted(config.file("headscale.sock"@))
        + "\nunix_socket_permission: \"0600\"\nlog:\n  level: info\n"@
}

impl HeadscaleRuntimeConfig {
    /// The configuration file for a login address and an issuer.
    pub fn render_config(&self, server_url: &str, issuer: Option<&str>) -> (r: String)
        ensures
            r@ == config_document(*self, server_url@, text::opt_str(issuer)),
    {
        let mut r: String = "server_url: ".to_owned();
        r.append(yaml_quote(server_url).as_str());
        r.append("\nlisten_addr: ");
        r.append(yaml_quote(self.listen_addr.as_str()).as_str());
        r.append(
            "\nmetrics_listen_addr: 127.0.0.1:9090\n# Caddy 与 Headscale 在同一容器内，只有回环反代可以提交真实客户端 IP。\ntrusted_proxies:\n  - 127.0.0.1/32\n  - ::1/128\nnoise:\n  private_key_path: ",
        );
        r.append(yaml_quote(self.path_of("noise_private.key").as_str()).as_str());
        r.append("\nprefixes:\n  v4: 100.64.0.0/10\n  v6: fd7a:115c:a1e0::/48\nderp:\n");
        r.append(
            render_derp_config(
                self.embedded_derp_enabled,
                self.path_of("derp_server_private.key").as_str(),
            ).as_str(),
        );
        r.append("\n  update_frequency: 3h\ndatabase:\n  type: sqlite\n  sqlite:\n    path: ");
        r.append(yaml_quote(self.path_of("headscale.db").as_str()).as_str());
        r.append(
            "\npolicy:\n  # Headscale 0.29.x 只有 database 模式支持通过官方 API 更新策略。\n  mode: database\nnode:\n  expiry: 0\n",
        );
        let login: String = match issuer {
            Some(issuer) => join3(
                "oidc:\n  issuer: ",
                yaml_quote(issuer).as_str(),
                "\n  client_id: headscale\n  client_secret: \"\"\n  use_expiry_from_token: false\n  scope: [\"openid\", \"profile\"]\n  pkce:\n    enabled: true\n    method: S256\n",
            ),
            None => String::new(),
        };
        r.append(login.as_str());
        r.append("dns:\n  magic_dns: true\n  base_domain: ");
        r.append(yaml_quote(self.dns_base_domain.as_str()).as_str());
        r.append(
            "\n  override_local_dns: true\n  nameservers:\n    # Headscale 0.29.x 在 override_local_dns 开启时要求至少一个上游 DNS。\n    # MagicDNS 仍负责 mesh.nexo.internal，其他名称交给这些公共解析器。\n    global:\n      - 1.1.1.1\n      - 1.0.0.1\n      - 2606:4700:4700::1111\n      - 2606:4700:4700::1001\n    split: {}\n  search_domains: []\n  extra_records: []\nunix_socket: ",
        );
        r.append(yaml_quote(self.path_of("headscale.sock").as_str()).as_str());
        r.append("\nunix_socket_permission: \"0600\"\nlog:\n  level: info\n");
        r
    }
}

/// Why a new login address is refused.
#[derive(Debug, Clone, Copy, PartialEq, Eq, Structural)]
pub enum ServerUrlError {
    /// It is neither an HTTP nor an HTTPS address.
    NotHttp,
    /// It has no host.
    Empty,
}

/// The login address that a request asks for, if it can be one.
pub open spec fn requested_url(url: Seq<char>) -> Result<Seq<char>, ServerUrlError> {
    let text = text::trimmed_end(url, '/');
    if !(text::has_prefix(text, "https://"@) || text::has_prefix(text, "http://"@)) {
        Err(ServerUrlError::NotHttp)
    } else if text::byte_len(text) <= 8 {
        Err(ServerUrlError::Empty)
    } else {
        Ok(text)
    }
}

/// The new login address of the mesh process: `None` where the request changes nothing.
pub fn change_server_url(current: &str, url: &str) -> (r: Result<Option<String>, ServerUrlError>)
    ensures
        match r {
            Ok(next) => requested_url(url@) matches Ok(text) && text::opt(next) == (if text == current@ {
                None
            } else {
                Some(text)
            }),
            Err(e) => requested_url(url@) == Err::<Seq<char>, _>(e),
        },
{
    let text: String = trim_end(url, '/');
    if !(starts_with(text.as_str(), "https://") || starts_with(text.as_str(), "http://")) {
        return Err(ServerUrlError::NotHttp);
    }
    if bytes_of(text.as_str()) <= 8 {
        return Err(ServerUrlError::Empty);
    }
    if same(text.as_str(), current) {
        Ok(None)
    } else {
        Ok(Some(text))
    }
}

/// What a request for another issuer comes to.
#[derive(Debug, Clone)]
pub enum IssuerChange {
    /// The issuer is set and the configuration is written.
    Replace { issuer: Option<String> },
    /// A fixed issuer stays where none is asked for.
    Keep,
    /// A fixed issuer cannot be replaced.
    Refused { message: String },
}

/// The new issuer of the mesh process. Once there is one, it stays for good.
pub fn change_oidc_issuer(current: Option<&str>, requested: Option<&str>) -> (r: IssuerChange)
    ensures
        match (text::opt_str(current), text::opt_str(requested)) {
            (Some(existing), Some(url)) => {
                let next = text::trimmed_end(url, '/');
                if existing != next {
                    r matches IssuerChange::Refused { message } && message@
                        == "Headscale OIDC issuer 已固定为 "@ + existing + "，不能改为 "@ + next
                } else {
                    r matches IssuerChange::Replace { issuer } && text::opt(issuer) == Some(next)
                }
            },
            (Some(_), None) => r is Keep,
            (None, Some(url)) => r matches IssuerChange::Replace { issuer } && text::opt(issuer) == Some(
                text::trimmed_end(url, '/'),
            ),
            (None, None) => r matches IssuerChange::Replace { issuer } && issuer is None,
        },
{
    match (current, requested) {
        (Some(existing), Some(url)) => {
            let next: String = trim_end(url, '/');
            if !same(existing, next.as_str()) {
                let mut message: String = "Headscale OIDC issuer 已固定为 ".to_owned();
                message.append(existing);
                message.append("，不能改为 ");
                message.append(next.as_str());
                IssuerChange::Refused { message }
            } else {
                IssuerChange::Replace { issuer: Some(next) }
            }
        },
        (Some(_), None) => IssuerChange::Keep,
        (None, Some(url)) => IssuerChange::Replace { issuer: Some(trim_end(url, '/')) },
        (None, None) => IssuerChange::Replace { issuer: None },
    }
}

/// A key is replaced once fourteen days of it are left, and not before; a new one lasts ninety.
pub proof fn keys_are_replaced_in_their_last_two_weeks(expires_at: u64, now: u64)
    requires
        now + 7776000 <= u64::MAX,
    ensures
        ApiKeyManager::due(expires_at, now) <==> expires_at <= now + 1209600,
        later_unsigned(now, API_KEY_LIFETIME_SECONDS) == now + 7776000,
{
}

proof fn lemma_last_key(lines: Seq<Seq<char>>, n: int)
    requires
        0 <= n <= lines.len(),
    ensures
        last_key(lines, n) is Some ==> exists|k: int|
            0 <= k < n && text::trimmed(#[trigger] lines[k]) == last_key(lines, n)->0 && key_line(
                last_key(lines, n)->0,
            ) && forall|j: int| k < j < n ==> !key_line(text::trimmed(#[trigger] lines[j])),
        last_key(lines, n) is None ==> forall|j: int|
            0 <= j < n ==> !key_line(text::trimmed(#[trigger] lines[j])),
    decreases n,
{
    if n > 0 && !key_line(text::trimmed(lines[n - 1])) {
        lemma_last_key(lines, n - 1);
        if last_key(lines, n) is Some {
            let k = choose|k: int|
                0 <= k < n - 1 && text::trimmed(#[trigger] lines[k]) == last_key(lines, n - 1)->0
                    && key_line(last_key(lines, n - 1)->0) && forall|j: int|
                    k < j < n - 1 ==> !key_line(text::trimmed(#[trigger] lines[j]));
            assert(text::trimmed(lines[k]) == last_key(lines, n)->0);
        }
    }
}

/// The key in an output is its last line of a single word; where there is none, there is no key.
pub proof fn keys_are_the_last_single_word(lines: Seq<Seq<char>>)
    ensures
        ({
            let n = lines.len() as int;
            &&& last_key(lines, n) is Some ==> exists|k: int|
                0 <= k < n && text::trimmed(#[trigger] lines[k]) == last_key(lines, n)->0
                    && forall|j: int|
                    k < j < n ==> text::trimmed(#[trigger] lines[j]).len() == 0 || text::trimmed(
                        lines[j],
                    ).contains(' ') || text::trimmed(lines[j]).contains('\t')
            &&& last_key(lines, n) is Some ==> last_key(lines, n)->0.len() > 0 && !last_key(
                lines,
                n,
            )->0.contains(' ') && !last_key(lines, n)->0.contains('\t')
            &&& last_key(lines, n) is None ==> forall|j: int|
                0 <= j < n ==> text::trimmed(#[trigger] lines[j]).len() == 0 || text::trimmed(
                    lines[j],
                ).contains(' ') || text::trimmed(lines[j]).contains('\t')
        }),
{
    let n = lines.len() as int;
    lemma_last_key(lines, n);
    if last_key(lines, n) is Some {
        let k = choose|k: int|
            0 <= k < n && text::trimmed(#[trigger] lines[k]) == last_key(lines, n)->0 && key_line(
                last_key(lines, n)->0,
            ) && forall|j: int| k < j < n ==> !key_line(text::trimmed(#[trigger] lines[j]));
        assert(text::trimmed(lines[k]) == last_key(lines, n)->0);
    }
}

/// A value stands between single quotes, as it is where it holds none.
pub proof fn values_stand_between_quotes(value: Seq<char>)
    ensures
        quoted(value).len() >= 2,
        quoted(value)[0] == '\'',
        quoted(value).last() == '\'',
        !value.contains('\'') ==> quoted(value) == "'"@ + value + "'"@,
{
    reveal_strlit("'");
    if !value.contains('\'') {
        lemma_unquoted(value);
    }
}

proof fn lemma_unquoted(value: Seq<char>)
    requires
        !value.contains('\''),
    ensures
        text::replaced(value, "'"@, "''"@) == value,
    decreases value.len(),
{
    reveal_strlit("'");
    if value.len() > 0 {
        let rest = value.drop_first();
        if text::has_prefix(value, "'"@) {
            assert(value.take(1)[0] == '\'');
            assert(value[0] == '\'');
        }
        assert forall|i: int| 0 <= i < rest.len() implies rest[i] != '\'' by {
            assert(value[i + 1] == rest[i]);
        }
        lemma_unquoted(rest);
        assert(seq![value[0]] + rest =~= value);
    }
}

proof fn lemma_ends_with(s: Seq<char>, part: Seq<char>)
    ensures
        text::contains(s + part, part),
{
    assert((s + part).subrange(s.len() as int, (s.len() + part.len()) as int) =~= part);
    assert(text::occurs_at(s + part, part, s.len() as int));
}

proof fn lemma_still_holds(s: Seq<char>, tail: Seq<char>, part: Seq<char>)
    requires
        text::contains(s, part),
    ensures
        text::contains(s + tail, part),
{
    let i = choose|i: int| text::occurs_at(s, part, i);
    assert((s + tail).subrange(i, i + part.len()) =~= s.subrange(i, i + part.len()));
    assert(text::occurs_at(s + tail, part, i));
}

/// The configuration of sign-in names the issuer, where there is one, and is left out otherwise.
pub proof fn sign_in_names_its_issuer(issuer: Seq<char>)
    ensures
        text::contains(oidc_section(Some(issuer)), "oidc:\n  issuer: "@ + quoted(issuer)),
        oidc_section(None).len() == 0,
{
    let head = "oidc:\n  issuer: "@ + quoted(issuer);
    lemma_ends_with(Seq::empty(), head);
    assert(Seq::<char>::empty() + head =~= head);
    lemma_still_holds(
        head,
        "\n  client_id: headscale\n  client_secret: \"\"\n  use_expiry_from_token: false\n  scope: [\"openid\", \"profile\"]\n  pkce:\n    enabled: true\n    method: S256\n"@,
        head,
    );
}

/// A relay of its own is configured with its key; without one the public map is named.
pub proof fn relays_are_configured_as_asked(private_key_path: Seq<char>)
    ensures
        text::contains(derp_section(true, private_key_path), quoted(private_key_path)),
        text::contains(
            derp_section(false, private_key_path),
            quoted("https://controlplane.tailscale.com/derpmap/default"@),
        ),
        text::has_suffix(derp_section(true, private_key_path), "auto_update_enabled: false"@),
        text::has_suffix(derp_section(false, private_key_path), "auto_update_enabled: true"@),
{
    let own = "  # 仅供集成测试使用：DERP 通过现有 HTTPS 入口提供，STUN 监听测试网络。\n  server:\n    enabled: true\n    region_id: 900\n    region_code: nexo-integration\n    region_name: Nexo Integration\n    verify_clients: true\n    stun_listen_addr: 0.0.0.0:3478\n    private_key_path: "@;
    let own_end = "\n    automatically_add_embedded_derp_region: true\n  urls: []\n  paths: []\n  auto_update_enabled: false"@;
    lemma_ends_with(own, quoted(private_key_path));
    lemma_still_holds(own + quoted(private_key_path), own_end, quoted(private_key_path));
    let map = quoted(DEFAULT_DERP_MAP_URL@);
    let public = "  server:\n    enabled: false\n  # 使用官方默认地图提供 NAT 穿透回退；可达节点优先走 WireGuard 直连。\n  urls:\n    - "@;
    let public_end = "\n  paths: []\n  auto_update_enabled: true"@;
    lemma_ends_with(public, map);
    lemma_still_holds(public + map, public_end, map);
    reveal_strlit(
        "\n    automatically_add_embedded_derp_region: true\n  urls: []\n  paths: []\n  auto_update_enabled: false",
    );
    reveal_strlit("\n  paths: []\n  auto_update_enabled: true");
    reveal_strlit("auto_update_enabled: false");
    reveal_strlit("auto_update_enabled: true");
    let first = own + quoted(private_key_path) + own_end;
    assert(first.skip(first.len() - 26) =~= own_end.skip(own_end.len() - 26));
    assert(own_end.skip(own_end.len() - 26) =~= "auto_update_enabled: false"@);
    let second = public + map + public_end;
    assert(second.skip(second.len() - 25) =~= public_end.skip(public_end.len() - 25));
    assert(public_end.skip(public_end.len() - 25) =~= "auto_update_enabled: true"@);
}

/// A server address is one over HTTP or HTTPS with a host, and is taken without the slashes at its end.
pub proof fn server_addresses_are_sites(url: Seq<char>)
    ensures
        requested_url(url) is Ok ==> requested_url(url)->Ok_0 == text::trimmed_end(url, '/') && (
        requested_url(url)->Ok_0.take(7) == "http://"@ || requested_url(url)->Ok_0.take(8)
            == "https://"@),
        requested_url(url) is Ok <==> ((text::has_prefix(text::trimmed_end(url, '/'), "https://"@)
            || text::has_prefix(text::trimmed_end(url, '/'), "http://"@)) && text::byte_len(
            text::trimmed_end(url, '/'),
        ) > 8),
{
    reveal_strlit("http://");
    reveal_strlit("https://");
}

/// A new key is used and stored once it was accepted, and the old one is revoked; one that was not
/// accepted is revoked itself.
pub proof fn keys_are_replaced_once_accepted(
    created: &str,
    accepted: bool,
    previous: &Option<(String, u64)>,
    r: KeyOutcome,
)
    requires
        call_ensures(ApiKeyManager::settle_rotation, (created, accepted, previous), r),
    ensures
        r.store == accepted,
        !accepted ==> text::opt(r.revoke) == Some(created@),
        accepted && previous is None ==> r.revoke is None,
        accepted ==> (previous matches Some(stored) ==> text::opt(r.revoke) == Some(stored.0@)),
{
}

/// A stored key stays while it lasts long enough; without one, or otherwise, a new one is made.
pub proof fn keys_stay_while_they_last(
    current: &Option<(String, u64)>,
    now: u64,
    r: KeyPlan,
)
    requires
        call_ensures(ApiKeyManager::plan_rotation, (current, now), r),
    ensures
        *current is None ==> r is Create,
        (*current matches Some(stored) ==> (r is Create <==> ApiKeyManager::due(stored.1, now))),
        (r matches KeyPlan::Keep { api_key, expires_at } ==> *current matches Some(stored)
            && api_key@ == stored.0@ && expires_at == stored.1),
{
}

/// An issuer that is set stays: another one is refused, and none asked for leaves it.
pub proof fn issuers_stay_fixed(current: Option<&str>, requested: Option<&str>, r: IssuerChange)
    requires
        call_ensures(change_oidc_issuer, (current, requested), r),
    ensures
        current is Some && requested is None ==> r is Keep,
        current is Some && requested is Some && current->0@ != text::trimmed_end(
            requested->0@,
            '/',
        ) ==> r is Refused,
        current is None && requested is Some ==> (r matches IssuerChange::Replace { issuer }
            && text::opt(issuer) == Some(text::trimmed_end(requested->0@, '/'))),
        current is Some && requested is Some && current->0@ == text::trimmed_end(
            requested->0@,
            '/',
        ) ==> (r matches IssuerChange::Replace { issuer } && text::opt(issuer) == Some(
            current->0@,
        )),
{
}

} // verus!
