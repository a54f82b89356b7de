//! The configuration: its parts and defaults, where it is read from, and how
//! the environment and the command line override it.
use vstd::prelude::*;
use crate::text::{
    after_prefix, decimal, has_char, nat_to_string, opt_str, opt_text, parse_nat, parsed_nat,
    push_text, rsplit_once, same, split_last, starts, starts_with, strip_prefix, text_or,
    texts_are_parted_at_the_last,
};

verus! {

broadcast use vstd::string::group_string_axioms;

/// The whole configuration.
#[derive(Debug)]
pub struct Config {
    pub server: ServerConfig,
    pub tmux: TmuxConfig,
    pub logging: LoggingConfig,
    pub share: String,
    pub providers: ProvidersConfig,
    pub tools: ToolsConfig,
}

/// Where the daemon listens.
#[derive(Debug)]
pub struct ServerConfig {
    pub hostname: String,
    pub port: u16,
}

/// How terminal sessions are named and joined.
#[derive(Debug)]
pub struct TmuxConfig {
    pub session_prefix: String,
    pub attach_on_start: bool,
}

/// Where logs are kept, and for how long.
#[derive(Debug)]
pub struct LoggingConfig {
    pub dir: String,
    pub retention_days: u32,
}

/// The model providers: a default one, named ones, and short names for models.
#[derive(Debug)]
pub struct ProvidersConfig {
    pub openai_compat: Option<OpenAICompatConfig>,
    pub openai_compat_profiles: Vec<(String, OpenAICompatConfig)>,
    pub model_aliases: Vec<(String, ModelAlias)>,
}

/// A provider with an OpenAI-compatible interface.
#[derive(Debug)]
pub struct OpenAICompatConfig {
    pub base_url: String,
    pub api_key: String,
    pub api_key_env: Option<String>,
    pub model: String,
    pub completions_path: String,
}

/// What a short name for a model stands for.
#[derive(Debug)]
pub struct ModelAlias {
    pub provider: String,
    pub model: String,
}

/// Which tools may run: a default, and what holds for single tools.
#[derive(Debug)]
pub struct ToolsConfig {
    pub default_policy: String,
    pub policies: Vec<(String, String)>,
}

/// What an `OpenAICompatConfig` holds.
pub struct ProviderView {
    pub base_url: Seq<char>,
    pub api_key: Seq<char>,
    pub api_key_env: Option<Seq<char>>,
    pub model: Seq<char>,
    pub completions_path: Seq<char>,
}

impl View for OpenAICompatConfig {
    type V = ProviderView;

    open spec fn view(&self) -> ProviderView {
        ProviderView {
            base_url: self.base_url@,
            api_key: self.api_key@,
            api_key_env: opt_text(self.api_key_env),
            model: self.model@,
            completions_path: self.completions_path@,
        }
    }
}

/// What a provider holds, where there is one.
pub open spec fn opt_provider(p: Option<OpenAICompatConfig>) -> Option<ProviderView> {
    match p {
        Some(v) => Some(v@),
        None => None,
    }
}

// ---------------------------------------------------------------------------
// Defaults
// ---------------------------------------------------------------------------

/// A provider that nothing is known of but a model and a path.
pub open spec fn default_provider() -> ProviderView {
    ProviderView {
        base_url: Seq::empty(),
        api_key: Seq::empty(),
        api_key_env: None,
        model: "glm-4.7"@,
        completions_path: "/completions"@,
    }
}

impl Default for ServerConfig {
    fn default() -> (r: Self)
        ensures
            r.hostname@ == "127.0.0.1"@,
            r.port == 4096,
    {
        ServerConfig { hostname: "127.0.0.1".to_string(), port: 4096 }
    }
}

impl Default for TmuxConfig {
    fn default() -> (r: Self)
        ensures
            r.session_prefix@ == "aish"@,
            r.attach_on_start,
    {
        TmuxConfig { session_prefix: "aish".to_string(), attach_on_start: true }
    }
}

impl Default for LoggingConfig {
    fn default() -> (r: Self)
        ensures
            r.dir@ == "~/.local/share/aish/logs"@,
            r.retention_days == 30,
    {
        LoggingConfig { dir: "~/.local/share/aish/logs".to_string(), retention_days: 30 }
    }
}

impl Default for ProvidersConfig {
    fn default() -> (r: Self)
        ensures
            r.openai_compat is None,
            r.openai_compat_profiles@.len() == 0,
            r.model_aliases@.len() == 0,
    {
        ProvidersConfig {
            openai_compat: None,
            openai_compat_profiles: Vec::new(),
            model_aliases: Vec::new(),
        }
    }
}

impl Default for OpenAICompatConfig {
    fn default() -> (r: Self)
        ensures
            r@ == default_provider(),
    {
        let r = OpenAICompatConfig {
            base_url: String::new(),
            api_key: String::new(),
            api_key_env: None,
            model: "glm-4.7".to_string(),
            completions_path: "/completions".to_string(),
        };
        assert(r.base_url@ =~= Seq::empty());
        assert(r.api_key@ =~= Seq::empty());
        r
    }
}

impl Default for ToolsConfig {
    fn default() -> (r: Self)
        ensures
            r.default_policy@ == "ask"@,
            r.policies@.len() == 0,
    {
        ToolsConfig { default_policy: "ask".to_string(), policies: Vec::new() }
    }
}

impl Default for Config {
    fn default() -> (r: Self)
        ensures
            r.server.hostname@ == "127.0.0.1"@,
            r.server.port == 4096,
            r.tmux.session_prefix@ == "aish"@,
            r.tmux.attach_on_start,
            r.logging.dir@ == "~/.local/share/aish/logs"@,
            r.logging.retention_days == 30,
            r.share@ == "manual"@,
            r.providers.openai_compat is None,
            r.providers.openai_compat_profiles@.len() == 0,
            r.providers.model_aliases@.len() == 0,
            r.tools.default_policy@ == "ask"@,
            r.tools.policies@.len() == 0,
    {
        Config {
            server: ServerConfig::default(),
            tmux: TmuxConfig::default(),
            logging: LoggingConfig::default(),
            share: "manual".to_string(),
            providers: ProvidersConfig::default(),
            tools: ToolsConfig::default(),
        }
    }
}

// ---------------------------------------------------------------------------
// Where the configuration is read from
// ---------------------------------------------------------------------------

/// A path below a directory; a path from the root stands for itself.
pub open spec fn path_below(dir: Seq<char>, rest: Seq<char>) -> Seq<char> {
    if starts(rest, "/"@) || dir.len() == 0 {
        rest
    } else if dir.last() == '/' {
        dir + rest
    } else {
        dir + "/"@ + rest
    }
}

/// A path below a directory.
pub fn join_path(dir: &str, rest: &str) -> (r: String)
    ensures
        r@ == path_below(dir@, rest@),
{
    let n: usize = dir.unicode_len();
    if n == 0 || starts_with(rest, "/") {
        return rest.to_string();
    }
    let mut out = dir.to_string();
    if dir.get_char(n - 1) != '/' {
        push_text(&mut out, "/");
    }
    push_text(&mut out, rest);
    out
}

/// A path with `~` at its start replaced by the home directory, if that is
/// known.
pub open spec fn expanded(path: Seq<char>, home: Option<Seq<char>>) -> Seq<char> {
    match home {
        None => path,
        Some(h) => if path == "~"@ {
            h
        } else {
            match after_prefix(path, "~/"@) {
                Some(rest) => path_below(h, rest),
                None => path,
            }
        },
    }
}

/// The path with `~` at its start replaced by the home directory.
pub fn resolve_path(path: &str, home: Option<&str>) -> (r: String)
    ensures
        r@ == expanded(path@, opt_str(home)),
{
    if let Some(h) = home {
        if same(path, "~") {
            return h.to_string();
        }
        if let Some(rest) = strip_prefix(path, "~/") {
            return join_path(h, rest.as_str());
        }
    }
    path.to_string()
}

/// Where the configuration stands below a home directory.
pub open spec fn home_config(home: Seq<char>) -> Seq<char> {
    path_below(home, ".config/aish/aish.json"@)
}

/// Where the configuration stands if the home directory is known.
pub fn default_config_path(home: Option<&str>) -> (r: Option<String>)
    ensures
        opt_text(r) == match opt_str(home) {
            Some(h) => Some(home_config(h)),
            None => None,
        },
{
    match home {
        Some(h) => Some(join_path(h, ".config/aish/aish.json")),
        None => None,
    }
}

/// The file to read: the one asked for if it exists, else the one in the home
/// directory if that exists; none means the defaults.
pub open spec fn config_file(
    path: Seq<char>,
    home: Option<Seq<char>>,
    path_exists: bool,
    default_exists: bool,
) -> Option<Seq<char>> {
    let asked = expanded(path, home);
    if path_exists {
        Some(asked)
    } else {
        match home {
            Some(h) => if home_config(h) != asked && default_exists {
                Some(home_config(h))
            } else {
                None
            },
            None => None,
        }
    }
}

/// The file to read, given whether the file asked for exists, its `~` replaced,
/// and whether the one in the home directory does; none means the defaults.
pub fn load(path: &str, home: Option<&str>, path_exists: bool, default_exists: bool) -> (r: Option<
    String,
>)
    ensures
        opt_text(r) == config_file(path@, opt_str(home), path_exists, default_exists),
{
    let asked = resolve_path(path, home);
    if path_exists {
        return Some(asked);
    }
    match default_config_path(home) {
        Some(d) => if !same(d.as_str(), asked.as_str()) && default_exists {
            Some(d)
        } else {
            None
        },
        None => None,
    }
}

// ---------------------------------------------------------------------------
// Overrides
// ---------------------------------------------------------------------------

/// What the environment says of the default provider.
#[derive(Debug)]
pub struct EnvOverrides {
    pub base_url: Option<String>,
    pub api_key: Option<String>,
    pub zai_api_key: Option<String>,
    pub model: Option<String>,
    pub completions_path: Option<String>,
}

/// The key that the environment gives: the one for this program unless it is
/// empty, else the one of the default service.
pub open spec fn env_key(env: EnvOverrides) -> Option<Seq<char>> {
    match opt_text(env.api_key) {
        Some(k) => if k.len() > 0 {
            Some(k)
        } else {
            opt_text(env.zai_api_key)
        },
        None => opt_text(env.zai_api_key),
    }
}

/// The default provider under the environment: untouched where it says
/// nothing, else with each value that it gives.
pub open spec fn overridden(p: Option<ProviderView>, env: EnvOverrides) -> Option<ProviderView> {
    let key = env_key(env);
    if env.base_url is None && key is None && env.model is None && env.completions_path is None {
        p
    } else {
        let base = match p {
            Some(v) => v,
            None => default_provider(),
        };
        Some(
            ProviderView {
                base_url: text_or(opt_text(env.base_url), base.base_url),
                api_key: text_or(key, base.api_key),
                api_key_env: base.api_key_env,
                model: text_or(opt_text(env.model), base.model),
                completions_path: text_or(opt_text(env.completions_path), base.completions_path),
            },
        )
    }
}

/// Lets the environment override the default provider.
pub fn apply_env_overrides(cfg: &mut Config, env: EnvOverrides)
    ensures
        opt_provider(final(cfg).providers.openai_compat) == overridden(
            opt_provider(old(cfg).providers.openai_compat),
            env,
        ),
        final(cfg).providers.openai_compat_profiles == old(cfg).providers.openai_compat_profiles,
        final(cfg).providers.model_aliases == old(cfg).providers.model_aliases,
        final(cfg).server == old(cfg).server,
        final(cfg).tmux == old(cfg).tmux,
        final(cfg).logging == old(cfg).logging,
        final(cfg).share == old(cfg).share,
        final(cfg).tools == old(cfg).tools,
{
    let own_key = match &env.api_key {
        Some(k) => !k.as_str().is_empty(),
        None => false,
    };
    let key = if own_key {
        &env.api_key
    } else {
        &env.zai_api_key
    };
    if env.base_url.is_none() && key.is_none() && env.model.is_none()
        && env.completions_path.is_none() {
        return;
    }
    let mut provider = match cfg.providers.openai_compat.take() {
        Some(p) => p,
        None => OpenAICompatConfig::default(),
    };
    if let Some(value) = &env.base_url {
        provider.base_url = value.clone();
    }
    if let Some(value) = key {
        provider.api_key = value.clone();
    }
    if let Some(value) = &env.model {
        provider.model = value.clone();
    }
    if let Some(value) = &env.completions_path {
        provider.completions_path = value.clone();
    }
    cfg.providers.openai_compat = Some(provider);
}

/// Values in the environment win over the configuration, and the key of this
/// program over that of the default service unless it is empty.
pub proof fn environment_wins(p: Option<ProviderView>, env: EnvOverrides)
    ensures
        env.base_url is Some ==> overridden(p, env)->Some_0.base_url == env.base_url->Some_0@,
        env.model is Some ==> overridden(p, env)->Some_0.model == env.model->Some_0@,
        env.completions_path is Some ==> overridden(p, env)->Some_0.completions_path
            == env.completions_path->Some_0@,
        env.api_key is Some && env.api_key->Some_0@.len() > 0 ==> overridden(
            p,
            env,
        )->Some_0.api_key == env.api_key->Some_0@,
        (env.api_key is None || env.api_key->Some_0@.len() == 0) && env.zai_api_key is Some
            ==> overridden(p, env)->Some_0.api_key == env.zai_api_key->Some_0@,
{
}

/// Why an address was refused.
#[derive(Clone, Copy, Debug, PartialEq, Eq, Structural)]
pub enum BindError {
    NoHost,
    BadPort,
}

/// What is said of an address without a host.
pub fn bind_error_text(bind: &str) -> (r: String)
    ensures
        r@ == "invalid bind override: "@ + bind@,
{
    let mut s = "invalid bind override: ".to_string();
    push_text(&mut s, bind);
    s
}

/// The host, where one is given, and the port of an address: what stands before
/// and after its last colon.
pub open spec fn bind_parts(bind: Seq<char>) -> (Option<Seq<char>>, Seq<char>) {
    match split_last(bind, ':') {
        Some((host, port)) => (Some(host), port),
        None => (None, bind),
    }
}

/// Overrides where the daemon listens by an address, a host and a port or a
/// port alone.
pub fn apply_bind_override(cfg: &mut Config, bind: &str) -> (r: Result<(), BindError>)
    ensures
        ({
            let (host, port) = bind_parts(bind@);
            let value = parsed_nat(port, u16::MAX as nat);
            &&& r == if host is Some && host->Some_0.len() == 0 {
                Err::<(), BindError>(BindError::NoHost)
            } else if value is None {
                Err(BindError::BadPort)
            } else {
                Ok(())
            }
            &&& final(cfg).server.hostname@ == if host is Some && host->Some_0.len() > 0 {
                host->Some_0
            } else {
                old(cfg).server.hostname@
            }
            &&& final(cfg).server.port == if r is Ok {
                value->Some_0 as u16
            } else {
                old(cfg).server.port
            }
        }),
        final(cfg).tmux == old(cfg).tmux,
        final(cfg).logging == old(cfg).logging,
        final(cfg).share == old(cfg).share,
        final(cfg).providers == old(cfg).providers,
        final(cfg).tools == old(cfg).tools,
{
    let port = match rsplit_once(bind, ':') {
        Some((host, port)) => {
            if host.as_str().is_empty() {
                return Err(BindError::NoHost);
            }
            cfg.server.hostname = host;
            port
        },
        None => bind.to_string(),
    };
    match parse_nat(port.as_str(), 65535) {
        Some(value) => {
            cfg.server.port = value as u16;
            Ok(())
        },
        None => Err(BindError::BadPort),
    }
}

/// The address at which the daemon listens.
pub fn listen_address(server: &ServerConfig) -> (r: String)
    ensures
        r@ == server.hostname@ + ":"@ + decimal(server.port as nat),
{
    let mut s = server.hostname.clone();
    push_text(&mut s, ":");
    push_text(&mut s, nat_to_string(server.port as u128).as_str());
    s
}

// ---------------------------------------------------------------------------
// What paths, files and addresses come to
// ---------------------------------------------------------------------------

/// A path from the root stays as it is; any other is set below the directory, with one
/// slash between them.
pub proof fn paths_are_set_below_directories(dir: Seq<char>, rest: Seq<char>)
    ensures
        rest.len() > 0 && rest[0] == '/' ==> path_below(dir, rest) == rest,
        !(rest.len() > 0 && rest[0] == '/') && dir.len() > 0 && dir.last() != '/' ==> path_below(
            dir,
            rest,
        ) == dir + seq!['/'] + rest,
        !(rest.len() > 0 && rest[0] == '/') && dir.len() > 0 && dir.last() == '/' ==> path_below(
            dir,
            rest,
        ) == dir + rest,
        dir.len() == 0 ==> path_below(dir, rest) == rest,
{
    reveal_strlit("/");
    assert("/"@ =~= seq!['/']);
    if rest.len() > 0 {
        assert(rest.take(1)[0] == rest[0]);
        if rest[0] == '/' {
            assert(rest.take(1) =~= "/"@);
        }
    }
}

/// A tilde at the start of a path stands for the home directory, alone or before a
/// slash, and nowhere else; where no home directory is known, for itself.
pub proof fn tildes_stand_for_the_home_directory(
    path: Seq<char>,
    rest: Seq<char>,
    home: Seq<char>,
)
    ensures
        expanded(path, None) == path,
        expanded(seq!['~'], Some(home)) == home,
        expanded(seq!['~', '/'] + rest, Some(home)) == path_below(home, rest),
        path.len() == 0 || path[0] != '~' || path.len() > 1 && path[1] != '/' ==> expanded(
            path,
            Some(home),
        ) == path,
{
    reveal_strlit("~");
    reveal_strlit("~/");
    assert("~"@ =~= seq!['~']);
    assert("~/"@ =~= seq!['~', '/']);
    let p = seq!['~', '/'] + rest;
    assert(p.take(2) =~= "~/"@);
    assert(p.skip(2) =~= rest);
    assert(p.len() >= 2);
    if starts(path, "~/"@) {
        assert(path.take(2)[0] == path[0] && path.take(2)[1] == path[1]);
    }
}

/// The file that was asked for is read if it is there. Else the one in the home directory
/// is, if that is another one and there; else none.
pub proof fn the_file_asked_for_comes_first(
    path: Seq<char>,
    home: Option<Seq<char>>,
    default_exists: bool,
)
    ensures
        config_file(path, home, true, default_exists) == Some(expanded(path, home)),
        match config_file(path, home, false, default_exists) {
            Some(file) => {
                &&& default_exists
                &&& home is Some
                &&& file == path_below(home->Some_0, ".config/aish/aish.json"@)
                &&& file != expanded(path, home)
            },
            None => home is None || !default_exists || path_below(
                home->Some_0,
                ".config/aish/aish.json"@,
            ) == expanded(path, home),
        },
{
}

/// What the environment does not say stays as it was configured; an environment that says
/// nothing leaves even a missing provider as it is, and one that says something starts
/// from the default one.
pub proof fn the_environment_leaves_the_rest(p: ProviderView, env: EnvOverrides)
    ensures
        ({
            let out = overridden(Some(p), env);
            &&& out is Some
            &&& env.base_url is None ==> out->Some_0.base_url == p.base_url
            &&& env.model is None ==> out->Some_0.model == p.model
            &&& env.completions_path is None ==> out->Some_0.completions_path
                == p.completions_path
            &&& env.api_key is None && env.zai_api_key is None ==> out->Some_0.api_key
                == p.api_key
            &&& out->Some_0.api_key_env == p.api_key_env
        }),
        env.base_url is None && env.model is None && env.completions_path is None && env.api_key
            is None && env.zai_api_key is None ==> overridden(None, env) is None,
        env.base_url is Some ==> overridden(None, env) is Some && (env.model is None ==> overridden(
            None,
            env,
        )->Some_0.model == "glm-4.7"@) && (env.completions_path is None ==> overridden(
            None,
            env,
        )->Some_0.completions_path == "/completions"@),
{
}

/// An address is a host and a port with the last colon between them, or a port alone.
pub proof fn addresses_are_hosts_and_ports(host: Seq<char>, port: Seq<char>)
    requires
        !has_char(port, ':'),
    ensures
        bind_parts(host + seq![':'] + port) == (Some(host), port),
        bind_parts(port) == (None::<Seq<char>>, port),
{
    let s = host + seq![':'] + port;
    texts_are_parted_at_the_last(s, ':');
    assert(s[host.len() as int] == ':');
    if let Some((a, b)) = split_last(s, ':') {
        if a.len() < host.len() {
            assert(b[host.len() - a.len() - 1] == s[host.len() as int]);
        }
        if a.len() > host.len() {
            assert(port[a.len() - host.len() - 1] == s[a.len() as int]);
        }
        assert(a.len() == host.len());
        assert(a =~= host) by {
            assert forall|i: int| 0 <= i < host.len() implies a[i] == host[i] by {
                assert(s[i] == a[i]);
                assert(s[i] == host[i]);
            }
        }
        assert(b =~= port) by {
            assert(b.len() == port.len());
            assert forall|i: int| 0 <= i < port.len() implies b[i] == port[i] by {
                assert(s[host.len() + 1 + i] == b[i]);
                assert(s[host.len() + 1 + i] == port[i]);
            }
        }
    }
    texts_are_parted_at_the_last(port, ':');
    if let Some((a, b)) = split_last(port, ':') {
        assert(port[a.len() as int] == ':');
    }
}

} // verus!
