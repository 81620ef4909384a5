//! The wrap configuration: its shape, its defaults, the rules a merged
//! configuration must satisfy, and the resolution of host values
//! (secrets and agent state copied from the host).
//!
//! Reading the file and decoding YAML into these types happens at the edge;
//! everything a configuration is checked against stands here.

use vstd::prelude::*;
use crate::methods::{strings_from, strings_view};
use crate::paths::{expand_tilde, expand_tilde_spec, file_name, path_file_name};
use crate::text::{
    chars_of, concat, has_prefix, is_ascii_alnum, is_ascii_alnum_char, is_ascii_alpha,
    is_ascii_alpha_char, is_white, is_white_char, push_str, slice_chars, starts_with,
    string_from_chars, text_eq, trim, trim_spec, decimal, push_decimal,
};

verus! {

// ---------------------------------------------------------------------------
// The configuration
// ---------------------------------------------------------------------------

/// VM sizing for image builds; also the default for project VMs.
#[derive(Clone, Debug)]
pub struct BuildConfig {
    pub cpus: u8,
    /// Initial guest memory in MiB.
    pub memory: u32,
    /// Memory ceiling in MiB.
    pub memory_max: u32,
}

/// A host credential granted to the guest for the named hosts only.
#[derive(Clone, Debug)]
pub struct SecretSpec {
    pub env: String,
    /// Where the value comes from: a literal, `$NAME` or `$(command)`.
    pub host_env: String,
    pub hosts: Vec<String>,
}

#[derive(Clone, Debug)]
pub struct NetworkConfig {
    pub allow_everything: bool,
    pub allow_host: Vec<String>,
    pub deny_host: Vec<String>,
}

/// A coding agent installed into the image with mise.
#[derive(Clone, Debug)]
pub struct AgentSpec {
    pub name: String,
    pub package: String,
    /// Host state copied into each project VM: a host value naming a path.
    pub host_copy: Option<String>,
    /// Where that state goes in the guest; `/root/<file name>` by default.
    pub guest: Option<String>,
}

/// A customisation layer of the shared image.
#[derive(Clone, Debug)]
pub struct LayerSpec {
    pub id: String,
    pub script: String,
}

/// A merged configuration. `env` holds each key once, in ascending key
/// order (`env_ordered`).
#[derive(Clone, Debug)]
pub struct Config {
    pub build: BuildConfig,
    pub env: Vec<(String, String)>,
    pub secrets: Vec<SecretSpec>,
    pub network: NetworkConfig,
    pub agents: Vec<AgentSpec>,
    pub layers: Vec<LayerSpec>,
}

/// `a` sorts before `b`: character by character, by code point, a proper
/// prefix first (the order of `String`).
pub open spec fn text_less(a: Seq<char>, b: Seq<char>) -> bool
    decreases a.len(),
{
    if a.len() == 0 {
        b.len() > 0
    } else if b.len() == 0 {
        false
    } else if (a[0] as u32) < (b[0] as u32) {
        true
    } else if (a[0] as u32) > (b[0] as u32) {
        false
    } else {
        text_less(a.drop_first(), b.drop_first())
    }
}

/// The keys of `env` strictly ascend, so each key is there once.
pub open spec fn env_ordered(env: Seq<(String, String)>) -> bool {
    forall|i: int, j: int|
        0 <= i < j < env.len() ==> text_less(#[trigger] env[i].0@, #[trigger] env[j].0@)
}

/// Whether `a` sorts before `b`.
pub fn text_lt(a: &str, b: &str) -> (r: bool)
    ensures
        r == text_less(a@, b@),
{
    let x = chars_of(a);
    let y = chars_of(b);
    let mut i: usize = 0;
    assert(x@.skip(0) =~= x@);
    assert(y@.skip(0) =~= y@);
    while i < x.len() && i < y.len()
        invariant
            x@ == a@,
            y@ == b@,
            i <= x@.len(),
            i <= y@.len(),
            text_less(x@, y@) == text_less(x@.skip(i as int), y@.skip(i as int)),
        decreases x@.len() - i,
    {
        let ghost xs = x@.skip(i as int);
        let ghost ys = y@.skip(i as int);
        assert(xs[0] == x@[i as int]);
        assert(ys[0] == y@[i as int]);
        if (x[i] as u32) < (y[i] as u32) {
            return true;
        }
        if (x[i] as u32) > (y[i] as u32) {
            return false;
        }
        assert(xs.drop_first() =~= x@.skip(i + 1));
        assert(ys.drop_first() =~= y@.skip(i + 1));
        i = i + 1;
    }
    x.len() == i && y.len() > i
}

/// Whether the keys of `env` strictly ascend.
pub fn env_is_ordered(env: &[(String, String)]) -> (b: bool)
    ensures
        b == env_ordered(env@),
{
    let mut j: usize = 0;
    while j < env.len()
        invariant
            j <= env@.len(),
            forall|a: int, b: int|
                0 <= a < b < j ==> text_less(#[trigger] env@[a].0@, #[trigger] env@[b].0@),
        decreases env@.len() - j,
    {
        let mut i: usize = 0;
        while i < j
            invariant
                i <= j < env@.len(),
                forall|a: int, b: int|
                    0 <= a < b < j ==> text_less(#[trigger] env@[a].0@, #[trigger] env@[b].0@),
                forall|a: int| 0 <= a < i ==> text_less(#[trigger] env@[a].0@, env@[j as int].0@),
            decreases j - i,
        {
            if !text_lt(env[i].0.as_str(), env[j].0.as_str()) {
                return false;
            }
            i = i + 1;
        }
        j = j + 1;
    }
    true
}

pub const DEFAULT_CPUS: u8 = 4;

pub const DEFAULT_MEMORY_MIB: u32 = 4096;

pub const DEFAULT_MEMORY_MAX_MIB: u32 = 8192;

pub fn default_cpus() -> (n: u8)
    ensures
        n == DEFAULT_CPUS,
{
    DEFAULT_CPUS
}

pub fn default_memory() -> (n: u32)
    ensures
        n == DEFAULT_MEMORY_MIB,
{
    DEFAULT_MEMORY_MIB
}

pub fn default_memory_max() -> (n: u32)
    ensures
        n == DEFAULT_MEMORY_MAX_MIB,
{
    DEFAULT_MEMORY_MAX_MIB
}

impl Default for BuildConfig {
    fn default() -> (b: Self)
        ensures
            b.cpus == DEFAULT_CPUS,
            b.memory == DEFAULT_MEMORY_MIB,
            b.memory_max == DEFAULT_MEMORY_MAX_MIB,
    {
        BuildConfig { cpus: default_cpus(), memory: default_memory(), memory_max: default_memory_max() }
    }
}

// ---------------------------------------------------------------------------
// Names and packages
// ---------------------------------------------------------------------------

/// A POSIX-style environment variable name: a letter or `_`, then letters,
/// digits and `_`.
pub open spec fn is_env_name(s: Seq<char>) -> bool {
    &&& s.len() > 0
    &&& (s[0] == '_' || is_ascii_alpha_char(s[0]))
    &&& forall|i: int| 1 <= i < s.len() ==> (#[trigger] s[i] == '_' || is_ascii_alnum_char(s[i]))
}

/// A name that is not an environment variable name.
#[derive(Debug)]
pub struct EnvNameError;

impl EnvNameError {
    pub fn message(&self) -> (s: String)
        ensures
            s@ == "expected an environment variable name"@,
    {
        "expected an environment variable name".to_owned()
    }
}

/// `validate_env_name`: succeeds exactly on environment variable names.
pub fn validate_env_name(name: &str) -> (r: Result<(), EnvNameError>)
    ensures
        r is Ok <==> is_env_name(name@),
{
    let c = chars_of(name);
    if c.len() == 0 || !(c[0] == '_' || is_ascii_alpha(c[0])) {
        return Err(EnvNameError);
    }
    let mut i: usize = 1;
    while i < c.len()
        invariant
            1 <= i <= c@.len(),
            c@ == name@,
            forall|j: int| 1 <= j < i ==> (#[trigger] c@[j] == '_' || is_ascii_alnum_char(c@[j])),
        decreases c@.len() - i,
    {
        if !(c[i] == '_' || is_ascii_alnum(c[i])) {
            return Err(EnvNameError);
        }
        i = i + 1;
    }
    Ok(())
}

/// Why a package string is refused.
#[derive(Debug)]
pub enum PackageError {
    Unsupported,
    Invalid { package: String },
}

pub enum PackageFault {
    Unsupported,
    Invalid(Seq<char>),
}

impl PackageError {
    pub open spec fn view(&self) -> PackageFault {
        match self {
            PackageError::Unsupported => PackageFault::Unsupported,
            PackageError::Invalid { package } => PackageFault::Invalid(package@),
        }
    }

    pub fn message(&self) -> (s: String)
        ensures
            s@ == package_fault_message(self.view()),
    {
        match self {
            PackageError::Unsupported => "unsupported package source; expected mise:<tool>@<version> or github:<owner>/<repo>@<version>".to_owned(),
            PackageError::Invalid { package } => concat("invalid package ", package.as_str()),
        }
    }
}

pub open spec fn package_fault_message(f: PackageFault) -> Seq<char> {
    match f {
        PackageFault::Unsupported => "unsupported package source; expected mise:<tool>@<version> or github:<owner>/<repo>@<version>"@,
        PackageFault::Invalid(p) => "invalid package "@ + p,
    }
}

/// The tool spec a package names: `mise:<tool>` gives `<tool>`,
/// `github:<owner>/<repo>` stands as it is, other sources name none.
pub open spec fn package_tool(package: Seq<char>) -> Option<Seq<char>> {
    if has_prefix(package, "mise:"@) {
        Some(package.skip(5))
    } else if has_prefix(package, "github:"@) {
        Some(package)
    } else {
        None
    }
}

/// A tool spec mise can take as one argument: non-empty, not an option,
/// without white space.
pub open spec fn is_tool_spec(s: Seq<char>) -> bool {
    &&& s.len() > 0
    &&& s[0] != '-'
    &&& forall|i: int| 0 <= i < s.len() ==> !is_white_char(#[trigger] s[i])
}

/// The mise tool spec of a configured package.
pub open spec fn mise_package_spec(package: Seq<char>) -> Result<Seq<char>, PackageFault> {
    match package_tool(package) {
        None => Err(PackageFault::Unsupported),
        Some(s) => if is_tool_spec(s) {
            Ok(s)
        } else {
            Err(PackageFault::Invalid(package))
        },
    }
}

/// `mise_package`: the mise tool spec of a configured package.
pub fn mise_package(package: &str) -> (r: Result<String, PackageError>)
    ensures
        match mise_package_spec(package@) {
            Ok(s) => r matches Ok(t) && t@ == s,
            Err(f) => r matches Err(e) && e.view() == f,
        },
{
    proof {
        reveal_strlit("mise:");
        reveal_strlit("github:");
    }
    let c = chars_of(package);
    let spec: Vec<char> = if starts_with(package, "mise:") {
        assert(package@.take(5) == "mise:"@);
        slice_chars(&c, 5, c.len())
    } else if starts_with(package, "github:") {
        c
    } else {
        return Err(PackageError::Unsupported);
    };
    let ghost s = if has_prefix(package@, "mise:"@) {
        package@.skip(5)
    } else {
        package@
    };
    assert(spec@ =~= s);
    if spec.len() == 0 || spec[0] == '-' {
        return Err(PackageError::Invalid { package: package.to_owned() });
    }
    let mut i: usize = 0;
    while i < spec.len()
        invariant
            i <= spec@.len(),
            spec@ == s,
            s == (if has_prefix(package@, "mise:"@) {
                package@.skip(5)
            } else {
                package@
            }),
            has_prefix(package@, "mise:"@) || has_prefix(package@, "github:"@),
            forall|j: int| 0 <= j < i ==> !is_white_char(#[trigger] s[j]),
        decreases spec@.len() - i,
    {
        if is_white(spec[i]) {
            assert(is_white_char(s[i as int]));
            return Err(PackageError::Invalid { package: package.to_owned() });
        }
        i = i + 1;
    }
    Ok(string_from_chars(&spec))
}

// ---------------------------------------------------------------------------
// Validation
// ---------------------------------------------------------------------------

/// A rule of the configuration that a merged configuration breaks.
#[derive(Debug)]
pub enum ConfigError {
    CpusZero,
    MemoryZero,
    MemoryMaxBelow { memory_max: u32, memory: u32 },
    SecretEnv { env: String },
    DuplicateSecret { env: String },
    EmptyHostEnv { env: String },
    AgentName { name: String },
    DuplicateAgent { name: String },
    AgentPackage { agent: String, error: PackageError },
    GuestNotAbsolute { agent: String },
    EmptyLayerId,
    DuplicateLayer { id: String },
}

pub enum ConfigFault {
    CpusZero,
    MemoryZero,
    MemoryMaxBelow(u32, u32),
    SecretEnv(Seq<char>),
    DuplicateSecret(Seq<char>),
    EmptyHostEnv(Seq<char>),
    AgentName(Seq<char>),
    DuplicateAgent(Seq<char>),
    AgentPackage(Seq<char>, PackageFault),
    GuestNotAbsolute(Seq<char>),
    EmptyLayerId,
    DuplicateLayer(Seq<char>),
}

impl ConfigError {
    pub open spec fn view(&self) -> ConfigFault {
        match self {
            ConfigError::CpusZero => ConfigFault::CpusZero,
            ConfigError::MemoryZero => ConfigFault::MemoryZero,
            ConfigError::MemoryMaxBelow { memory_max, memory } => ConfigFault::MemoryMaxBelow(
                *memory_max,
                *memory,
            ),
            ConfigError::SecretEnv { env } => ConfigFault::SecretEnv(env@),
            ConfigError::DuplicateSecret { env } => ConfigFault::DuplicateSecret(env@),
            ConfigError::EmptyHostEnv { env } => ConfigFault::EmptyHostEnv(env@),
            ConfigError::AgentName { name } => ConfigFault::AgentName(name@),
            ConfigError::DuplicateAgent { name } => ConfigFault::DuplicateAgent(name@),
            ConfigError::AgentPackage { agent, error } => ConfigFault::AgentPackage(
                agent@,
                error.view(),
            ),
            ConfigError::GuestNotAbsolute { agent } => ConfigFault::GuestNotAbsolute(agent@),
            ConfigError::EmptyLayerId => ConfigFault::EmptyLayerId,
            ConfigError::DuplicateLayer { id } => ConfigFault::DuplicateLayer(id@),
        }
    }

    /// The message, with its causes after colons.
    pub fn message(&self) -> (s: String)
        ensures
            s@ == config_fault_message(self.view()),
    {
        let mut out: Vec<char> = Vec::new();
        match self {
            ConfigError::CpusZero => push_str(&mut out, "build.cpus must be greater than zero"),
            ConfigError::MemoryZero => push_str(&mut out, "build.memory must be greater than zero"),
            ConfigError::MemoryMaxBelow { memory_max, memory } => {
                push_str(&mut out, "build.memory_max (");
                push_decimal(&mut out, *memory_max as u64);
                push_str(&mut out, ") must be at least build.memory (");
                push_decimal(&mut out, *memory as u64);
                push_str(&mut out, ")");
            },
            ConfigError::SecretEnv { env } => {
                push_str(&mut out, "invalid secret env ");
                push_str(&mut out, env.as_str());
                push_str(&mut out, ": expected an environment variable name");
            },
            ConfigError::DuplicateSecret { env } => {
                push_str(&mut out, "duplicate secret env ");
                push_str(&mut out, env.as_str());
            },
            ConfigError::EmptyHostEnv { env } => {
                push_str(&mut out, "secret ");
                push_str(&mut out, env.as_str());
                push_str(&mut out, " host-env must not be empty");
            },
            ConfigError::AgentName { name } => {
                push_str(&mut out, "invalid agent name ");
                push_str(&mut out, name.as_str());
            },
            ConfigError::DuplicateAgent { name } => {
                push_str(&mut out, "duplicate agent name ");
                push_str(&mut out, name.as_str());
            },
            ConfigError::AgentPackage { agent, error } => {
                push_str(&mut out, "invalid package for agent ");
                push_str(&mut out, agent.as_str());
                push_str(&mut out, ": ");
                let m = error.message();
                push_str(&mut out, m.as_str());
            },
            ConfigError::GuestNotAbsolute { agent } => {
                push_str(&mut out, "agent ");
                push_str(&mut out, agent.as_str());
                push_str(&mut out, " guest path must be absolute");
            },
            ConfigError::EmptyLayerId => push_str(&mut out, "layer id must not be empty"),
            ConfigError::DuplicateLayer { id } => {
                push_str(&mut out, "duplicate layer id ");
                push_str(&mut out, id.as_str());
            },
        }
        proof {
            assert(out@ =~= config_fault_message(self.view()));
        }
        string_from_chars(&out)
    }
}

pub open spec fn config_fault_message(f: ConfigFault) -> Seq<char> {
    match f {
        ConfigFault::CpusZero => "build.cpus must be greater than zero"@,
        ConfigFault::MemoryZero => "build.memory must be greater than zero"@,
        ConfigFault::MemoryMaxBelow(max, mem) => "build.memory_max ("@ + decimal(max as nat)
            + ") must be at least build.memory ("@ + decimal(mem as nat) + ")"@,
        ConfigFault::SecretEnv(e) => "invalid secret env "@ + e
            + ": expected an environment variable name"@,
        ConfigFault::DuplicateSecret(e) => "duplicate secret env "@ + e,
        ConfigFault::EmptyHostEnv(e) => "secret "@ + e + " host-env must not be empty"@,
        ConfigFault::AgentName(n) => "invalid agent name "@ + n,
        ConfigFault::DuplicateAgent(n) => "duplicate agent name "@ + n,
        ConfigFault::AgentPackage(a, p) => "invalid package for agent "@ + a + ": "@
            + package_fault_message(p),
        ConfigFault::GuestNotAbsolute(a) => "agent "@ + a + " guest path must be absolute"@,
        ConfigFault::EmptyLayerId => "layer id must not be empty"@,
        ConfigFault::DuplicateLayer(id) => "duplicate layer id "@ + id,
    }
}

pub open spec fn build_fault(b: BuildConfig) -> Option<ConfigFault> {
    if b.cpus == 0 {
        Some(ConfigFault::CpusZero)
    } else if b.memory == 0 {
        Some(ConfigFault::MemoryZero)
    } else if b.memory_max < b.memory {
        Some(ConfigFault::MemoryMaxBelow(b.memory_max, b.memory))
    } else {
        None
    }
}

/// What is wrong with secret `i`, given that the earlier ones passed.
pub open spec fn secret_fault(secrets: Seq<SecretSpec>, i: int) -> Option<ConfigFault> {
    let env = secrets[i].env@;
    if !is_env_name(env) {
        Some(ConfigFault::SecretEnv(env))
    } else if exists|j: int| 0 <= j < i && #[trigger] secrets[j].env@ == env {
        Some(ConfigFault::DuplicateSecret(env))
    } else if trim_spec(secrets[i].host_env@).len() == 0 {
        Some(ConfigFault::EmptyHostEnv(env))
    } else {
        None
    }
}

/// An agent name: non-empty, of ASCII letters, digits, `-` and `_`.
pub open spec fn is_agent_name(s: Seq<char>) -> bool {
    s.len() > 0 && forall|i: int| 0 <= i < s.len() ==> is_agent_name_char(#[trigger] s[i])
}

pub open spec fn is_agent_name_char(c: char) -> bool {
    is_ascii_alnum_char(c) || c == '-' || c == '_'
}

/// What is wrong with agent `i`, given that the earlier ones passed.
pub open spec fn agent_fault(agents: Seq<AgentSpec>, i: int) -> Option<ConfigFault> {
    let name = agents[i].name@;
    if !is_agent_name(name) {
        Some(ConfigFault::AgentName(name))
    } else if exists|j: int| 0 <= j < i && #[trigger] agents[j].name@ == name {
        Some(ConfigFault::DuplicateAgent(name))
    } else if mise_package_spec(agents[i].package@) is Err {
        Some(ConfigFault::AgentPackage(name, mise_package_spec(agents[i].package@)->Err_0))
    } else if agents[i].guest matches Some(g) && !has_prefix(g@, "/"@) {
        Some(ConfigFault::GuestNotAbsolute(name))
    } else {
        None
    }
}

/// What is wrong with layer `i`, given that the earlier ones passed.
pub open spec fn layer_fault(layers: Seq<LayerSpec>, i: int) -> Option<ConfigFault> {
    let id = layers[i].id@;
    if id.len() == 0 {
        Some(ConfigFault::EmptyLayerId)
    } else if exists|j: int| 0 <= j < i && #[trigger] layers[j].id@ == id {
        Some(ConfigFault::DuplicateLayer(id))
    } else {
        None
    }
}

/// The first fault among the first `n` secrets.
pub open spec fn secrets_fault(secrets: Seq<SecretSpec>, n: int) -> Option<ConfigFault>
    decreases n,
{
    if n <= 0 {
        None
    } else {
        match secrets_fault(secrets, n - 1) {
            Some(f) => Some(f),
            None => secret_fault(secrets, n - 1),
        }
    }
}

/// The first fault among the first `n` agents.
pub open spec fn agents_fault(agents: Seq<AgentSpec>, n: int) -> Option<ConfigFault>
    decreases n,
{
    if n <= 0 {
        None
    } else {
        match agents_fault(agents, n - 1) {
            Some(f) => Some(f),
            None => agent_fault(agents, n - 1),
        }
    }
}

/// The first fault among the first `n` layers.
pub open spec fn layers_fault(layers: Seq<LayerSpec>, n: int) -> Option<ConfigFault>
    decreases n,
{
    if n <= 0 {
        None
    } else {
        match layers_fault(layers, n - 1) {
            Some(f) => Some(f),
            None => layer_fault(layers, n - 1),
        }
    }
}

/// The first rule `cfg` breaks, in the order the rules are checked: the
/// build sizes, then each secret, each agent and each layer in turn.
pub open spec fn config_fault(cfg: Config) -> Option<ConfigFault> {
    match build_fault(cfg.build) {
        Some(f) => Some(f),
        None => match secrets_fault(cfg.secrets@, cfg.secrets@.len() as int) {
            Some(f) => Some(f),
            None => match agents_fault(cfg.agents@, cfg.agents@.len() as int) {
                Some(f) => Some(f),
                None => layers_fault(cfg.layers@, cfg.layers@.len() as int),
            },
        },
    }
}

proof fn lemma_secrets_fault_stays(secrets: Seq<SecretSpec>, k: int, n: int)
    requires
        0 <= k <= n,
        secrets_fault(secrets, k) is Some,
    ensures
        secrets_fault(secrets, n) == secrets_fault(secrets, k),
    decreases n,
{
    if n > k {
        lemma_secrets_fault_stays(secrets, k, n - 1);
    }
}

proof fn lemma_agents_fault_stays(agents: Seq<AgentSpec>, k: int, n: int)
    requires
        0 <= k <= n,
        agents_fault(agents, k) is Some,
    ensures
        agents_fault(agents, n) == agents_fault(agents, k),
    decreases n,
{
    if n > k {
        lemma_agents_fault_stays(agents, k, n - 1);
    }
}

proof fn lemma_layers_fault_stays(layers: Seq<LayerSpec>, k: int, n: int)
    requires
        0 <= k <= n,
        layers_fault(layers, k) is Some,
    ensures
        layers_fault(layers, n) == layers_fault(layers, k),
    decreases n,
{
    if n > k {
        lemma_layers_fault_stays(layers, k, n - 1);
    }
}

fn check_secrets(secrets: &Vec<SecretSpec>) -> (r: Result<(), ConfigError>)
    ensures
        match secrets_fault(secrets@, secrets@.len() as int) {
            None => r is Ok,
            Some(f) => r matches Err(e) && e.view() == f,
        },
{
    let mut i: usize = 0;
    while i < secrets.len()
        invariant
            i <= secrets@.len(),
            secrets_fault(secrets@, i as int) is None,
        decreases secrets@.len() - i,
    {
        let env = &secrets[i].env;
        if validate_env_name(env.as_str()).is_err() {
            proof {
                lemma_secrets_fault_stays(secrets@, i + 1, secrets@.len() as int);
            }
            return Err(ConfigError::SecretEnv { env: env.clone() });
        }
        let mut j: usize = 0;
        while j < i
            invariant
                j <= i < secrets@.len(),
                env@ == secrets@[i as int].env@,
                secrets_fault(secrets@, i as int) is None,
                is_env_name(env@),
                forall|k: int| 0 <= k < j ==> secrets@[k].env@ != env@,
            decreases i - j,
        {
            if text_eq(secrets[j].env.as_str(), env.as_str()) {
                assert(secrets@[j as int].env@ == secrets@[i as int].env@);
                proof {
                    lemma_secrets_fault_stays(secrets@, i + 1, secrets@.len() as int);
                }
                return Err(ConfigError::DuplicateSecret { env: env.clone() });
            }
            j = j + 1;
        }
        let host = trim(secrets[i].host_env.as_str());
        if host.as_str().is_empty() {
            proof {
                lemma_secrets_fault_stays(secrets@, i + 1, secrets@.len() as int);
            }
            return Err(ConfigError::EmptyHostEnv { env: env.clone() });
        }
        i = i + 1;
    }
    Ok(())
}

fn check_agents(agents: &Vec<AgentSpec>) -> (r: Result<(), ConfigError>)
    ensures
        match agents_fault(agents@, agents@.len() as int) {
            None => r is Ok,
            Some(f) => r matches Err(e) && e.view() == f,
        },
{
    let mut i: usize = 0;
    while i < agents.len()
        invariant
            i <= agents@.len(),
            agents_fault(agents@, i as int) is None,
        decreases agents@.len() - i,
    {
        let name = &agents[i].name;
        if !agent_name_ok(name.as_str()) {
            proof {
                lemma_agents_fault_stays(agents@, i + 1, agents@.len() as int);
            }
            return Err(ConfigError::AgentName { name: name.clone() });
        }
        let mut j: usize = 0;
        while j < i
            invariant
                j <= i < agents@.len(),
                name@ == agents@[i as int].name@,
                agents_fault(agents@, i as int) is None,
                is_agent_name(name@),
                forall|k: int| 0 <= k < j ==> agents@[k].name@ != name@,
            decreases i - j,
        {
            if text_eq(agents[j].name.as_str(), name.as_str()) {
                assert(agents@[j as int].name@ == agents@[i as int].name@);
                proof {
                    lemma_agents_fault_stays(agents@, i + 1, agents@.len() as int);
                }
                return Err(ConfigError::DuplicateAgent { name: name.clone() });
            }
            j = j + 1;
        }
        match mise_package(agents[i].package.as_str()) {
            Err(error) => {
                proof {
                    lemma_agents_fault_stays(agents@, i + 1, agents@.len() as int);
                }
                return Err(ConfigError::AgentPackage { agent: name.clone(), error });
            },
            Ok(_) => {},
        }
        match &agents[i].guest {
            Some(g) => {
                if !starts_with(g.as_str(), "/") {
                    proof {
                        lemma_agents_fault_stays(agents@, i + 1, agents@.len() as int);
                    }
                    return Err(ConfigError::GuestNotAbsolute { agent: name.clone() });
                }
            },
            None => {},
        }
        i = i + 1;
    }
    Ok(())
}

fn check_layers(layers: &Vec<LayerSpec>) -> (r: Result<(), ConfigError>)
    ensures
        match layers_fault(layers@, layers@.len() as int) {
            None => r is Ok,
            Some(f) => r matches Err(e) && e.view() == f,
        },
{
    let mut i: usize = 0;
    while i < layers.len()
        invariant
            i <= layers@.len(),
            layers_fault(layers@, i as int) is None,
        decreases layers@.len() - i,
    {
        let id = &layers[i].id;
        if id.as_str().is_empty() {
            proof {
                lemma_layers_fault_stays(layers@, i + 1, layers@.len() as int);
            }
            return Err(ConfigError::EmptyLayerId);
        }
        let mut j: usize = 0;
        while j < i
            invariant
                j <= i < layers@.len(),
                id@ == layers@[i as int].id@,
                layers_fault(layers@, i as int) is None,
                id@.len() > 0,
                forall|k: int| 0 <= k < j ==> layers@[k].id@ != id@,
            decreases i - j,
        {
            if text_eq(layers[j].id.as_str(), id.as_str()) {
                assert(layers@[j as int].id@ == layers@[i as int].id@);
                proof {
                    lemma_layers_fault_stays(layers@, i + 1, layers@.len() as int);
                }
                return Err(ConfigError::DuplicateLayer { id: id.clone() });
            }
            j = j + 1;
        }
        i = i + 1;
    }
    Ok(())
}

/// Whether every character of `name` may stand in an agent name (an empty
/// name passes).
pub open spec fn agent_name_chars(s: Seq<char>) -> bool {
    forall|i: int| 0 <= i < s.len() ==> is_agent_name_char(#[trigger] s[i])
}

/// Whether every character of `name` may stand in an agent name.
pub fn agent_name_chars_ok(name: &str) -> (b: bool)
    ensures
        b == agent_name_chars(name@),
{
    let c = chars_of(name);
    let mut i: usize = 0;
    while i < c.len()
        invariant
            i <= c@.len(),
            c@ == name@,
            forall|j: int| 0 <= j < i ==> is_agent_name_char(#[trigger] c@[j]),
        decreases c@.len() - i,
    {
        if !(is_ascii_alnum(c[i]) || c[i] == '-' || c[i] == '_') {
            assert(!is_agent_name_char(c@[i as int]));
            return false;
        }
        i = i + 1;
    }
    true
}

/// Whether `name` is a valid agent name.
pub fn agent_name_ok(name: &str) -> (b: bool)
    ensures
        b == is_agent_name(name@),
{
    let c = chars_of(name);
    if c.len() == 0 {
        return false;
    }
    let mut i: usize = 0;
    while i < c.len()
        invariant
            i <= c@.len(),
            c@ == name@,
            forall|j: int| 0 <= j < i ==> is_agent_name_char(#[trigger] c@[j]),
        decreases c@.len() - i,
    {
        if !(is_ascii_alnum(c[i]) || c[i] == '-' || c[i] == '_') {
            assert(!is_agent_name_char(c@[i as int]));
            return false;
        }
        i = i + 1;
    }
    true
}

/// `validate`: succeeds exactly when `cfg` breaks no rule, and otherwise
/// reports the first rule broken.
pub fn validate(cfg: &Config) -> (r: Result<(), ConfigError>)
    ensures
        match config_fault(*cfg) {
            None => r is Ok,
            Some(f) => r matches Err(e) && e.view() == f,
        },
{
    if cfg.build.cpus == 0 {
        return Err(ConfigError::CpusZero);
    }
    if cfg.build.memory == 0 {
        return Err(ConfigError::MemoryZero);
    }
    if cfg.build.memory_max < cfg.build.memory {
        return Err(ConfigError::MemoryMaxBelow {
            memory_max: cfg.build.memory_max,
            memory: cfg.build.memory,
        });
    }
    check_secrets(&cfg.secrets)?;
    check_agents(&cfg.agents)?;
    check_layers(&cfg.layers)
}

// ---------------------------------------------------------------------------
// Host values
// ---------------------------------------------------------------------------

/// Where a host value comes from: `$(command)`, `$NAME`, or the text
/// itself.
#[derive(Debug)]
pub enum HostSource {
    Command(String),
    Env(String),
    Literal(String),
}

pub enum HostSourceView {
    Command(Seq<char>),
    Env(Seq<char>),
    Literal(Seq<char>),
}

impl HostSource {
    pub open spec fn view(&self) -> HostSourceView {
        match self {
            HostSource::Command(c) => HostSourceView::Command(c@),
            HostSource::Env(n) => HostSourceView::Env(n@),
            HostSource::Literal(v) => HostSourceView::Literal(v@),
        }
    }
}

/// How a host command ended, as the host saw it.
#[derive(Debug)]
pub enum CommandOutcome {
    /// The command could not be started; `detail` says why.
    SpawnFailed { detail: String },
    /// The command ran. `status` is the exit status as the host prints it,
    /// `stderr` its error output (decoded leniently), and `stdout` its
    /// output, or why that output is not UTF-8.
    Finished { success: bool, status: String, stderr: String, stdout: Result<String, String> },
}

/// Why a host value could not be had.
#[derive(Debug)]
pub enum HostValueError {
    Unterminated,
    EmptyCommand,
    Spawn { command: String, detail: String },
    Exited { command: String, status: String },
    ExitedWith { command: String, status: String, detail: String },
    NotUtf8 { detail: String },
    EmptyOutput { command: String },
    EnvName,
    EnvNotSet { name: String, detail: String },
    EnvEmpty { name: String },
    EmptyLiteral,
}

pub enum HostFault {
    Unterminated,
    EmptyCommand,
    Spawn(Seq<char>, Seq<char>),
    Exited(Seq<char>, Seq<char>),
    ExitedWith(Seq<char>, Seq<char>, Seq<char>),
    NotUtf8(Seq<char>),
    EmptyOutput(Seq<char>),
    EnvName,
    EnvNotSet(Seq<char>, Seq<char>),
    EnvEmpty(Seq<char>),
    EmptyLiteral,
}

/// What `format!("{:?}", s)` writes for a string: `s` quoted, with
/// escapes.
pub uninterp spec fn debug_quoted(s: Seq<char>) -> Seq<char>;

/// `<str as Debug>::fmt`, through `format!("{:?}")`.
#[verifier::external_body]
pub fn debug_str(s: &str) -> (d: String)
    ensures
        d@ == debug_quoted(s@),
{
    format!("{:?}", s)
}

impl HostValueError {
    pub open spec fn view(&self) -> HostFault {
        match self {
            HostValueError::Unterminated => HostFault::Unterminated,
            HostValueError::EmptyCommand => HostFault::EmptyCommand,
            HostValueError::Spawn { command, detail } => HostFault::Spawn(command@, detail@),
            HostValueError::Exited { command, status } => HostFault::Exited(command@, status@),
            HostValueError::ExitedWith { command, status, detail } => HostFault::ExitedWith(
                command@,
                status@,
                detail@,
            ),
            HostValueError::NotUtf8 { detail } => HostFault::NotUtf8(detail@),
            HostValueError::EmptyOutput { command } => HostFault::EmptyOutput(command@),
            HostValueError::EnvName => HostFault::EnvName,
            HostValueError::EnvNotSet { name, detail } => HostFault::EnvNotSet(name@, detail@),
            HostValueError::EnvEmpty { name } => HostFault::EnvEmpty(name@),
            HostValueError::EmptyLiteral => HostFault::EmptyLiteral,
        }
    }

    /// The message, with its causes after colons.
    pub fn message(&self) -> (s: String)
        ensures
            s@ == host_fault_message(self.view()),
    {
        let mut out: Vec<char> = Vec::new();
        match self {
            HostValueError::Unterminated => push_str(&mut out, "unterminated $(command)"),
            HostValueError::EmptyCommand => push_str(&mut out, "empty $(command)"),
            HostValueError::Spawn { command, detail } => {
                push_str(&mut out, "run host command ");
                let q = debug_str(command.as_str());
                push_str(&mut out, q.as_str());
                push_str(&mut out, ": ");
                push_str(&mut out, detail.as_str());
            },
            HostValueError::Exited { command, status } => {
                push_str(&mut out, "host command ");
                let q = debug_str(command.as_str());
                push_str(&mut out, q.as_str());
                push_str(&mut out, " exited ");
                push_str(&mut out, status.as_str());
            },
            HostValueError::ExitedWith { command, status, detail } => {
                push_str(&mut out, "host command ");
                let q = debug_str(command.as_str());
                push_str(&mut out, q.as_str());
                push_str(&mut out, " exited ");
                push_str(&mut out, status.as_str());
                push_str(&mut out, ": ");
                push_str(&mut out, detail.as_str());
            },
            HostValueError::NotUtf8 { detail } => {
                push_str(&mut out, "host command output is not UTF-8: ");
                push_str(&mut out, detail.as_str());
            },
            HostValueError::EmptyOutput { command } => {
                push_str(&mut out, "host command ");
                let q = debug_str(command.as_str());
                push_str(&mut out, q.as_str());
                push_str(&mut out, " returned an empty value");
            },
            HostValueError::EnvName => push_str(
                &mut out,
                "invalid $ENVIRONMENT host value: expected an environment variable name",
            ),
            HostValueError::EnvNotSet { name, detail } => {
                push_str(&mut out, "host environment variable ");
                push_str(&mut out, name.as_str());
                push_str(&mut out, " is not set: ");
                push_str(&mut out, detail.as_str());
            },
            HostValueError::EnvEmpty { name } => {
                push_str(&mut out, "host environment variable ");
                push_str(&mut out, name.as_str());
                push_str(&mut out, " is empty");
            },
            HostValueError::EmptyLiteral => push_str(&mut out, "literal host value must not be empty"),
        }
        proof {
            assert(out@ =~= host_fault_message(self.view()));
        }
        string_from_chars(&out)
    }
}

pub open spec fn host_fault_message(f: HostFault) -> Seq<char> {
    match f {
        HostFault::Unterminated => "unterminated $(command)"@,
        HostFault::EmptyCommand => "empty $(command)"@,
        HostFault::Spawn(c, d) => "run host command "@ + debug_quoted(c) + ": "@ + d,
        HostFault::Exited(c, st) => "host command "@ + debug_quoted(c) + " exited "@ + st,
        HostFault::ExitedWith(c, st, d) => "host command "@ + debug_quoted(c) + " exited "@ + st
            + ": "@ + d,
        HostFault::NotUtf8(d) => "host command output is not UTF-8: "@ + d,
        HostFault::EmptyOutput(c) => "host command "@ + debug_quoted(c)
            + " returned an empty value"@,
        HostFault::EnvName => "invalid $ENVIRONMENT host value: expected an environment variable name"@,
        HostFault::EnvNotSet(n, d) => "host environment variable "@ + n + " is not set: "@ + d,
        HostFault::EnvEmpty(n) => "host environment variable "@ + n + " is empty"@,
        HostFault::EmptyLiteral => "literal host value must not be empty"@,
    }
}

/// How a raw host value is read: `$(command)` runs `command` (which must
/// be closed and not blank), `$NAME` reads an environment variable (whose
/// name must be valid), and anything else non-empty is the value itself.
pub open spec fn host_source_spec(raw: Seq<char>) -> Result<HostSourceView, HostFault> {
    if has_prefix(raw, "$("@) {
        let rest = raw.skip(2);
        if rest.len() == 0 || rest.last() != ')' {
            Err(HostFault::Unterminated)
        } else if trim_spec(rest.drop_last()).len() == 0 {
            Err(HostFault::EmptyCommand)
        } else {
            Ok(HostSourceView::Command(rest.drop_last()))
        }
    } else if has_prefix(raw, "$"@) {
        if is_env_name(raw.skip(1)) {
            Ok(HostSourceView::Env(raw.skip(1)))
        } else {
            Err(HostFault::EnvName)
        }
    } else if raw.len() == 0 {
        Err(HostFault::EmptyLiteral)
    } else {
        Ok(HostSourceView::Literal(raw))
    }
}

/// Where the host value `raw` comes from.
pub fn host_value_source(raw: &str) -> (r: Result<HostSource, HostValueError>)
    ensures
        match host_source_spec(raw@) {
            Ok(v) => r matches Ok(s) && s.view() == v,
            Err(f) => r matches Err(e) && e.view() == f,
        },
{
    proof {
        reveal_strlit("$(");
        reveal_strlit("$");
    }
    let c = chars_of(raw);
    if c.len() >= 2 && c[0] == '$' && c[1] == '(' {
        assert(raw@.take(2) =~= "$("@);
        let rest = slice_chars(&c, 2, c.len());
        assert(rest@ =~= raw@.skip(2));
        if rest.len() == 0 || rest[rest.len() - 1] != ')' {
            return Err(HostValueError::Unterminated);
        }
        let cmd = slice_chars(&rest, 0, rest.len() - 1);
        assert(cmd@ =~= rest@.drop_last());
        let command = string_from_chars(&cmd);
        let t = trim(command.as_str());
        if t.as_str().is_empty() {
            return Err(HostValueError::EmptyCommand);
        }
        return Ok(HostSource::Command(command));
    }
    assert(!has_prefix(raw@, "$("@)) by {
        if has_prefix(raw@, "$("@) {
            assert(raw@.take(2)[0] == '$');
            assert(raw@.take(2)[1] == '(');
        }
    }
    if c.len() >= 1 && c[0] == '$' {
        assert(raw@.take(1) =~= "$"@);
        let name = string_from_chars(&slice_chars(&c, 1, c.len()));
        assert(name@ =~= raw@.skip(1));
        if validate_env_name(name.as_str()).is_err() {
            return Err(HostValueError::EnvName);
        }
        return Ok(HostSource::Env(name));
    }
    assert(!has_prefix(raw@, "$"@)) by {
        if has_prefix(raw@, "$"@) {
            assert(raw@.take(1)[0] == '$');
        }
    }
    if c.len() == 0 {
        return Err(HostValueError::EmptyLiteral);
    }
    Ok(HostSource::Literal(raw.to_owned()))
}

pub open spec fn command_value_spec(
    command: Seq<char>,
    spawned: Result<(bool, Seq<char>, Seq<char>, Result<Seq<char>, Seq<char>>), Seq<char>>,
) -> Result<Seq<char>, HostFault> {
    match spawned {
        Err(detail) => Err(HostFault::Spawn(command, detail)),
        Ok((success, status, stderr, stdout)) => if !success {
            if trim_spec(stderr).len() == 0 {
                Err(HostFault::Exited(command, status))
            } else {
                Err(HostFault::ExitedWith(command, status, trim_spec(stderr)))
            }
        } else {
            match stdout {
                Err(detail) => Err(HostFault::NotUtf8(detail)),
                Ok(out) => if trim_spec(out).len() == 0 {
                    Err(HostFault::EmptyOutput(command))
                } else {
                    Ok(trim_spec(out))
                },
            }
        },
    }
}

impl CommandOutcome {
    pub open spec fn view(&self) -> Result<
        (bool, Seq<char>, Seq<char>, Result<Seq<char>, Seq<char>>),
        Seq<char>,
    > {
        match self {
            CommandOutcome::SpawnFailed { detail } => Err(detail@),
            CommandOutcome::Finished { success, status, stderr, stdout } => Ok(
                (
                    *success,
                    status@,
                    stderr@,
                    match stdout {
                        Ok(o) => Ok(o@),
                        Err(d) => Err(d@),
                    },
                ),
            ),
        }
    }
}

/// The value a host command yields: its trimmed output, if it succeeded
/// and printed something; else why not.
pub fn command_value(command: &str, outcome: &CommandOutcome) -> (r: Result<String, HostValueError>)
    ensures
        match command_value_spec(command@, outcome.view()) {
            Ok(v) => r matches Ok(s) && s@ == v,
            Err(f) => r matches Err(e) && e.view() == f,
        },
{
    match outcome {
        CommandOutcome::SpawnFailed { detail } => Err(
            HostValueError::Spawn { command: command.to_owned(), detail: detail.clone() },
        ),
        CommandOutcome::Finished { success, status, stderr, stdout } => {
            if !*success {
                let detail = trim(stderr.as_str());
                if detail.as_str().is_empty() {
                    return Err(
                        HostValueError::Exited { command: command.to_owned(), status: status.clone() },
                    );
                }
                return Err(
                    HostValueError::ExitedWith {
                        command: command.to_owned(),
                        status: status.clone(),
                        detail,
                    },
                );
            }
            match stdout {
                Err(detail) => Err(HostValueError::NotUtf8 { detail: detail.clone() }),
                Ok(out) => {
                    let value = trim(out.as_str());
                    if value.as_str().is_empty() {
                        return Err(HostValueError::EmptyOutput { command: command.to_owned() });
                    }
                    Ok(value)
                },
            }
        },
    }
}

pub open spec fn env_value_spec(name: Seq<char>, var: Result<Seq<char>, Seq<char>>) -> Result<
    Seq<char>,
    HostFault,
> {
    match var {
        Err(detail) => Err(HostFault::EnvNotSet(name, detail)),
        Ok(v) => if trim_spec(v).len() == 0 {
            Err(HostFault::EnvEmpty(name))
        } else {
            Ok(trim_spec(v))
        },
    }
}

/// The value of host environment variable `name`, given what reading it
/// gave: its trimmed value if that is not blank.
pub fn env_value(name: &str, var: &Result<String, String>) -> (r: Result<String, HostValueError>)
    ensures
        match env_value_spec(
            name@,
            match var {
                Ok(v) => Ok(v@),
                Err(d) => Err(d@),
            },
        ) {
            Ok(v) => r matches Ok(s) && s@ == v,
            Err(f) => r matches Err(e) && e.view() == f,
        },
{
    match var {
        Err(detail) => Err(HostValueError::EnvNotSet { name: name.to_owned(), detail: detail.clone() }),
        Ok(v) => {
            let value = trim(v.as_str());
            if value.as_str().is_empty() {
                return Err(HostValueError::EnvEmpty { name: name.to_owned() });
            }
            Ok(value)
        },
    }
}

// ---------------------------------------------------------------------------
// Resolving secrets and host copies
// ---------------------------------------------------------------------------

/// A secret with its value read from the host.
#[derive(Clone, Debug)]
pub struct ResolvedSecret {
    pub env: String,
    pub value: String,
    pub hosts: Vec<String>,
}

#[derive(Clone, Debug)]
pub struct ResolvedSecrets {
    pub found: Vec<ResolvedSecret>,
}

/// Agent state to copy from `host` on the host to `guest` in the VM.
#[derive(Clone, Debug)]
pub struct ResolvedHostCopy {
    pub agent: String,
    pub host: String,
    pub guest: String,
}

pub struct SecretView {
    pub env: Seq<char>,
    pub value: Seq<char>,
    pub hosts: Seq<Seq<char>>,
}

pub struct CopyView {
    pub agent: Seq<char>,
    pub host: Seq<char>,
    pub guest: Seq<char>,
}

pub open spec fn secrets_view(found: Seq<ResolvedSecret>) -> Seq<SecretView> {
    found.map_values(|s: ResolvedSecret| SecretView { env: s.env@, value: s.value@, hosts: strings_view(s.hosts@) })
}

pub open spec fn copies_view(copies: Seq<ResolvedHostCopy>) -> Seq<CopyView> {
    copies.map_values(|c: ResolvedHostCopy| CopyView { agent: c.agent@, host: c.host@, guest: c.guest@ })
}

/// Why resolving the configuration's host values failed.
#[derive(Debug)]
pub enum ResolveError {
    Secret { env: String, error: HostValueError },
    HostCopyValue { agent: String, error: HostValueError },
    HostCopyMissing { agent: String, host: String },
    GuestName { host: String },
}

pub enum ResolveFault {
    Secret(Seq<char>, HostFault),
    HostCopyValue(Seq<char>, HostFault),
    HostCopyMissing(Seq<char>, Seq<char>),
    GuestName(Seq<char>),
}

impl ResolveError {
    pub open spec fn view(&self) -> ResolveFault {
        match self {
            ResolveError::Secret { env, error } => ResolveFault::Secret(env@, error.view()),
            ResolveError::HostCopyValue { agent, error } => ResolveFault::HostCopyValue(
                agent@,
                error.view(),
            ),
            ResolveError::HostCopyMissing { agent, host } => ResolveFault::HostCopyMissing(
                agent@,
                host@,
            ),
            ResolveError::GuestName { host } => ResolveFault::GuestName(host@),
        }
    }

    /// The message, with its causes after colons.
    pub fn message(&self) -> (s: String)
        ensures
            s@ == resolve_fault_message(self.view()),
    {
        let mut out: Vec<char> = Vec::new();
        match self {
            ResolveError::Secret { env, error } => {
                push_str(&mut out, "import secret ");
                push_str(&mut out, env.as_str());
                push_str(&mut out, " from host-env: ");
                let m = error.message();
                push_str(&mut out, m.as_str());
            },
            ResolveError::HostCopyValue { agent, error } => {
                push_str(&mut out, "resolve agent ");
                push_str(&mut out, agent.as_str());
                push_str(&mut out, " host-copy: ");
                let m = error.message();
                push_str(&mut out, m.as_str());
            },
            ResolveError::HostCopyMissing { agent, host } => {
                push_str(&mut out, "agent ");
                push_str(&mut out, agent.as_str());
                push_str(&mut out, " host-copy does not exist: ");
                push_str(&mut out, host.as_str());
            },
            ResolveError::GuestName { host } => {
                push_str(&mut out, "derive guest path from host-copy ");
                push_str(&mut out, host.as_str());
            },
        }
        proof {
            assert(out@ =~= resolve_fault_message(self.view()));
        }
        string_from_chars(&out)
    }
}

pub open spec fn resolve_fault_message(f: ResolveFault) -> Seq<char> {
    match f {
        ResolveFault::Secret(env, e) => "import secret "@ + env + " from host-env: "@
            + host_fault_message(e),
        ResolveFault::HostCopyValue(a, e) => "resolve agent "@ + a + " host-copy: "@
            + host_fault_message(e),
        ResolveFault::HostCopyMissing(a, h) => "agent "@ + a + " host-copy does not exist: "@ + h,
        ResolveFault::GuestName(h) => "derive guest path from host-copy "@ + h,
    }
}

pub open spec fn value_view(v: Result<String, HostValueError>) -> Result<Seq<char>, HostFault> {
    match v {
        Ok(s) => Ok(s@),
        Err(e) => Err(e.view()),
    }
}

/// The secrets of the first `n` specs, given the value read for each; or
/// the first failure.
pub open spec fn secrets_spec(
    specs: Seq<SecretSpec>,
    values: Seq<Result<String, HostValueError>>,
    n: int,
) -> Result<Seq<SecretView>, ResolveFault>
    decreases n,
{
    if n <= 0 {
        Ok(Seq::empty())
    } else {
        match secrets_spec(specs, values, n - 1) {
            Err(f) => Err(f),
            Ok(found) => match value_view(values[n - 1]) {
                Err(e) => Err(ResolveFault::Secret(specs[n - 1].env@, e)),
                Ok(v) => Ok(
                    found.push(
                        SecretView { env: specs[n - 1].env@, value: v, hosts: strings_view(specs[n - 1].hosts@) },
                    ),
                ),
            },
        }
    }
}

proof fn lemma_secrets_spec_err_stays(
    specs: Seq<SecretSpec>,
    values: Seq<Result<String, HostValueError>>,
    k: int,
    n: int,
)
    requires
        0 <= k <= n,
        secrets_spec(specs, values, k) is Err,
    ensures
        secrets_spec(specs, values, n) == secrets_spec(specs, values, k),
    decreases n,
{
    if n > k {
        lemma_secrets_spec_err_stays(specs, values, k, n - 1);
    }
}

/// A secret whose value could not be had stops the resolution: the
/// result is the first such failure, and no secret is resolved.
pub proof fn law_failed_secret_is_fatal(
    specs: Seq<SecretSpec>,
    values: Seq<Result<String, HostValueError>>,
    k: int,
)
    requires
        0 <= k < values.len(),
        values.len() == specs.len(),
        values[k] is Err,
        forall|i: int| 0 <= i < k ==> #[trigger] values[i] is Ok,
    ensures
        secrets_spec(specs, values, values.len() as int) == Err::<Seq<SecretView>, ResolveFault>(
            ResolveFault::Secret(specs[k].env@, values[k]->Err_0.view()),
        ),
{
    lemma_secrets_ok_prefix(specs, values, k);
    lemma_secrets_spec_err_stays(specs, values, k + 1, values.len() as int);
}

proof fn lemma_secrets_ok_prefix(
    specs: Seq<SecretSpec>,
    values: Seq<Result<String, HostValueError>>,
    n: int,
)
    requires
        0 <= n <= values.len(),
        forall|i: int| 0 <= i < n ==> #[trigger] values[i] is Ok,
    ensures
        secrets_spec(specs, values, n) is Ok,
    decreases n,
{
    if n > 0 {
        lemma_secrets_ok_prefix(specs, values, n - 1);
        assert(values[n - 1] is Ok);
    }
}

/// `resolve_secrets`: each configured secret with the value read for it
/// (`values[i]` for `cfg.secrets[i]`), in order; or the first secret whose
/// value could not be had.
pub fn resolve_secrets(cfg: &Config, values: &[Result<String, HostValueError>]) -> (r: Result<
    ResolvedSecrets,
    ResolveError,
>)
    requires
        values@.len() == cfg.secrets@.len(),
    ensures
        match secrets_spec(cfg.secrets@, values@, values@.len() as int) {
            Ok(v) => r matches Ok(s) && secrets_view(s.found@) == v,
            Err(f) => r matches Err(e) && e.view() == f,
        },
{
    let mut found: Vec<ResolvedSecret> = Vec::new();
    assert(secrets_view(found@) =~= Seq::<SecretView>::empty());
    let mut i: usize = 0;
    while i < values.len()
        invariant
            i <= values@.len() == cfg.secrets@.len(),
            secrets_spec(cfg.secrets@, values@, i as int) == Ok::<Seq<SecretView>, ResolveFault>(
                secrets_view(found@),
            ),
        decreases values@.len() - i,
    {
        let spec = &cfg.secrets[i];
        match &values[i] {
            Err(e) => {
                let error = copy_host_error(e);
                proof {
                    lemma_secrets_spec_err_stays(cfg.secrets@, values@, i + 1, values@.len() as int);
                }
                return Err(ResolveError::Secret { env: spec.env.clone(), error });
            },
            Ok(v) => {
                let item = ResolvedSecret {
                    env: spec.env.clone(),
                    value: v.clone(),
                    hosts: strings_from(&spec.hosts, 0),
                };
                let ghost before = found@;
                found.push(item);
                proof {
                    assert(strings_view(spec.hosts@).skip(0) =~= strings_view(spec.hosts@));
                    assert(secrets_view(found@) =~= secrets_view(before).push(
                        SecretView { env: spec.env@, value: v@, hosts: strings_view(spec.hosts@) },
                    ));
                }
            },
        }
        i = i + 1;
    }
    Ok(ResolvedSecrets { found })
}

/// A copy of a host value error.
pub fn copy_host_error(e: &HostValueError) -> (c: HostValueError)
    ensures
        c.view() == e.view(),
{
    match e {
        HostValueError::Unterminated => HostValueError::Unterminated,
        HostValueError::EmptyCommand => HostValueError::EmptyCommand,
        HostValueError::Spawn { command, detail } => HostValueError::Spawn {
            command: command.clone(),
            detail: detail.clone(),
        },
        HostValueError::Exited { command, status } => HostValueError::Exited {
            command: command.clone(),
            status: status.clone(),
        },
        HostValueError::ExitedWith { command, status, detail } => HostValueError::ExitedWith {
            command: command.clone(),
            status: status.clone(),
            detail: detail.clone(),
        },
        HostValueError::NotUtf8 { detail } => HostValueError::NotUtf8 { detail: detail.clone() },
        HostValueError::EmptyOutput { command } => HostValueError::EmptyOutput {
            command: command.clone(),
        },
        HostValueError::EnvName => HostValueError::EnvName,
        HostValueError::EnvNotSet { name, detail } => HostValueError::EnvNotSet {
            name: name.clone(),
            detail: detail.clone(),
        },
        HostValueError::EnvEmpty { name } => HostValueError::EnvEmpty { name: name.clone() },
        HostValueError::EmptyLiteral => HostValueError::EmptyLiteral,
    }
}

/// What the host says about one agent's `host-copy`: the value it resolved
/// to, and whether the path that value names (after `~` expansion) exists.
#[derive(Debug)]
pub struct HostProbe {
    pub value: Result<String, HostValueError>,
    pub exists: bool,
}

/// The copy for one agent, given what the host said about its host-copy.
pub open spec fn host_copy_spec(agent: AgentSpec, probe: HostProbe, home: Seq<char>) -> Result<
    CopyView,
    ResolveFault,
> {
    match value_view(probe.value) {
        Err(e) => Err(ResolveFault::HostCopyValue(agent.name@, e)),
        Ok(v) => {
            let host = expand_tilde_spec(v, home);
            if !probe.exists {
                Err(ResolveFault::HostCopyMissing(agent.name@, host))
            } else {
                match agent.guest {
                    Some(g) => Ok(CopyView { agent: agent.name@, host, guest: g@ }),
                    None => match path_file_name(host) {
                        Some(n) => Ok(CopyView { agent: agent.name@, host, guest: "/root/"@ + n }),
                        None => Err(ResolveFault::GuestName(host)),
                    },
                }
            }
        },
    }
}

/// The copies of the first `n` agents; agents without a host-copy have no
/// probe and give none.
pub open spec fn host_copies_spec(
    agents: Seq<AgentSpec>,
    probes: Seq<Option<HostProbe>>,
    home: Seq<char>,
    n: int,
) -> Result<Seq<CopyView>, ResolveFault>
    decreases n,
{
    if n <= 0 {
        Ok(Seq::empty())
    } else {
        match host_copies_spec(agents, probes, home, n - 1) {
            Err(f) => Err(f),
            Ok(copies) => match probes[n - 1] {
                None => Ok(copies),
                Some(p) => match host_copy_spec(agents[n - 1], p, home) {
                    Err(f) => Err(f),
                    Ok(c) => Ok(copies.push(c)),
                },
            },
        }
    }
}

proof fn lemma_host_copies_err_stays(
    agents: Seq<AgentSpec>,
    probes: Seq<Option<HostProbe>>,
    home: Seq<char>,
    k: int,
    n: int,
)
    requires
        0 <= k <= n,
        host_copies_spec(agents, probes, home, k) is Err,
    ensures
        host_copies_spec(agents, probes, home, n) == host_copies_spec(agents, probes, home, k),
    decreases n,
{
    if n > k {
        lemma_host_copies_err_stays(agents, probes, home, k, n - 1);
    }
}

pub open spec fn copy_view(c: ResolvedHostCopy) -> CopyView {
    CopyView { agent: c.agent@, host: c.host@, guest: c.guest@ }
}

/// One agent's host copy, given what the host said about its host-copy:
/// where the state is on the host (`~` resolved against `home`) and where
/// it goes in the guest; or why it cannot be had.
pub fn resolve_host_copy(agent: &AgentSpec, probe: &HostProbe, home: &str) -> (r: Result<
    ResolvedHostCopy,
    ResolveError,
>)
    ensures
        match host_copy_spec(*agent, *probe, home@) {
            Ok(v) => r matches Ok(c) && copy_view(c) == v,
            Err(f) => r matches Err(e) && e.view() == f,
        },
{
    let value = match &probe.value {
        Err(e) => {
            let error = copy_host_error(e);
            return Err(ResolveError::HostCopyValue { agent: agent.name.clone(), error });
        },
        Ok(v) => v,
    };
    let host = expand_tilde(value.as_str(), home);
    if !probe.exists {
        return Err(ResolveError::HostCopyMissing { agent: agent.name.clone(), host });
    }
    let guest = match &agent.guest {
        Some(g) => g.clone(),
        None => match file_name(host.as_str()) {
            Some(n) => concat("/root/", n.as_str()),
            None => {
                return Err(ResolveError::GuestName { host });
            },
        },
    };
    Ok(ResolvedHostCopy { agent: agent.name.clone(), host, guest })
}

/// `resolve_host_copies`: for each agent with a host-copy, in order, where
/// its state is on the host (`~` resolved against `home`) and where it goes
/// in the guest; or the first agent whose state cannot be had. `probes[i]`
/// is what the host said about `cfg.agents[i]`'s host-copy, present exactly
/// when that agent has one.
pub fn resolve_host_copies(cfg: &Config, home: &str, probes: &[Option<HostProbe>]) -> (r: Result<
    Vec<ResolvedHostCopy>,
    ResolveError,
>)
    requires
        probes@.len() == cfg.agents@.len(),
        forall|i: int|
            0 <= i < probes@.len() ==> (#[trigger] probes@[i] is Some <==> cfg.agents@[i].host_copy
                is Some),
    ensures
        match host_copies_spec(cfg.agents@, probes@, home@, probes@.len() as int) {
            Ok(v) => r matches Ok(c) && copies_view(c@) == v,
            Err(f) => r matches Err(e) && e.view() == f,
        },
{
    let mut copies: Vec<ResolvedHostCopy> = Vec::new();
    assert(copies_view(copies@) =~= Seq::<CopyView>::empty());
    let mut i: usize = 0;
    while i < probes.len()
        invariant
            i <= probes@.len() == cfg.agents@.len(),
            host_copies_spec(cfg.agents@, probes@, home@, i as int) == Ok::<
                Seq<CopyView>,
                ResolveFault,
            >(copies_view(copies@)),
        decreases probes@.len() - i,
    {
        let agent = &cfg.agents[i];
        match &probes[i] {
            None => {},
            Some(probe) => {
                match resolve_host_copy(agent, probe, home) {
                    Err(e) => {
                        proof {
                            lemma_host_copies_err_stays(cfg.agents@, probes@, home@, i + 1, probes@.len() as int);
                        }
                        return Err(e);
                    },
                    Ok(c) => {
                        let ghost before = copies@;
                        copies.push(c);
                        proof {
                            assert(copies_view(copies@) =~= copies_view(before).push(
                                copies_view(copies@).last(),
                            ));
                        }
                    },
                }
            },
        }
        i = i + 1;
    }
    Ok(copies)
}

// ---------------------------------------------------------------------------
// The built-in defaults
// ---------------------------------------------------------------------------

/// The built-in configuration document. A local configuration file is an
/// overlay on it.
pub const DEFAULT_CONFIG_YAML: &'static str = "build:
  cpus: 4
  memory: 4096
  memory_max: 8192

env: {}

secrets:
  - env: GITHUB_TOKEN
    host-env: $(gh auth token)
    hosts:
      - github.com
      - api.github.com
      - \"*.githubusercontent.com\"

network:
  allow_everything: false
  allow_host:
    - github.com
    - .github.com
    - .githubusercontent.com
  deny_host: []

agents:
  - name: pi
    package: mise:pi@latest
    host-copy: ~/.pi
  - name: omp
    package: mise:npm:@oh-my-pi/pi-coding-agent@latest
    host-copy: ~/.omp
  - name: codex
    package: mise:codex@latest
  - name: opencode
    package: mise:opencode@latest
  - name: try
    package: github:tobi/try@latest

layers:
  - id: dotfiles
    script: |
      true
";

} // verus!
