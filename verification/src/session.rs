//! Project VMs: their size, the decision to reuse or replace one, the
//! network and secret rules they get, the command a session runs, and the
//! scripts that bring host state and agent shims into them.

use vstd::prelude::*;
use crate::config::{
    AgentSpec, BuildConfig, Config, PackageError, PackageFault, ResolvedHostCopy,
    agent_name_chars, agent_name_chars_ok,
};
use crate::digest::{short_digest_hex, short_hex};
use crate::methods::strings_view;
use crate::paths::{parent, path_parent};
use crate::shell::{push_joined, push_quoted, shell_join_spec, shell_quote_spec};
use crate::stages::{install_package_spec, mise_install_package, slug_spec, stage_slug};
use crate::text::{
    chars_contain, chars_of, has_prefix, push_chars, push_decimal, push_str,
    slice_chars, string_from_chars, text_eq, decimal,
};

verus! {

// ---------------------------------------------------------------------------
// Resources
// ---------------------------------------------------------------------------

/// The least memory a project VM boots with, in MiB.
pub const SESSION_MEMORY_MIN_MIB: u32 = 4096;

/// The size of a project VM.
#[derive(Clone, Copy, Debug, PartialEq, Eq, Structural)]
pub struct VmResources {
    pub cpus: u8,
    /// Boot memory in MiB.
    pub memory: u32,
    /// Memory ceiling in MiB.
    pub memory_max: u32,
}

pub open spec fn max_u32(a: u32, b: u32) -> u32 {
    if a >= b {
        a
    } else {
        b
    }
}

pub open spec fn min_u32(a: u32, b: u32) -> u32 {
    if a <= b {
        a
    } else {
        b
    }
}

/// The ceiling raised to the session minimum, and the boot memory raised
/// to the minimum and capped by the ceiling.
pub open spec fn balloon_spec(boot: u32, max: u32) -> (u32, u32) {
    let m = max_u32(max, SESSION_MEMORY_MIN_MIB);
    (min_u32(max_u32(boot, SESSION_MEMORY_MIN_MIB), m), m)
}

/// `balloon_memory`: boot memory and ceiling for a project VM. Both are at
/// least the session minimum, and the boot memory is within the ceiling.
pub fn balloon_memory(boot_mib: u32, max_mib: u32) -> (r: (u32, u32))
    ensures
        r == balloon_spec(boot_mib, max_mib),
        SESSION_MEMORY_MIN_MIB <= r.0 <= r.1,
        r.1 == max_u32(max_mib, SESSION_MEMORY_MIN_MIB),
{
    let max = if max_mib >= SESSION_MEMORY_MIN_MIB {
        max_mib
    } else {
        SESSION_MEMORY_MIN_MIB
    };
    let raised = if boot_mib >= SESSION_MEMORY_MIN_MIB {
        boot_mib
    } else {
        SESSION_MEMORY_MIN_MIB
    };
    let boot = if raised <= max {
        raised
    } else {
        max
    };
    (boot, max)
}

/// Ballooning changes nothing a second time, and leaves alone a size that
/// already has at least the minimum at boot and a ceiling above that.
pub proof fn law_balloon_settles(boot: u32, max: u32)
    ensures
        balloon_spec(balloon_spec(boot, max).0, balloon_spec(boot, max).1) == balloon_spec(
            boot,
            max,
        ),
        SESSION_MEMORY_MIN_MIB <= boot <= max ==> balloon_spec(boot, max) == (boot, max),
{
}

/// A size the session cannot have.
#[derive(Debug)]
pub enum ResourceError {
    CpusZero,
}

impl ResourceError {
    pub fn message(&self) -> (s: String)
        ensures
            s@ == "VM CPU count must be greater than zero"@,
    {
        "VM CPU count must be greater than zero".to_owned()
    }
}

/// `vm_resources`: the project VM size: each override where given, else the
/// configured build size, with the memory ballooned. A zero CPU count is
/// refused.
pub fn vm_resources(
    cpus: Option<u8>,
    memory_boot: Option<u32>,
    memory: Option<u32>,
    build: &BuildConfig,
) -> (r: Result<VmResources, ResourceError>)
    ensures
        ({
            let c = match cpus {
                Some(c) => c,
                None => build.cpus,
            };
            let boot = match memory_boot {
                Some(m) => m,
                None => build.memory,
            };
            let max = match memory {
                Some(m) => m,
                None => build.memory_max,
            };
            if c == 0 {
                r is Err
            } else {
                r == Ok::<VmResources, ResourceError>(
                    VmResources {
                        cpus: c,
                        memory: balloon_spec(boot, max).0,
                        memory_max: balloon_spec(boot, max).1,
                    },
                )
            }
        }),
{
    let c = match cpus {
        Some(c) => c,
        None => build.cpus,
    };
    if c == 0 {
        return Err(ResourceError::CpusZero);
    }
    let boot = match memory_boot {
        Some(m) => m,
        None => build.memory,
    };
    let max = match memory {
        Some(m) => m,
        None => build.memory_max,
    };
    let (m, mx) = balloon_memory(boot, max);
    Ok(VmResources { cpus: c, memory: m, memory_max: mx })
}

/// Whether a VM's recorded size is the desired one: CPUs (current and
/// ceiling), boot memory and memory ceiling all equal.
pub fn resources_match(
    cpus: u8,
    max_cpus: u8,
    memory_mib: u32,
    max_memory_mib: u32,
    desired: VmResources,
) -> (b: bool)
    ensures
        b == (cpus == desired.cpus && max_cpus == desired.cpus && memory_mib == desired.memory
            && max_memory_mib == desired.memory_max),
{
    cpus == desired.cpus && max_cpus == desired.cpus && memory_mib == desired.memory
        && max_memory_mib == desired.memory_max
}

// ---------------------------------------------------------------------------
// Opening a session
// ---------------------------------------------------------------------------

/// The label that records which base layout a project VM was cloned from.
pub const BASE_LAYOUT_LABEL: &'static str = "wrap.base-layout";

/// What to do with this directory's project VM.
#[derive(Debug, PartialEq, Eq, Structural)]
pub enum SessionPlan {
    /// Clone a new VM from the base snapshot, replacing any old one.
    /// `replacing` says whether an old one is being replaced on purpose
    /// (a reset, or a VM of another base layout).
    Create { replacing: bool, phase: Option<u8> },
    /// Bring the existing VM up at the desired size.
    Resume,
}

/// The phase shown while an old VM is replaced on request.
pub const PHASE_REPLACING: u8 = 1;

/// The phase shown while a VM of an older base layout is replaced.
pub const PHASE_UPDATING: u8 = 2;

/// The text of a phase.
pub fn phase_text(phase: u8) -> (s: &'static str)
    ensures
        phase == PHASE_REPLACING ==> s@ == "replacing vm"@,
        phase == PHASE_UPDATING ==> s@ == "updating base layout"@,
        phase != PHASE_REPLACING && phase != PHASE_UPDATING ==> s@ == "cloning shared snapshot"@,
{
    if phase == PHASE_REPLACING {
        "replacing vm"
    } else if phase == PHASE_UPDATING {
        "updating base layout"
    } else {
        "cloning shared snapshot"
    }
}

/// `open_or_create_session`'s decision. A reset always creates. Otherwise
/// an existing VM (given by the base-layout label it records, if any) is
/// resumed when it records `base_snapshot`, and replaced when it does not;
/// with no existing VM a new one is created.
pub fn session_plan(reset: bool, existing: &Option<Option<String>>, base_snapshot: &str) -> (p:
    SessionPlan)
    ensures
        reset ==> p == (SessionPlan::Create { replacing: true, phase: Some(PHASE_REPLACING) }),
        !reset ==> match existing {
            None => p == (SessionPlan::Create { replacing: false, phase: None }),
            Some(label) => if (label matches Some(l) && l@ == base_snapshot@) {
                p == SessionPlan::Resume
            } else {
                p == (SessionPlan::Create { replacing: true, phase: Some(PHASE_UPDATING) })
            },
        },
{
    if reset {
        return SessionPlan::Create { replacing: true, phase: Some(PHASE_REPLACING) };
    }
    match existing {
        None => SessionPlan::Create { replacing: false, phase: None },
        Some(label) => {
            let same = match label {
                Some(l) => text_eq(l.as_str(), base_snapshot),
                None => false,
            };
            if same {
                SessionPlan::Resume
            } else {
                SessionPlan::Create { replacing: true, phase: Some(PHASE_UPDATING) }
            }
        },
    }
}

// ---------------------------------------------------------------------------
// Network and secrets
// ---------------------------------------------------------------------------

/// Hosts split into exact domains and domain suffixes: `.example.com` is a
/// suffix, `*.example.com` is the suffix `.example.com`, anything else is a
/// domain. Order is kept within each list.
pub open spec fn classify_spec(hosts: Seq<Seq<char>>) -> (Seq<Seq<char>>, Seq<Seq<char>>)
    decreases hosts.len(),
{
    if hosts.len() == 0 {
        (Seq::empty(), Seq::empty())
    } else {
        let (d, s) = classify_spec(hosts.drop_last());
        let h = hosts.last();
        if has_prefix(h, "."@) {
            (d, s.push(h))
        } else if has_prefix(h, "*."@) {
            (d, s.push("."@ + h.skip(2)))
        } else {
            (d.push(h), s)
        }
    }
}

/// `classify_hosts`.
pub fn classify_hosts(hosts: &[String]) -> (r: (Vec<String>, Vec<String>))
    ensures
        (strings_view(r.0@), strings_view(r.1@)) == classify_spec(strings_view(hosts@)),
{
    proof {
        reveal_strlit(".");
        reveal_strlit("*.");
    }
    let mut domains: Vec<String> = Vec::new();
    let mut suffixes: Vec<String> = Vec::new();
    let mut i: usize = 0;
    while i < hosts.len()
        invariant
            i <= hosts@.len(),
            (strings_view(domains@), strings_view(suffixes@)) == classify_spec(
                strings_view(hosts@).take(i as int),
            ),
        decreases hosts@.len() - i,
    {
        let h = chars_of(hosts[i].as_str());
        proof {
            reveal_strlit(".");
            reveal_strlit("*.");
            assert(strings_view(hosts@).take(i + 1).drop_last() =~= strings_view(hosts@).take(
                i as int,
            ));
            assert(strings_view(hosts@).take(i + 1).last() == h@);
        }
        let ghost d0 = domains@;
        let ghost s0 = suffixes@;
        if h.len() >= 1 && h[0] == '.' {
            assert(h@.take(1) =~= "."@);
            suffixes.push(hosts[i].clone());
            assert(strings_view(suffixes@) =~= strings_view(s0).push(h@));
        } else if h.len() >= 2 && h[0] == '*' && h[1] == '.' {
            assert(!has_prefix(h@, "."@)) by {
                if has_prefix(h@, "."@) {
                    assert(h@.take(1)[0] == '.');
                }
            }
            assert(h@.take(2) =~= "*."@);
            let mut t: Vec<char> = Vec::new();
            t.push('.');
            let rest = slice_chars(&h, 2, h.len());
            push_chars(&mut t, &rest);
            assert(t@ =~= "."@ + h@.skip(2));
            suffixes.push(string_from_chars(&t));
            assert(strings_view(suffixes@) =~= strings_view(s0).push(t@));
        } else {
            assert(!has_prefix(h@, "."@)) by {
                if has_prefix(h@, "."@) {
                    assert(h@.take(1)[0] == '.');
                }
            }
            assert(!has_prefix(h@, "*."@)) by {
                if has_prefix(h@, "*."@) {
                    assert(h@.take(2)[0] == '*');
                    assert(h@.take(2)[1] == '.');
                }
            }
            domains.push(hosts[i].clone());
            assert(strings_view(domains@) =~= strings_view(d0).push(h@));
        }
        i = i + 1;
    }
    assert(strings_view(hosts@).take(hosts@.len() as int) =~= strings_view(hosts@));
    (domains, suffixes)
}

/// How a secret's host is matched: exactly, or as a pattern when it holds
/// a `*`.
#[derive(Debug)]
pub enum HostRule {
    Exact(String),
    Pattern(String),
}

impl HostRule {
    pub open spec fn view(&self) -> (bool, Seq<char>) {
        match self {
            HostRule::Exact(h) => (false, h@),
            HostRule::Pattern(h) => (true, h@),
        }
    }
}

/// The rule for each of a secret's hosts, in order.
pub fn host_rules(hosts: &[String]) -> (r: Vec<HostRule>)
    ensures
        r@.len() == hosts@.len(),
        forall|i: int|
            0 <= i < hosts@.len() ==> (#[trigger] r@[i]).view() == (
                hosts@[i]@.contains('*'),
                hosts@[i]@,
            ),
{
    let mut out: Vec<HostRule> = Vec::new();
    let mut i: usize = 0;
    while i < hosts.len()
        invariant
            i <= hosts@.len(),
            out@.len() == i,
            forall|k: int|
                0 <= k < i ==> (#[trigger] out@[k]).view() == (hosts@[k]@.contains('*'), hosts@[k]@),
        decreases hosts@.len() - i,
    {
        let h = chars_of(hosts[i].as_str());
        if chars_contain(&h, '*') {
            out.push(HostRule::Pattern(hosts[i].clone()));
        } else {
            out.push(HostRule::Exact(hosts[i].clone()));
        }
        i = i + 1;
    }
    out
}

// ---------------------------------------------------------------------------
// The session command
// ---------------------------------------------------------------------------

/// The PATH every guest command starts with.
pub const GUEST_PATH_EXPORT: &'static str = "export PATH=\"/usr/local/bin:/root/.local/bin:/root/.local/share/mise/shims:$PATH\"";

/// The exports of the configured environment, each `; export K=<word>`.
pub open spec fn env_exports_spec(env: Seq<(String, String)>) -> Seq<char>
    decreases env.len(),
{
    if env.len() == 0 {
        Seq::empty()
    } else {
        env_exports_spec(env.drop_last()) + "; export "@ + env.last().0@ + "="@
            + shell_quote_spec(env.last().1@)
    }
}

pub open spec fn guest_exports_spec(cfg: Config) -> Seq<char> {
    GUEST_PATH_EXPORT@ + env_exports_spec(cfg.env@)
}

/// `guest_exports`: the guest PATH, then every configured variable.
pub fn guest_exports(cfg: &Config) -> (s: String)
    requires
        crate::config::env_ordered(cfg.env@),
    ensures
        s@ == guest_exports_spec(*cfg),
{
    let mut out: Vec<char> = Vec::new();
    push_str(&mut out, GUEST_PATH_EXPORT);
    let mut i: usize = 0;
    while i < cfg.env.len()
        invariant
            i <= cfg.env@.len(),
            out@ == GUEST_PATH_EXPORT@ + env_exports_spec(cfg.env@.take(i as int)),
        decreases cfg.env@.len() - i,
    {
        push_str(&mut out, "; export ");
        push_str(&mut out, cfg.env[i].0.as_str());
        push_str(&mut out, "=");
        let v = chars_of(cfg.env[i].1.as_str());
        push_quoted(&mut out, &v);
        proof {
            assert(cfg.env@.take(i + 1).drop_last() =~= cfg.env@.take(i as int));
        }
        i = i + 1;
        assert(out@ =~= GUEST_PATH_EXPORT@ + env_exports_spec(cfg.env@.take(i as int)));
    }
    assert(cfg.env@.take(cfg.env@.len() as int) =~= cfg.env@);
    string_from_chars(&out)
}

/// The login-shell script of a session: the exports, then the command
/// (quoted), or an interactive login zsh when there is none.
pub open spec fn session_script_spec(cfg: Config, command: Seq<Seq<char>>) -> Seq<char> {
    guest_exports_spec(cfg) + "; exec "@ + if command.len() == 0 {
        "/bin/zsh -l"@
    } else {
        shell_join_spec(command)
    }
}

/// `guest_command`: the program and arguments a session runs:
/// `/bin/zsh -l -c <script>`.
pub fn guest_command(cfg: &Config, command: &[String]) -> (r: (String, Vec<String>))
    requires
        crate::config::env_ordered(cfg.env@),
    ensures
        r.0@ == "/bin/zsh"@,
        strings_view(r.1@) == seq!["-l"@, "-c"@, session_script_spec(*cfg, strings_view(command@))],
{
    let exports = guest_exports(cfg);
    let mut script = chars_of(exports.as_str());
    push_str(&mut script, "; exec ");
    if command.len() == 0 {
        push_str(&mut script, "/bin/zsh -l");
    } else {
        push_joined(&mut script, command);
    }
    let mut args: Vec<String> = Vec::new();
    args.push("-l".to_owned());
    args.push("-c".to_owned());
    args.push(string_from_chars(&script));
    assert(strings_view(args@) =~= seq!["-l"@, "-c"@, session_script_spec(*cfg, strings_view(command@))]);
    ("/bin/zsh".to_owned(), args)
}

/// `secrets_need_git_header`: every session but `true` gets git's GitHub
/// authorization header.
pub fn secrets_need_git_header(command: &[String]) -> (b: bool)
    ensures
        b == (command@.len() == 0 || command@[0]@ != "true"@),
{
    if command.len() == 0 {
        return true;
    }
    !text_eq(command[0].as_str(), "true")
}

/// Configures git in the guest to send the GitHub token.
pub const GIT_HEADER_SCRIPT: &'static str = r#"git config --global http.https://github.com/.extraheader "AUTHORIZATION: bearer $GITHUB_TOKEN""#;

/// The exit status of an attached session: a negative code counts as 0,
/// any other keeps its low eight bits.
pub fn attach_exit_code(code: i32) -> (b: u8)
    ensures
        code < 0 ==> b == 0,
        code >= 0 ==> b == code as u8,
{
    if code < 0 {
        0
    } else {
        code as u8
    }
}

/// The exit status of a finished command: the low eight bits of its code.
pub fn exec_exit_code(code: i32) -> (b: u8)
    ensures
        b == code as u8,
{
    code as u8
}

// ---------------------------------------------------------------------------
// Names
// ---------------------------------------------------------------------------

/// A project VM's name: `wrap-` and the first 8 bytes, in hex, of the
/// SHA-256 of the project's real path.
pub open spec fn sandbox_name_spec(real_path: Seq<char>) -> Seq<char> {
    "wrap-"@ + short_hex(vstd::utf8::encode_utf8(real_path), 8)
}

/// `sandbox_name_from_real`.
pub fn sandbox_name_from_real(real_path: &str) -> (s: String)
    ensures
        s@ == sandbox_name_spec(real_path@),
        s@.len() == 21,
        s@.take(5) == "wrap-"@,
{
    proof {
        reveal_strlit("wrap-");
    }
    let mut out: Vec<char> = Vec::new();
    push_str(&mut out, "wrap-");
    let hex = short_digest_hex(real_path.as_bytes(), 8);
    push_chars(&mut out, &hex);
    assert(out@.take(5) =~= "wrap-"@);
    string_from_chars(&out)
}

/// Two different project paths never reach the digest that names their VMs
/// as the same input.
pub proof fn law_distinct_paths_reach_digest(a: Seq<char>, b: Seq<char>)
    requires
        a != b,
    ensures
        vstd::utf8::encode_utf8(a) != vstd::utf8::encode_utf8(b),
{
    vstd::utf8::encode_utf8_decode_utf8(a);
    vstd::utf8::encode_utf8_decode_utf8(b);
}

/// A project VM's name is `wrap-` and the digest of bytes that are the
/// UTF-8 encoding of the whole real path: the hashed bytes decode to that
/// path and to no other, so different paths are hashed as different inputs.
pub proof fn law_sandbox_name_hashes_whole_path(a: Seq<char>, b: Seq<char>)
    ensures
        exists|x: Seq<u8>|
            #![trigger short_hex(x, 8)]
            vstd::utf8::valid_utf8(x) && vstd::utf8::decode_utf8(x) == a && sandbox_name_spec(a)
                == "wrap-"@ + short_hex(x, 8),
        exists|xa: Seq<u8>, xb: Seq<u8>|
            #![trigger short_hex(xa, 8), short_hex(xb, 8)]
            sandbox_name_spec(a) == "wrap-"@ + short_hex(xa, 8) && sandbox_name_spec(b) == "wrap-"@
                + short_hex(xb, 8) && (xa == xb <==> a == b),
{
    let xa = vstd::utf8::encode_utf8(a);
    let xb = vstd::utf8::encode_utf8(b);
    vstd::utf8::encode_utf8_valid_utf8(a);
    vstd::utf8::encode_utf8_decode_utf8(a);
    vstd::utf8::encode_utf8_decode_utf8(b);
    assert(sandbox_name_spec(a) == "wrap-"@ + short_hex(xa, 8));
    assert(sandbox_name_spec(b) == "wrap-"@ + short_hex(xb, 8));
}

/// An empty environment exports only the guest PATH.
pub proof fn law_exports_of_empty_env(cfg: Config)
    requires
        cfg.env@.len() == 0,
    ensures
        guest_exports_spec(cfg) == GUEST_PATH_EXPORT@,
{
    assert(GUEST_PATH_EXPORT@ + Seq::<char>::empty() =~= GUEST_PATH_EXPORT@);
}

/// Adding a variable to the end of the environment adds exactly its export
/// to the end of the exports: every configured variable is exported, in
/// order, as `; export K=<quoted V>`.
pub proof fn law_exports_grow_by_entry(c1: Config, c2: Config, k: String, v: String)
    requires
        c2.env@ == c1.env@.push((k, v)),
    ensures
        guest_exports_spec(c2) == guest_exports_spec(c1) + "; export "@ + k@ + "="@
            + shell_quote_spec(v@),
{
    assert(c2.env@.drop_last() =~= c1.env@);
    assert(guest_exports_spec(c2) =~= guest_exports_spec(c1) + "; export "@ + k@ + "="@
        + shell_quote_spec(v@));
}

/// The name of the VM that builds a stage: `wrap-build-<slug>`.
pub fn build_sandbox_name(id: &str) -> (s: String)
    ensures
        s@ == "wrap-build-"@ + slug_spec(id@),
{
    let mut out: Vec<char> = Vec::new();
    push_str(&mut out, "wrap-build-");
    let slug = stage_slug(id);
    push_chars(&mut out, &slug);
    string_from_chars(&out)
}

/// The host's name as shown to the guest: `$HOSTNAME` if it is set and not
/// empty, else the system's host name if it is readable, else `host`.
pub fn pick_hostname(env_hostname: Option<String>, system: Option<String>) -> (s: String)
    ensures
        match env_hostname {
            Some(h) if h@.len() > 0 => s@ == h@,
            _ => match system {
                Some(n) => s@ == n@,
                None => s@ == "host"@,
            },
        },
{
    match env_hostname {
        Some(h) => {
            if !h.as_str().is_empty() {
                return h;
            }
        },
        None => {},
    }
    match system {
        Some(n) => n,
        None => "host".to_owned(),
    }
}

// ---------------------------------------------------------------------------
// Host state
// ---------------------------------------------------------------------------

/// The bytes hashed to mark an imported set of host copies: each copy's
/// agent, host path and guest path, each followed by a zero byte.
pub open spec fn marker_bytes(copies: Seq<ResolvedHostCopy>) -> Seq<u8>
    decreases copies.len(),
{
    if copies.len() == 0 {
        Seq::empty()
    } else {
        let c = copies.last();
        marker_bytes(copies.drop_last()) + vstd::utf8::encode_utf8(c.agent@) + seq![0u8]
            + vstd::utf8::encode_utf8(c.host@) + seq![0u8] + vstd::utf8::encode_utf8(c.guest@)
            + seq![0u8]
    }
}

/// The guest file whose presence says that these copies were imported:
/// `/var/lib/wrap/host-copy-` and the first 4 bytes, in hex, of the
/// SHA-256 of `marker_bytes`; none when nothing is copied.
pub open spec fn marker_spec(copies: Seq<ResolvedHostCopy>) -> Option<Seq<char>> {
    if copies.len() == 0 {
        None
    } else {
        Some("/var/lib/wrap/host-copy-"@ + short_hex(marker_bytes(copies), 4))
    }
}

fn push_bytes(out: &mut Vec<u8>, b: &[u8])
    ensures
        final(out)@ == old(out)@ + b@,
{
    let ghost start = out@;
    let mut i: usize = 0;
    while i < b.len()
        invariant
            i <= b@.len(),
            out@ == start + b@.take(i as int),
        decreases b@.len() - i,
    {
        out.push(b[i]);
        i = i + 1;
        assert(out@ =~= start + b@.take(i as int));
    }
    assert(b@.take(b@.len() as int) =~= b@);
}

/// `host_copy_marker`.
pub fn host_copy_marker(copies: &[ResolvedHostCopy]) -> (r: Option<String>)
    ensures
        match marker_spec(copies@) {
            Some(m) => r matches Some(s) && s@ == m,
            None => r is None,
        },
{
    if copies.len() == 0 {
        return None;
    }
    let mut bytes: Vec<u8> = Vec::new();
    let mut i: usize = 0;
    while i < copies.len()
        invariant
            i <= copies@.len(),
            bytes@ == marker_bytes(copies@.take(i as int)),
        decreases copies@.len() - i,
    {
        let c = &copies[i];
        push_bytes(&mut bytes, c.agent.as_str().as_bytes());
        bytes.push(0u8);
        push_bytes(&mut bytes, c.host.as_str().as_bytes());
        bytes.push(0u8);
        push_bytes(&mut bytes, c.guest.as_str().as_bytes());
        bytes.push(0u8);
        proof {
            assert(copies@.take(i + 1).drop_last() =~= copies@.take(i as int));
        }
        i = i + 1;
        assert(bytes@ =~= marker_bytes(copies@.take(i as int)));
    }
    assert(copies@.take(copies@.len() as int) =~= copies@);
    let mut out: Vec<char> = Vec::new();
    push_str(&mut out, "/var/lib/wrap/host-copy-");
    let hex = short_digest_hex(bytes.as_slice(), 4);
    push_chars(&mut out, &hex);
    Some(string_from_chars(&out))
}

/// Records, in the guest, that the host state named by `marker` is there.
pub fn marker_script(marker: &str) -> (s: String)
    ensures
        s@ == "mkdir -p /var/lib/wrap && : > "@ + shell_quote_spec(marker@),
{
    let mut out: Vec<char> = Vec::new();
    push_str(&mut out, "mkdir -p /var/lib/wrap && : > ");
    let m = chars_of(marker);
    push_quoted(&mut out, &m);
    string_from_chars(&out)
}

/// Clears the staging files of an earlier, interrupted host copy.
pub const HOST_COPY_STAGING_SCRIPT: &'static str = "set -eu\nmkdir -p /var/lib/wrap\nrm -f /tmp/.wrap-host-copy.tar /var/lib/wrap/.host-copy.tar\n";

/// Where a host directory's archive is staged in the guest.
pub const GUEST_ARCHIVE: &'static str = "/var/lib/wrap/.host-copy.tar";

/// Creates the directory a host copy goes into: the parent of `guest`;
/// none when `guest` has no parent.
pub fn host_copy_mkdir_script(guest: &str) -> (r: Option<String>)
    ensures
        match path_parent(guest@) {
            Some(p) => r matches Some(s) && s@ == "mkdir -p "@ + shell_quote_spec(p),
            None => r is None,
        },
{
    match parent(guest) {
        None => None,
        Some(p) => {
            let mut out: Vec<char> = Vec::new();
            push_str(&mut out, "mkdir -p ");
            let c = chars_of(p.as_str());
            push_quoted(&mut out, &c);
            Some(string_from_chars(&out))
        },
    }
}

/// Replaces `guest` with the contents of the staged archive, then removes
/// the archive.
pub open spec fn extract_script_spec(guest: Seq<char>, archive: Seq<char>) -> Seq<char> {
    let g = shell_quote_spec(guest);
    let a = shell_quote_spec(archive);
    "set -eu\nrm -rf "@ + g + "\nmkdir -p "@ + g + "\ntar -xf "@ + a + " -C "@ + g + "\nrm -f "@
        + a + "\n"@
}

pub fn extract_script(guest: &str, archive: &str) -> (s: String)
    ensures
        s@ == extract_script_spec(guest@, archive@),
{
    let g = chars_of(guest);
    let a = chars_of(archive);
    let mut out: Vec<char> = Vec::new();
    push_str(&mut out, "set -eu\nrm -rf ");
    push_quoted(&mut out, &g);
    push_str(&mut out, "\nmkdir -p ");
    push_quoted(&mut out, &g);
    push_str(&mut out, "\ntar -xf ");
    push_quoted(&mut out, &a);
    push_str(&mut out, " -C ");
    push_quoted(&mut out, &g);
    push_str(&mut out, "\nrm -f ");
    push_quoted(&mut out, &a);
    push_str(&mut out, "\n");
    assert(out@ =~= extract_script_spec(guest@, archive@));
    string_from_chars(&out)
}

/// The parent directory `wrap write` creates first: the parent of `path`,
/// unless it has none or it is empty.
pub fn write_parent(path: &str) -> (r: Option<String>)
    ensures
        match path_parent(path@) {
            Some(p) if p.len() > 0 => r matches Some(s) && s@ == p,
            _ => r is None,
        },
{
    match parent(path) {
        Some(p) => {
            if p.as_str().is_empty() {
                None
            } else {
                Some(p)
            }
        },
        None => None,
    }
}

// ---------------------------------------------------------------------------
// Agent shims
// ---------------------------------------------------------------------------

/// Why the agent shims cannot be written.
#[derive(Debug)]
pub enum ShimError {
    Name { name: String },
    Package { error: PackageError },
}

pub enum ShimFault {
    Name(Seq<char>),
    Package(PackageFault),
}

impl ShimError {
    pub open spec fn view(&self) -> ShimFault {
        match self {
            ShimError::Name { name } => ShimFault::Name(name@),
            ShimError::Package { error } => ShimFault::Package(error.view()),
        }
    }

    pub fn message(&self) -> (s: String)
        ensures
            s@ == match self.view() {
                ShimFault::Name(n) => "invalid agent shim name: "@ + n,
                ShimFault::Package(f) => crate::config::package_fault_message(f),
            },
    {
        match self {
            ShimError::Name { name } => crate::text::concat("invalid agent shim name: ", name.as_str()),
            ShimError::Package { error } => error.message(),
        }
    }
}

/// One agent's shim: `/usr/local/bin/<name>` runs the agent through
/// `mise exec` with its install package.
pub open spec fn shim_spec(name: Seq<char>, package: Seq<char>) -> Seq<char> {
    let path = shell_quote_spec("/usr/local/bin/"@ + name);
    "cat > "@ + path + " <<'WRAP_SHIM'\n#!/bin/sh\nexec mise exec "@ + shell_quote_spec(package)
        + " -- "@ + shell_quote_spec(name) + " \"$@\"\nWRAP_SHIM\nchmod 0755 "@ + path + "\n"@
}

/// The shims of the first `n` agents, or the first failure.
pub open spec fn shims_spec(agents: Seq<AgentSpec>, n: int) -> Result<Seq<char>, ShimFault>
    decreases n,
{
    if n <= 0 {
        Ok("set -eu\nmkdir -p /usr/local/bin\n"@)
    } else {
        match shims_spec(agents, n - 1) {
            Err(f) => Err(f),
            Ok(s) => {
                let a = agents[n - 1];
                if !agent_name_chars(a.name@) {
                    Err(ShimFault::Name(a.name@))
                } else {
                    match install_package_spec(a.package@) {
                        Err(f) => Err(ShimFault::Package(f)),
                        Ok(p) => Ok(s + shim_spec(a.name@, p)),
                    }
                }
            },
        }
    }
}

proof fn lemma_shims_err_stays(agents: Seq<AgentSpec>, k: int, n: int)
    requires
        0 <= k <= n,
        shims_spec(agents, k) is Err,
    ensures
        shims_spec(agents, n) == shims_spec(agents, k),
    decreases n,
{
    if n > k {
        lemma_shims_err_stays(agents, k, n - 1);
    }
}

fn push_shim(out: &mut Vec<char>, name: &str, package: &str)
    ensures
        final(out)@ == old(out)@ + shim_spec(name@, package@),
{
    let ghost before = out@;
    let mut path: Vec<char> = Vec::new();
    push_str(&mut path, "/usr/local/bin/");
    push_str(&mut path, name);
    push_str(out, "cat > ");
    push_quoted(out, &path);
    push_str(out, " <<'WRAP_SHIM'\n#!/bin/sh\nexec mise exec ");
    let p = chars_of(package);
    push_quoted(out, &p);
    push_str(out, " -- ");
    let n = chars_of(name);
    push_quoted(out, &n);
    push_str(out, " \"$@\"\nWRAP_SHIM\nchmod 0755 ");
    push_quoted(out, &path);
    push_str(out, "\n");
    assert(out@ =~= before + shim_spec(name@, package@));
}

/// `install_agent_shims`' script: none when there are no agents.
pub fn agent_shims_script(agents: &[AgentSpec]) -> (r: Result<Option<String>, ShimError>)
    ensures
        agents@.len() == 0 ==> r matches Ok(None),
        agents@.len() > 0 ==> match shims_spec(agents@, agents@.len() as int) {
            Ok(s) => r matches Ok(Some(t)) && t@ == s,
            Err(f) => r matches Err(e) && e.view() == f,
        },
{
    if agents.len() == 0 {
        return Ok(None);
    }
    let mut out: Vec<char> = Vec::new();
    push_str(&mut out, "set -eu\nmkdir -p /usr/local/bin\n");
    let mut i: usize = 0;
    while i < agents.len()
        invariant
            i <= agents@.len(),
            shims_spec(agents@, i as int) == Ok::<Seq<char>, ShimFault>(out@),
        decreases agents@.len() - i,
    {
        let a = &agents[i];
        if !agent_name_chars_ok(a.name.as_str()) {
            proof {
                lemma_shims_err_stays(agents@, i + 1, agents@.len() as int);
            }
            return Err(ShimError::Name { name: a.name.clone() });
        }
        let package = match mise_install_package(a.package.as_str()) {
            Ok(p) => p,
            Err(error) => {
                proof {
                    lemma_shims_err_stays(agents@, i + 1, agents@.len() as int);
                }
                return Err(ShimError::Package { error });
            },
        };
        push_shim(&mut out, a.name.as_str(), package.as_str());
        i = i + 1;
    }
    Ok(Some(string_from_chars(&out)))
}

// ---------------------------------------------------------------------------
// Layer setup
// ---------------------------------------------------------------------------

/// How a layer's setup went wrong: the label shown on its line, and the
/// error reported.
#[derive(Debug)]
pub struct SetupFailure {
    pub label: String,
    pub message: String,
}

/// The verdict on a layer's setup script from its exit code, if it
/// reported one: success on 0; otherwise the label `exit <code>` and
/// `layer <id> failed`, or, without a code, `no exit code` and
/// `layer <id> ended without an exit code`.
pub fn setup_verdict(layer_id: &str, code: Option<i32>) -> (r: Result<(), SetupFailure>)
    ensures
        match code {
            Some(0) => r is Ok,
            Some(c) => r matches Err(f) && f.label@ == "exit "@ + int_text(c as int)
                && f.message@ == "layer "@ + layer_id@ + " failed"@,
            None => r matches Err(f) && f.label@ == "no exit code"@ && f.message@ == "layer "@
                + layer_id@ + " ended without an exit code"@,
        },
{
    match code {
        Some(0) => Ok(()),
        Some(c) => {
            let mut label: Vec<char> = Vec::new();
            push_str(&mut label, "exit ");
            push_int(&mut label, c);
            Err(
                SetupFailure {
                    label: string_from_chars(&label),
                    message: concat3("layer ", layer_id, " failed"),
                },
            )
        },
        None => Err(
            SetupFailure {
                label: "no exit code".to_owned(),
                message: concat3("layer ", layer_id, " ended without an exit code"),
            },
        ),
    }
}

/// The message when a layer's setup could not start: `layer <id> failed
/// to start: <detail>`.
pub fn setup_start_failure(layer_id: &str, detail: &str) -> (f: SetupFailure)
    ensures
        f.label@ == "failed to start"@,
        f.message@ == "layer "@ + layer_id@ + " failed to start: "@ + detail@,
{
    let mut m: Vec<char> = Vec::new();
    push_str(&mut m, "layer ");
    push_str(&mut m, layer_id);
    push_str(&mut m, " failed to start: ");
    push_str(&mut m, detail);
    SetupFailure { label: "failed to start".to_owned(), message: string_from_chars(&m) }
}

fn concat3(a: &str, b: &str, c: &str) -> (s: String)
    ensures
        s@ == a@ + b@ + c@,
{
    let mut out: Vec<char> = Vec::new();
    push_str(&mut out, a);
    push_str(&mut out, b);
    push_str(&mut out, c);
    string_from_chars(&out)
}

/// A signed integer as `Display` writes it.
pub open spec fn int_text(n: int) -> Seq<char> {
    if n < 0 {
        "-"@ + decimal((-n) as nat)
    } else {
        decimal(n as nat)
    }
}

fn push_int(out: &mut Vec<char>, n: i32)
    ensures
        final(out)@ == old(out)@ + int_text(n as int),
{
    proof {
        reveal_strlit("-");
    }
    if n < 0 {
        out.push('-');
        let m: u64 = (0i64 - n as i64) as u64;
        push_decimal(out, m);
    } else {
        push_decimal(out, n as u64);
    }
}

} // verus!
