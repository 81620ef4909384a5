//! The layered base image: the stages it is built in, the setup script of
//! each, and the snapshot name of each.
//!
//! A stage's snapshot name carries a digest of the image and of every stage
//! definition up to and including it, so a stage is rebuilt exactly when it
//! or an earlier stage changes.

use vstd::prelude::*;
use crate::config::{
    mise_package, mise_package_spec, AgentSpec, Config, PackageError, PackageFault,
};
use crate::digest::{short_digest_hex, short_hex};
use crate::shell::{build_preamble, build_script, push_shell_arg, shell_quote_spec};
use crate::text::{
    chars_of, decimal, first_index_of, is_ascii_alnum, is_ascii_alnum_char, lemma_first_index_of,
    push_chars, push_decimal, push_str, slice_chars, string_from_chars, text_eq,
};

verus! {

/// The OCI image the first stage starts from.
pub const IMAGE: &'static str = "archlinux";

/// The prefix of every shared snapshot name.
pub const BASE_SNAPSHOT_PREFIX: &'static str = "wrap-arch";

/// The prompt configuration installed into the image.
pub const STARSHIP_TOML: &'static str = r#"add_newline = false
format = "[\\[vm:$hostname\\]](bold purple) $directory$character"

[hostname]
ssh_only = false
format = "$hostname"

[directory]
truncation_length = 3
truncate_to_repo = false

[character]
success_symbol = "[❯](bold green)"
error_symbol = "[❯](bold red)"
"#;

/// The system stage, up to its package list.
pub const SYSTEM_HEAD: &'static str = r#"if ! command -v pacman >/dev/null 2>&1; then
  echo "wrap requires its built-in Arch image" >&2
  exit 1
fi
pacman-key --init || true
pacman-key --populate archlinux || true
pacman -Sy --noconfirm archlinux-keyring
pacman -Syu --noconfirm
pacman -S --needed --noconfirm --"#;

/// The system stage, from its package list to the prompt configuration.
pub const SYSTEM_SHELLS: &'static str = r#"
if ! grep -qx '/bin/zsh' /etc/shells 2>/dev/null; then
  echo /bin/zsh >> /etc/shells
fi
if ! grep -qx '/usr/bin/zsh' /etc/shells 2>/dev/null; then
  echo /usr/bin/zsh >> /etc/shells
fi
chsh -s /bin/zsh root || true
mkdir -p /workspace /root/.omp /etc/zsh /etc/wrap
cat > /etc/profile.d/wrap.sh <<'WRAP_ENV'
export PATH="/usr/local/bin:/root/.local/bin:/root/.local/share/mise/shims:$PATH"
export STARSHIP_CONFIG=/etc/wrap/starship.toml
WRAP_ENV
cat > /etc/wrap/starship.toml <<'WRAP_STARSHIP'
"#;

/// The system stage, after the prompt configuration.
pub const SYSTEM_TAIL: &'static str = r#"WRAP_STARSHIP
cat > /etc/zsh/zshenv <<'WRAP_ZSH'
export PATH="/usr/local/bin:/root/.local/bin:/root/.local/share/mise/shims:$PATH"
export STARSHIP_CONFIG=/etc/wrap/starship.toml
if [[ -o interactive && -t 1 ]]; then
  eval "$(/usr/bin/mise activate zsh)"
  eval "$(starship init zsh)"
  if command -v try >/dev/null 2>&1; then
    eval "$(try init)"
    alias t=try
  fi
fi
WRAP_ZSH
"#;

/// The head of the agents stage.
pub const MISE_USE: &'static str = "mise use --global --pin --yes --jobs 4 --";

// ---------------------------------------------------------------------------
// Setup scripts
// ---------------------------------------------------------------------------

pub open spec fn strs_view(v: Seq<&str>) -> Seq<Seq<char>> {
    v.map_values(|s: &str| s@)
}

/// The packages of the system stage.
pub open spec fn base_packages_spec() -> Seq<Seq<char>> {
    seq![
        "archlinux-keyring"@, "base-devel"@, "ca-certificates"@, "clang"@, "cmake"@, "curl"@,
        "eza"@, "fd"@, "gdb"@, "git"@, "gnupg"@, "mise"@, "ninja"@, "openssh"@, "python"@,
        "python-pip"@, "ripgrep"@, "sudo"@, "tar"@, "unzip"@, "which"@, "zsh"@,
    ]
}

/// The packages of the system stage.
pub fn base_packages() -> (v: Vec<&'static str>)
    ensures
        strs_view(v@) == base_packages_spec(),
{
    let mut v: Vec<&'static str> = Vec::new();
    v.push("archlinux-keyring");
    v.push("base-devel");
    v.push("ca-certificates");
    v.push("clang");
    v.push("cmake");
    v.push("curl");
    v.push("eza");
    v.push("fd");
    v.push("gdb");
    v.push("git");
    v.push("gnupg");
    v.push("mise");
    v.push("ninja");
    v.push("openssh");
    v.push("python");
    v.push("python-pip");
    v.push("ripgrep");
    v.push("sudo");
    v.push("tar");
    v.push("unzip");
    v.push("which");
    v.push("zsh");
    assert(strs_view(v@) =~= base_packages_spec());
    v
}

/// The mise tools every image gets besides the agents.
pub open spec fn base_mise_tools_spec() -> Seq<Seq<char>> {
    seq!["ruby@latest"@, "starship@latest"@]
}

/// Each word as ` <shell word>`.
pub open spec fn shell_args_spec(words: Seq<Seq<char>>) -> Seq<char>
    decreases words.len(),
{
    if words.len() == 0 {
        Seq::empty()
    } else {
        shell_args_spec(words.drop_last()) + " "@ + shell_quote_spec(words.last())
    }
}

fn push_shell_args(out: &mut Vec<char>, words: &[&str])
    ensures
        final(out)@ == old(out)@ + shell_args_spec(strs_view(words@)),
{
    let ghost start = out@;
    let mut i: usize = 0;
    while i < words.len()
        invariant
            i <= words@.len(),
            out@ == start + shell_args_spec(strs_view(words@).take(i as int)),
        decreases words@.len() - i,
    {
        push_shell_arg(out, words[i]);
        proof {
            let t = strs_view(words@).take(i + 1);
            assert(t.drop_last() =~= strs_view(words@).take(i as int));
        }
        i = i + 1;
        assert(out@ =~= start + shell_args_spec(strs_view(words@).take(i as int)));
    }
    assert(strs_view(words@).take(words@.len() as int) =~= strs_view(words@));
}

/// The script of the system stage.
pub open spec fn system_script_spec() -> Seq<char> {
    build_preamble() + SYSTEM_HEAD@ + shell_args_spec(base_packages_spec()) + SYSTEM_SHELLS@
        + STARSHIP_TOML@ + SYSTEM_TAIL@
}

/// `arch_system_script`: updates the Arch guest, installs the base
/// packages, makes zsh the root shell and installs the prompt.
pub fn arch_system_script() -> (s: Vec<char>)
    ensures
        s@ == system_script_spec(),
{
    let mut script = build_script(SYSTEM_HEAD);
    let packages = base_packages();
    push_shell_args(&mut script, &packages);
    push_str(&mut script, SYSTEM_SHELLS);
    push_str(&mut script, STARSHIP_TOML);
    push_str(&mut script, SYSTEM_TAIL);
    assert(script@ =~= system_script_spec());
    script
}

/// The tool spec mise installs for a package: the package's mise spec,
/// with the `github:tobi/try` tool replaced by its gem, `gem:try-cli`, and
/// any `@version` kept.
pub open spec fn install_package_spec(package: Seq<char>) -> Result<Seq<char>, PackageFault> {
    match mise_package_spec(package) {
        Err(f) => Err(f),
        Ok(spec) => {
            let at = first_index_of(spec, '@');
            let name = if at >= 0 {
                spec.take(at)
            } else {
                spec
            };
            let tool = if name == "github:tobi/try"@ {
                "gem:try-cli"@
            } else {
                name
            };
            Ok(
                if at >= 0 {
                    tool + "@"@ + spec.skip(at + 1)
                } else {
                    tool
                },
            )
        },
    }
}

/// `mise_install_package`: what `mise use` installs for `package`.
pub fn mise_install_package(package: &str) -> (r: Result<String, PackageError>)
    ensures
        match install_package_spec(package@) {
            Ok(s) => r matches Ok(t) && t@ == s,
            Err(f) => r matches Err(e) && e.view() == f,
        },
{
    let spec = mise_package(package)?;
    let c = chars_of(spec.as_str());
    let at = crate::text::find_char(&c, '@');
    proof {
        lemma_first_index_of(c@, '@');
        reveal_strlit("github:tobi/try");
        reveal_strlit("gem:try-cli");
        reveal_strlit("@");
    }
    let name: Vec<char> = match at {
        Some(k) => slice_chars(&c, 0, k),
        None => slice_chars(&c, 0, c.len()),
    };
    assert(at is None ==> name@ =~= c@);
    let name_str = string_from_chars(&name);
    let mut out: Vec<char> = Vec::new();
    if text_eq(name_str.as_str(), "github:tobi/try") {
        push_str(&mut out, "gem:try-cli");
    } else {
        push_chars(&mut out, &name);
    }
    match at {
        Some(k) => {
            out.push('@');
            assert(k < c@.len());
            assert(c@.len() == c.len());
            let version = slice_chars(&c, k + 1, c.len());
            push_chars(&mut out, &version);
            assert(version@ =~= c@.skip(k + 1));
        },
        None => {},
    }
    Ok(string_from_chars(&out))
}

/// Adds `p` unless it is already there.
pub open spec fn add_unique(seen: Seq<Seq<char>>, p: Seq<char>) -> Seq<Seq<char>> {
    if seen.contains(p) {
        seen
    } else {
        seen.push(p)
    }
}

/// The tools of the agents stage for the first `n` agents: the base tools,
/// then each agent's install package in order, each tool once.
pub open spec fn agent_tools_spec(agents: Seq<AgentSpec>, n: int) -> Result<
    Seq<Seq<char>>,
    PackageFault,
>
    decreases n,
{
    if n <= 0 {
        Ok(base_mise_tools_spec())
    } else {
        match agent_tools_spec(agents, n - 1) {
            Err(f) => Err(f),
            Ok(seen) => match install_package_spec(agents[n - 1].package@) {
                Err(f) => Err(f),
                Ok(p) => Ok(add_unique(seen, p)),
            },
        }
    }
}

/// The script of the agents stage.
pub open spec fn agents_script_spec(agents: Seq<AgentSpec>) -> Result<Seq<char>, PackageFault> {
    match agent_tools_spec(agents, agents.len() as int) {
        Err(f) => Err(f),
        Ok(tools) => Ok(build_preamble() + MISE_USE@ + shell_args_spec(tools) + "\n"@),
    }
}

proof fn lemma_agent_tools_err_stays(agents: Seq<AgentSpec>, k: int, n: int)
    requires
        0 <= k <= n,
        agent_tools_spec(agents, k) is Err,
    ensures
        agent_tools_spec(agents, n) == agent_tools_spec(agents, k),
    decreases n,
{
    if n > k {
        lemma_agent_tools_err_stays(agents, k, n - 1);
    }
}

fn contains_text(v: &Vec<String>, s: &str) -> (b: bool)
    ensures
        b == crate::methods::strings_view(v@).contains(s@),
{
    let mut i: usize = 0;
    while i < v.len()
        invariant
            i <= v@.len(),
            forall|j: int| 0 <= j < i ==> v@[j]@ != s@,
        decreases v@.len() - i,
    {
        if text_eq(v[i].as_str(), s) {
            assert(crate::methods::strings_view(v@)[i as int] == s@);
            return true;
        }
        i = i + 1;
    }
    assert(!crate::methods::strings_view(v@).contains(s@)) by {
        if crate::methods::strings_view(v@).contains(s@) {
            let j = choose|j: int| 0 <= j < v@.len() && crate::methods::strings_view(v@)[j] == s@;
            assert(v@[j]@ == s@);
        }
    }
    false
}

/// `mise_agents_script`: one `mise use` of the base tools and of every
/// agent's package, each once.
pub fn mise_agents_script(agents: &[AgentSpec]) -> (r: Result<Vec<char>, PackageError>)
    ensures
        match agents_script_spec(agents@) {
            Ok(s) => r matches Ok(t) && t@ == s,
            Err(f) => r matches Err(e) && e.view() == f,
        },
{
    let mut tools: Vec<String> = Vec::new();
    tools.push("ruby@latest".to_owned());
    tools.push("starship@latest".to_owned());
    assert(crate::methods::strings_view(tools@) =~= base_mise_tools_spec());
    let mut i: usize = 0;
    while i < agents.len()
        invariant
            i <= agents@.len(),
            agent_tools_spec(agents@, i as int) == Ok::<Seq<Seq<char>>, PackageFault>(
                crate::methods::strings_view(tools@),
            ),
        decreases agents@.len() - i,
    {
        let package = match mise_install_package(agents[i].package.as_str()) {
            Ok(p) => p,
            Err(e) => {
                proof {
                    lemma_agent_tools_err_stays(agents@, i + 1, agents@.len() as int);
                }
                return Err(e);
            },
        };
        if !contains_text(&tools, package.as_str()) {
            let ghost before = tools@;
            tools.push(package);
            assert(crate::methods::strings_view(tools@) =~= crate::methods::strings_view(before).push(
                tools@.last()@,
            ));
        }
        i = i + 1;
    }
    let mut script = build_script(MISE_USE);
    let ghost start = script@;
    let mut k: usize = 0;
    while k < tools.len()
        invariant
            k <= tools@.len(),
            script@ == start + shell_args_spec(crate::methods::strings_view(tools@).take(k as int)),
        decreases tools@.len() - k,
    {
        push_shell_arg(&mut script, tools[k].as_str());
        proof {
            let t = crate::methods::strings_view(tools@).take(k + 1);
            assert(t.drop_last() =~= crate::methods::strings_view(tools@).take(k as int));
        }
        k = k + 1;
        assert(script@ =~= start + shell_args_spec(crate::methods::strings_view(tools@).take(k as int)));
    }
    assert(crate::methods::strings_view(tools@).take(tools@.len() as int) =~= crate::methods::strings_view(tools@));
    script.push('\n');
    proof {
        reveal_strlit("\n");
    }
    assert(script@ =~= build_preamble() + MISE_USE@ + shell_args_spec(crate::methods::strings_view(tools@)) + "\n"@);
    Ok(script)
}

// ---------------------------------------------------------------------------
// Stages and their snapshots
// ---------------------------------------------------------------------------

pub open spec fn slug_char(c: char) -> char {
    if is_ascii_alnum_char(c) || c == '-' || c == '_' {
        c
    } else {
        '-'
    }
}

/// A stage id as it appears in names: every character other than ASCII
/// letters, digits, `-` and `_` becomes `-`.
pub open spec fn slug_spec(id: Seq<char>) -> Seq<char> {
    id.map_values(|c: char| slug_char(c))
}

/// `stage_slug`.
pub fn stage_slug(id: &str) -> (s: Vec<char>)
    ensures
        s@ == slug_spec(id@),
{
    let c = chars_of(id);
    let mut out: Vec<char> = Vec::new();
    let mut i: usize = 0;
    while i < c.len()
        invariant
            i <= c@.len(),
            c@ == id@,
            out@ == slug_spec(id@).take(i as int),
        decreases c@.len() - i,
    {
        let x = c[i];
        if is_ascii_alnum(x) || x == '-' || x == '_' {
            out.push(x);
        } else {
            out.push('-');
        }
        i = i + 1;
        assert(out@ =~= slug_spec(id@).take(i as int));
    }
    assert(slug_spec(id@).take(c@.len() as int) =~= slug_spec(id@));
    out
}

/// The stage definitions of a configuration, as (id, script): the system
/// stage, then the agents stage if there are agents, then one stage per
/// layer.
pub open spec fn stage_defs(cfg: Config) -> Result<Seq<(Seq<char>, Seq<char>)>, PackageFault> {
    let layers = cfg.layers@.map_values(
        |l: crate::config::LayerSpec| (l.id@, build_preamble() + l.script@),
    );
    let system = seq![("system"@, system_script_spec())];
    if cfg.agents@.len() == 0 {
        Ok(system + layers)
    } else {
        match agents_script_spec(cfg.agents@) {
            Err(f) => Err(f),
            Ok(a) => Ok(system + seq![("agents"@, a)] + layers),
        }
    }
}

/// The bytes hashed for the first `n` stages: the image name, then for each
/// stage a zero byte, its id, a zero byte and its script, all in UTF-8.
pub open spec fn lineage(defs: Seq<(Seq<char>, Seq<char>)>, n: int) -> Seq<u8>
    decreases n,
{
    if n <= 0 {
        vstd::utf8::encode_utf8(IMAGE@)
    } else {
        lineage(defs, n - 1) + seq![0u8] + vstd::utf8::encode_utf8(defs[n - 1].0) + seq![0u8]
            + vstd::utf8::encode_utf8(defs[n - 1].1)
    }
}

/// `n` as at least two decimal digits (`{:02}`).
pub open spec fn two_digits(n: nat) -> Seq<char> {
    if n < 10 {
        "0"@ + decimal(n)
    } else {
        decimal(n)
    }
}

/// The snapshot name of stage `i`:
/// `wrap-arch-<NN>-<slug>-<first 16 hex digits of the lineage digest>`,
/// with `NN` the stage's position counted from 1.
pub open spec fn snapshot_name_spec(defs: Seq<(Seq<char>, Seq<char>)>, i: int) -> Seq<char> {
    BASE_SNAPSHOT_PREFIX@ + "-"@ + two_digits((i + 1) as nat) + "-"@ + slug_spec(defs[i].0) + "-"@
        + short_hex(lineage(defs, i + 1), 8)
}

/// One stage of the base image.
#[derive(Debug)]
pub struct BuildStage {
    pub id: String,
    /// The shared snapshot this stage is saved as.
    pub snapshot: String,
    pub script: String,
}

pub open spec fn stages_match(stages: Seq<BuildStage>, defs: Seq<(Seq<char>, Seq<char>)>) -> bool {
    &&& stages.len() == defs.len()
    &&& forall|i: int|
        0 <= i < defs.len() ==> {
            &&& (#[trigger] stages[i]).id@ == defs[i].0
            &&& stages[i].script@ == defs[i].1
            &&& stages[i].snapshot@ == snapshot_name_spec(defs, i)
        }
}

fn push_bytes(out: &mut Vec<u8>, b: &[u8])
    ensures
        final(out)@ == old(out)@ + b@,
{
    let ghost start = out@;
    let mut i: usize = 0;
    while i < b.len()
        invariant
            i <= b@.len(),
            out@ == start + b@.take(i as int),
        decreases b@.len() - i,
    {
        out.push(b[i]);
        i = i + 1;
        assert(out@ =~= start + b@.take(i as int));
    }
    assert(b@.take(b@.len() as int) =~= b@);
}

fn snapshot_name(index: usize, id: &str, lineage_bytes: &Vec<u8>) -> (s: String)
    requires
        index < usize::MAX,
    ensures
        s@ == BASE_SNAPSHOT_PREFIX@ + "-"@ + two_digits((index + 1) as nat) + "-"@ + slug_spec(id@)
            + "-"@ + short_hex(lineage_bytes@, 8),
{
    proof {
        reveal_strlit("0");
        reveal_strlit("-");
    }
    let mut out: Vec<char> = Vec::new();
    push_str(&mut out, BASE_SNAPSHOT_PREFIX);
    out.push('-');
    let n = (index + 1) as u64;
    if n < 10 {
        out.push('0');
    }
    push_decimal(&mut out, n);
    out.push('-');
    let slug = stage_slug(id);
    push_chars(&mut out, &slug);
    out.push('-');
    let hex = short_digest_hex(lineage_bytes.as_slice(), 8);
    push_chars(&mut out, &hex);
    assert(out@ =~= BASE_SNAPSHOT_PREFIX@ + "-"@ + two_digits((index + 1) as nat) + "-"@ + slug_spec(
        id@,
    ) + "-"@ + short_hex(lineage_bytes@, 8));
    string_from_chars(&out)
}

/// `build_stages`: the stages of the base image for `cfg`, each with its
/// script and snapshot name; or why an agent's package is refused.
pub fn build_stages(cfg: &Config) -> (r: Result<Vec<BuildStage>, PackageError>)
    ensures
        match stage_defs(*cfg) {
            Ok(defs) => r matches Ok(stages) && stages_match(stages@, defs),
            Err(f) => r matches Err(e) && e.view() == f,
        },
{
    proof {
        reveal_strlit("system");
        reveal_strlit("agents");
    }
    let mut defs: Vec<(String, String)> = Vec::new();
    let system = arch_system_script();
    defs.push(("system".to_owned(), string_from_chars(&system)));
    if cfg.agents.len() > 0 {
        let agents = mise_agents_script(&cfg.agents)?;
        defs.push(("agents".to_owned(), string_from_chars(&agents)));
    }
    let ghost head = defs@;
    let ghost pre = if cfg.agents@.len() == 0 {
        seq![("system"@, system_script_spec())]
    } else {
        seq![("system"@, system_script_spec()), ("agents"@, agents_script_spec(cfg.agents@)->Ok_0)]
    };
    assert(head.map_values(|d: (String, String)| (d.0@, d.1@)) =~= pre);
    let mut j: usize = 0;
    while j < cfg.layers.len()
        invariant
            j <= cfg.layers@.len(),
            defs@.len() == head.len() + j,
            forall|k: int| 0 <= k < head.len() ==> defs@[k] == head[k],
            forall|k: int|
                0 <= k < j ==> (#[trigger] defs@[head.len() + k]).0@ == cfg.layers@[k].id@
                    && defs@[head.len() + k].1@ == build_preamble() + cfg.layers@[k].script@,
        decreases cfg.layers@.len() - j,
    {
        let layer = &cfg.layers[j];
        let script = build_script(layer.script.as_str());
        defs.push((layer.id.clone(), string_from_chars(&script)));
        j = j + 1;
    }
    let ghost spec_defs = defs@.map_values(|d: (String, String)| (d.0@, d.1@));
    proof {
        let layers_v = cfg.layers@.map_values(
            |l: crate::config::LayerSpec| (l.id@, build_preamble() + l.script@),
        );
        assert forall|k: int| 0 <= k < pre.len() implies spec_defs[k] == pre[k] by {
            assert(head.map_values(|d: (String, String)| (d.0@, d.1@))[k] == pre[k]);
        }
        assert forall|k: int| 0 <= k < layers_v.len() implies spec_defs[pre.len() + k]
            == layers_v[k] by {
            assert(defs@[head.len() + k].0@ == cfg.layers@[k].id@);
        }
        assert(spec_defs =~= pre + layers_v);
        if cfg.agents@.len() > 0 {
            assert(seq![("system"@, system_script_spec())] + seq![
                ("agents"@, agents_script_spec(cfg.agents@)->Ok_0),
            ] =~= pre);
        }
        assert(stage_defs(*cfg) == Ok::<Seq<(Seq<char>, Seq<char>)>, PackageFault>(spec_defs));
    }
    let mut bytes: Vec<u8> = Vec::new();
    push_bytes(&mut bytes, IMAGE.as_bytes());
    let mut stages: Vec<BuildStage> = Vec::new();
    let mut i: usize = 0;
    while i < defs.len()
        invariant
            i <= defs@.len(),
            spec_defs == defs@.map_values(|d: (String, String)| (d.0@, d.1@)),
            bytes@ == lineage(spec_defs, i as int),
            stages@.len() == i,
            forall|k: int|
                0 <= k < i ==> {
                    &&& (#[trigger] stages@[k]).id@ == spec_defs[k].0
                    &&& stages@[k].script@ == spec_defs[k].1
                    &&& stages@[k].snapshot@ == snapshot_name_spec(spec_defs, k)
                },
        decreases defs@.len() - i,
    {
        let id = &defs[i].0;
        let script = &defs[i].1;
        bytes.push(0u8);
        push_bytes(&mut bytes, id.as_str().as_bytes());
        bytes.push(0u8);
        push_bytes(&mut bytes, script.as_str().as_bytes());
        assert(bytes@ =~= lineage(spec_defs, i + 1));
        let snapshot = snapshot_name(i, id.as_str(), &bytes);
        stages.push(BuildStage { id: id.clone(), snapshot, script: script.clone() });
        i = i + 1;
    }
    Ok(stages)
}

// ---------------------------------------------------------------------------
// Building one layer
// ---------------------------------------------------------------------------

/// The steps of building one layer, in order: create the build VM, run the
/// stage's setup in it, stop it, save it as the stage's snapshot, remove
/// it.
#[derive(Clone, Copy, Debug, PartialEq, Eq, Structural)]
pub enum LayerStep {
    Create,
    Setup,
    /// Stopping the build VM; `setup_ok` says whether setup succeeded.
    Stop { setup_ok: bool },
    Snapshot,
    Remove,
}

/// How a layer build ends: successfully (with the build VM left behind if
/// removing it failed), or with the error of `step`.
#[derive(Clone, Copy, Debug, PartialEq, Eq, Structural)]
pub enum LayerEnding {
    Built { leftover: bool },
    Failed { step: LayerStep },
}

/// What to do after a step: show `phase` on the live line, mark the line
/// failed with `fail`, then run `next` or end with `ending`.
#[derive(Clone, Copy, Debug, PartialEq, Eq, Structural)]
pub struct LayerMove {
    pub phase: Option<u8>,
    pub fail: Option<u8>,
    pub next: Option<LayerStep>,
    pub ending: Option<LayerEnding>,
}

pub const PHASE_CREATING: u8 = 1;
pub const PHASE_SETUP: u8 = 2;
pub const PHASE_STOPPING: u8 = 3;
pub const PHASE_SAVING: u8 = 4;

pub const FAIL_CREATE: u8 = 1;
pub const FAIL_STOP: u8 = 2;
pub const FAIL_SNAPSHOT: u8 = 3;

/// The live-line text of a layer phase.
pub fn layer_phase_text(phase: u8) -> (s: &'static str)
    ensures
        phase == PHASE_CREATING ==> s@ == "creating build vm"@,
        phase == PHASE_SETUP ==> s@ == "running setup"@,
        phase == PHASE_STOPPING ==> s@ == "syncing and stopping build vm"@,
        phase == PHASE_SAVING ==> s@ == "saving shared snapshot"@,
{
    if phase == PHASE_CREATING {
        "creating build vm"
    } else if phase == PHASE_SETUP {
        "running setup"
    } else if phase == PHASE_STOPPING {
        "syncing and stopping build vm"
    } else {
        "saving shared snapshot"
    }
}

/// The failure label of a layer step.
pub fn layer_fail_text(fail: u8) -> (s: &'static str)
    ensures
        fail == FAIL_CREATE ==> s@ == "create failed"@,
        fail == FAIL_STOP ==> s@ == "stop failed"@,
        fail == FAIL_SNAPSHOT ==> s@ == "snapshot failed"@,
{
    if fail == FAIL_CREATE {
        "create failed"
    } else if fail == FAIL_STOP {
        "stop failed"
    } else {
        "snapshot failed"
    }
}

/// The first move of a layer build.
pub fn layer_start() -> (m: LayerMove)
    ensures
        m == (LayerMove {
            phase: Some(PHASE_CREATING),
            fail: None,
            next: Some(LayerStep::Create),
            ending: None,
        }),
{
    LayerMove { phase: Some(PHASE_CREATING), fail: None, next: Some(LayerStep::Create), ending: None }
}

/// The move after `step` succeeded (`ok`) or failed.
pub open spec fn layer_after_spec(step: LayerStep, ok: bool) -> LayerMove {
    match step {
        LayerStep::Create => if ok {
            LayerMove { phase: Some(PHASE_SETUP), fail: None, next: Some(LayerStep::Setup), ending: None }
        } else {
            LayerMove {
                phase: None,
                fail: Some(FAIL_CREATE),
                next: None,
                ending: Some(LayerEnding::Failed { step }),
            }
        },
        LayerStep::Setup => LayerMove {
            phase: if ok {
                Some(PHASE_STOPPING)
            } else {
                None
            },
            fail: None,
            next: Some(LayerStep::Stop { setup_ok: ok }),
            ending: None,
        },
        LayerStep::Stop { setup_ok } => if !setup_ok {
            LayerMove {
                phase: None,
                fail: None,
                next: None,
                ending: Some(LayerEnding::Failed { step: LayerStep::Setup }),
            }
        } else if !ok {
            LayerMove {
                phase: None,
                fail: Some(FAIL_STOP),
                next: None,
                ending: Some(LayerEnding::Failed { step }),
            }
        } else {
            LayerMove {
                phase: Some(PHASE_SAVING),
                fail: None,
                next: Some(LayerStep::Snapshot),
                ending: None,
            }
        },
        LayerStep::Snapshot => if ok {
            LayerMove { phase: None, fail: None, next: Some(LayerStep::Remove), ending: None }
        } else {
            LayerMove {
                phase: None,
                fail: Some(FAIL_SNAPSHOT),
                next: None,
                ending: Some(LayerEnding::Failed { step }),
            }
        },
        LayerStep::Remove => LayerMove {
            phase: None,
            fail: None,
            next: None,
            ending: Some(LayerEnding::Built { leftover: !ok }),
        },
    }
}

/// `build_layer`'s decisions: after each step, what to show and what to do
/// next. The build VM is stopped even when setup fails, and then the setup
/// error is the one reported; a VM that cannot be removed afterwards does
/// not fail the build.
pub fn layer_after(step: LayerStep, ok: bool) -> (m: LayerMove)
    ensures
        m == layer_after_spec(step, ok),
{
    match step {
        LayerStep::Create => if ok {
            LayerMove { phase: Some(PHASE_SETUP), fail: None, next: Some(LayerStep::Setup), ending: None }
        } else {
            LayerMove {
                phase: None,
                fail: Some(FAIL_CREATE),
                next: None,
                ending: Some(LayerEnding::Failed { step }),
            }
        },
        LayerStep::Setup => LayerMove {
            phase: if ok {
                Some(PHASE_STOPPING)
            } else {
                None
            },
            fail: None,
            next: Some(LayerStep::Stop { setup_ok: ok }),
            ending: None,
        },
        LayerStep::Stop { setup_ok } => if !setup_ok {
            LayerMove {
                phase: None,
                fail: None,
                next: None,
                ending: Some(LayerEnding::Failed { step: LayerStep::Setup }),
            }
        } else if !ok {
            LayerMove {
                phase: None,
                fail: Some(FAIL_STOP),
                next: None,
                ending: Some(LayerEnding::Failed { step }),
            }
        } else {
            LayerMove {
                phase: Some(PHASE_SAVING),
                fail: None,
                next: Some(LayerStep::Snapshot),
                ending: None,
            }
        },
        LayerStep::Snapshot => if ok {
            LayerMove { phase: None, fail: None, next: Some(LayerStep::Remove), ending: None }
        } else {
            LayerMove {
                phase: None,
                fail: Some(FAIL_SNAPSHOT),
                next: None,
                ending: Some(LayerEnding::Failed { step }),
            }
        },
        LayerStep::Remove => LayerMove {
            phase: None,
            fail: None,
            next: None,
            ending: Some(LayerEnding::Built { leftover: !ok }),
        },
    }
}

/// Each move either names the next step or ends the build, never both; a
/// build that started always reaches its stop step once setup has run,
/// and it is built only when every step up to the snapshot succeeded.
pub proof fn law_layer_moves(step: LayerStep, ok: bool)
    ensures
        (layer_after_spec(step, ok).next is Some) != (layer_after_spec(step, ok).ending is Some),
        step == LayerStep::Setup ==> layer_after_spec(step, ok).next == Some(
            LayerStep::Stop { setup_ok: ok },
        ),
        layer_after_spec(step, ok).ending matches Some(LayerEnding::Built { .. }) ==> step
            == LayerStep::Remove,
{
}

// ---------------------------------------------------------------------------
// Laws
// ---------------------------------------------------------------------------

proof fn lemma_lineage_prefix(
    d1: Seq<(Seq<char>, Seq<char>)>,
    d2: Seq<(Seq<char>, Seq<char>)>,
    n: int,
)
    requires
        0 <= n <= d1.len(),
        n <= d2.len(),
        d1.take(n) == d2.take(n),
    ensures
        lineage(d1, n) == lineage(d2, n),
    decreases n,
{
    if n > 0 {
        assert(d1.take(n - 1) =~= d1.take(n).take(n - 1));
        assert(d2.take(n - 1) =~= d2.take(n).take(n - 1));
        assert(d1[n - 1] == d1.take(n)[n - 1]);
        assert(d2[n - 1] == d2.take(n)[n - 1]);
        lemma_lineage_prefix(d1, d2, n - 1);
    }
}

/// A stage's snapshot name depends only on the image and on the stages up
/// to and including it: two layouts that agree on stages `0..=i` give stage
/// `i` the same snapshot, whatever follows.
pub proof fn law_snapshot_depends_on_prefix(
    d1: Seq<(Seq<char>, Seq<char>)>,
    d2: Seq<(Seq<char>, Seq<char>)>,
    i: int,
)
    requires
        0 <= i < d1.len(),
        i < d2.len(),
        d1.take(i + 1) == d2.take(i + 1),
    ensures
        snapshot_name_spec(d1, i) == snapshot_name_spec(d2, i),
{
    lemma_lineage_prefix(d1, d2, i + 1);
    assert(d1[i] == d1.take(i + 1)[i]);
    assert(d2[i] == d2.take(i + 1)[i]);
}

/// Changing the script of stage `i`, while the stages before it and its id
/// stay the same, changes the bytes whose digest names stage `i`'s snapshot:
/// two different scripts never reach the digest as the same input.
pub proof fn law_script_change_reaches_digest(
    d1: Seq<(Seq<char>, Seq<char>)>,
    d2: Seq<(Seq<char>, Seq<char>)>,
    i: int,
)
    requires
        0 <= i < d1.len(),
        i < d2.len(),
        d1.take(i) == d2.take(i),
        d1[i].0 == d2[i].0,
        d1[i].1 != d2[i].1,
    ensures
        lineage(d1, i + 1) != lineage(d2, i + 1),
{
    lemma_lineage_prefix(d1, d2, i);
    let head = lineage(d1, i) + seq![0u8] + vstd::utf8::encode_utf8(d1[i].0) + seq![0u8];
    let e1 = vstd::utf8::encode_utf8(d1[i].1);
    let e2 = vstd::utf8::encode_utf8(d2[i].1);
    assert(lineage(d1, i + 1) =~= head + e1);
    assert(lineage(d2, i + 1) =~= head + e2);
    if lineage(d1, i + 1) == lineage(d2, i + 1) {
        assert(e1 =~= (head + e1).skip(head.len() as int));
        assert(e2 =~= (head + e2).skip(head.len() as int));
        vstd::utf8::encode_utf8_decode_utf8(d1[i].1);
        vstd::utf8::encode_utf8_decode_utf8(d2[i].1);
    }
}

/// No NUL character in `s`.
pub open spec fn no_nul(s: Seq<char>) -> bool {
    forall|j: int| 0 <= j < s.len() ==> s[j] != '\0'
}

/// No zero byte in `b`.
pub open spec fn zero_free(b: Seq<u8>) -> bool {
    forall|j: int| 0 <= j < b.len() ==> b[j] != 0u8
}

/// The first `n` stages have ids and scripts without NUL characters, so the
/// zero bytes of their lineage are exactly its separators.
pub open spec fn separable(defs: Seq<(Seq<char>, Seq<char>)>, n: int) -> bool {
    forall|j: int| 0 <= j < n ==> no_nul(#[trigger] defs[j].0) && no_nul(defs[j].1)
}

proof fn lemma_scalar_bytes_nonzero(v: u32)
    requires
        0 < v <= 0x10FFFF,
    ensures
        zero_free(vstd::utf8::encode_scalar(v)),
{
    assert(0 < v <= 0x7F ==> vstd::utf8::leading_byte_width_1(v) != 0u8) by (bit_vector);
    assert(vstd::utf8::leading_byte_width_2(v) != 0u8) by (bit_vector);
    assert(vstd::utf8::leading_byte_width_3(v) != 0u8) by (bit_vector);
    assert(vstd::utf8::leading_byte_width_4(v) != 0u8) by (bit_vector);
    assert(vstd::utf8::last_continuation_byte(v) != 0u8) by (bit_vector);
    assert(vstd::utf8::second_last_continuation_byte(v) != 0u8) by (bit_vector);
    assert(vstd::utf8::third_last_continuation_byte(v) != 0u8) by (bit_vector);
}

proof fn lemma_zero_free_concat(a: Seq<u8>, b: Seq<u8>)
    requires
        zero_free(a),
        zero_free(b),
    ensures
        zero_free(a + b),
{
    assert forall|j: int| 0 <= j < (a + b).len() implies (a + b)[j] != 0u8 by {
        if j < a.len() {
            assert((a + b)[j] == a[j]);
        } else {
            assert((a + b)[j] == b[j - a.len()]);
        }
    }
}

/// Text without NUL encodes to bytes without zero.
proof fn lemma_encode_zero_free(s: Seq<char>)
    requires
        no_nul(s),
    ensures
        zero_free(vstd::utf8::encode_utf8(s)),
    decreases s.len(),
{
    if s.len() > 0 {
        let rest = s.drop_first();
        assert forall|j: int| 0 <= j < rest.len() implies rest[j] != '\0' by {
            assert(rest[j] == s[j + 1]);
        }
        lemma_encode_zero_free(rest);
        vstd::utf8::char_is_scalar(s[0]);
        assert(s[0] != '\0');
        if (s[0] as u32) == 0 {
            vstd::utf8::char_u32_cast(s[0], 0u32);
            vstd::utf8::char_u32_cast('\0', 0u32);
        }
        lemma_scalar_bytes_nonzero(s[0] as u32);
        lemma_zero_free_concat(vstd::utf8::encode_scalar(s[0] as u32), vstd::utf8::encode_utf8(rest));
    }
}

/// Splitting at the last zero byte: when what follows it is zero-free on
/// both sides, equal joins have equal parts.
proof fn lemma_split_at_zero(a: Seq<u8>, x: Seq<u8>, b: Seq<u8>, y: Seq<u8>)
    requires
        zero_free(x),
        zero_free(y),
        a + seq![0u8] + x == b + seq![0u8] + y,
    ensures
        x == y,
        a == b,
{
    let l = a + seq![0u8] + x;
    let r = b + seq![0u8] + y;
    assert(l.len() == r.len());
    if x.len() < y.len() {
        let p = a.len() as int;
        assert(l[p] == 0u8);
        assert(r[p] == y[p - b.len() - 1]);
    } else if y.len() < x.len() {
        let p = b.len() as int;
        assert(r[p] == 0u8);
        assert(l[p] == x[p - a.len() - 1]);
    }
    assert(a.len() == b.len());
    assert(x =~= l.skip(a.len() + 1int));
    assert(y =~= r.skip(b.len() + 1int));
    assert(a =~= l.take(a.len() as int));
    assert(b =~= r.take(b.len() as int));
}

/// Equal lineages of separable layouts come from equal layouts.
proof fn lemma_lineage_injective(
    d1: Seq<(Seq<char>, Seq<char>)>,
    d2: Seq<(Seq<char>, Seq<char>)>,
    n: int,
)
    requires
        0 <= n <= d1.len(),
        n <= d2.len(),
        separable(d1, n),
        separable(d2, n),
        lineage(d1, n) == lineage(d2, n),
    ensures
        d1.take(n) == d2.take(n),
    decreases n,
{
    if n == 0 {
        assert(d1.take(0) =~= d2.take(0));
    } else {
        let (i1, s1) = d1[n - 1];
        let (i2, s2) = d2[n - 1];
        assert(no_nul(d1[n - 1].0) && no_nul(d1[n - 1].1));
        assert(no_nul(d2[n - 1].0) && no_nul(d2[n - 1].1));
        lemma_encode_zero_free(s1);
        lemma_encode_zero_free(s2);
        lemma_encode_zero_free(i1);
        lemma_encode_zero_free(i2);
        let h1 = lineage(d1, n - 1) + seq![0u8] + vstd::utf8::encode_utf8(i1);
        let h2 = lineage(d2, n - 1) + seq![0u8] + vstd::utf8::encode_utf8(i2);
        lemma_split_at_zero(h1, vstd::utf8::encode_utf8(s1), h2, vstd::utf8::encode_utf8(s2));
        lemma_split_at_zero(
            lineage(d1, n - 1),
            vstd::utf8::encode_utf8(i1),
            lineage(d2, n - 1),
            vstd::utf8::encode_utf8(i2),
        );
        vstd::utf8::encode_utf8_decode_utf8(s1);
        vstd::utf8::encode_utf8_decode_utf8(s2);
        vstd::utf8::encode_utf8_decode_utf8(i1);
        vstd::utf8::encode_utf8_decode_utf8(i2);
        assert forall|j: int| 0 <= j < n - 1 implies no_nul(#[trigger] d1[j].0) && no_nul(
            d1[j].1,
        ) by {
            assert(no_nul(d1[j].0) && no_nul(d1[j].1));
        }
        assert forall|j: int| 0 <= j < n - 1 implies no_nul(#[trigger] d2[j].0) && no_nul(
            d2[j].1,
        ) by {
            assert(no_nul(d2[j].0) && no_nul(d2[j].1));
        }
        lemma_lineage_injective(d1, d2, n - 1);
        assert(d1.take(n) =~= d1.take(n - 1).push(d1[n - 1]));
        assert(d2.take(n) =~= d2.take(n - 1).push(d2[n - 1]));
    }
}

/// Stage `i`'s snapshot name ends in the digest of the lineage through
/// stage `i`, and two layouts that differ anywhere in stages `0..=i` hash
/// different lineages there: a change to a stage reaches the snapshot name
/// of that stage and of every later one. (Ids and scripts hold no NUL
/// character, which would blur the separators.)
pub proof fn law_lineage_tells_layouts_apart(
    d1: Seq<(Seq<char>, Seq<char>)>,
    d2: Seq<(Seq<char>, Seq<char>)>,
    i: int,
)
    requires
        0 <= i < d1.len(),
        i < d2.len(),
        separable(d1, i + 1),
        separable(d2, i + 1),
        d1.take(i + 1) != d2.take(i + 1),
    ensures
        lineage(d1, i + 1) != lineage(d2, i + 1),
        exists|head: Seq<char>|
            snapshot_name_spec(d1, i) == #[trigger] (head + short_hex(lineage(d1, i + 1), 8)),
        exists|head: Seq<char>|
            snapshot_name_spec(d2, i) == #[trigger] (head + short_hex(lineage(d2, i + 1), 8)),
{
    if lineage(d1, i + 1) == lineage(d2, i + 1) {
        lemma_lineage_injective(d1, d2, i + 1);
    }
    let head1 = BASE_SNAPSHOT_PREFIX@ + "-"@ + two_digits((i + 1) as nat) + "-"@ + slug_spec(d1[i].0)
        + "-"@;
    let head2 = BASE_SNAPSHOT_PREFIX@ + "-"@ + two_digits((i + 1) as nat) + "-"@ + slug_spec(d2[i].0)
        + "-"@;
    assert(snapshot_name_spec(d1, i) == head1 + short_hex(lineage(d1, i + 1), 8));
    assert(snapshot_name_spec(d2, i) == head2 + short_hex(lineage(d2, i + 1), 8));
}

/// The system stage comes first, and the last stage is the base of every
/// project VM; with no agents and no layers it is the only stage.
pub proof fn law_system_stage_first(cfg: Config)
    requires
        stage_defs(cfg) is Ok,
    ensures
        stage_defs(cfg)->Ok_0.len() == 1 + (if cfg.agents@.len() > 0 { 1int } else { 0int })
            + cfg.layers@.len(),
        stage_defs(cfg)->Ok_0[0].0 == "system"@,
        stage_defs(cfg)->Ok_0[0].1 == system_script_spec(),
{
}

} // verus!
