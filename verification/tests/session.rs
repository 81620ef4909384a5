use wrap::config::{BuildConfig, Config, NetworkConfig, ResolvedHostCopy};
use wrap::paths::{expand_tilde, workspace_base};
use wrap::session::{
    agent_shims_script, attach_exit_code, balloon_memory, build_sandbox_name, classify_hosts,
    exec_exit_code, extract_script, guest_command, guest_exports, host_copy_marker,
    host_copy_mkdir_script, host_rules, marker_script, phase_text, pick_hostname,
    resources_match, sandbox_name_from_real, secrets_need_git_header, session_plan, setup_verdict,
    vm_resources, write_parent, HostRule, SessionPlan, VmResources, PHASE_REPLACING,
    PHASE_UPDATING,
};

fn config() -> Config {
    Config {
        build: BuildConfig::default(),
        env: Vec::new(),
        secrets: Vec::new(),
        network: NetworkConfig { allow_everything: false, allow_host: Vec::new(), deny_host: Vec::new() },
        agents: Vec::new(),
        layers: Vec::new(),
    }
}

fn words(w: &[&str]) -> Vec<String> {
    w.iter().map(|s| s.to_string()).collect()
}

#[test]
fn balloons_memory_above_session_minimum() {
    assert_eq!(balloon_memory(1024, 4096), (4096, 4096));
    assert_eq!(balloon_memory(8192, 4096), (4096, 4096));
    assert_eq!(balloon_memory(0, 0), (4096, 4096));
    assert_eq!(balloon_memory(4096, 8192), (4096, 8192));
}

#[test]
fn ballooning_settles_after_one_pass() {
    for (boot, max) in [(0, 0), (1024, 2048), (9000, 5000), (6144, 8192), (u32::MAX, 1)] {
        let once = balloon_memory(boot, max);
        assert_eq!(balloon_memory(once.0, once.1), once);
        assert!(4096 <= once.0 && once.0 <= once.1);
    }
}

#[test]
fn names_sandbox_from_realpath() {
    let a = sandbox_name_from_real("/home/tobi/src/app");
    let b = sandbox_name_from_real("/home/tobi/src/app");
    let c = sandbox_name_from_real("/home/tobi/src/other");
    assert_eq!(a, b);
    assert_ne!(a, c);
    assert!(a.starts_with("wrap-"));
    assert_eq!(a.len(), "wrap-".len() + 16);
}

#[test]
fn guest_exports_include_config_env() {
    let mut cfg = config();
    cfg.env.push(("SSH_CONNECTION".into(), "true".into()));
    let exports = guest_exports(&cfg);
    assert!(exports.contains("SSH_CONNECTION=true"));
}

#[test]
fn guest_command_runs_a_login_shell() {
    let mut cfg = config();
    cfg.env.push(("GREETING".into(), "hello world".into()));
    let (cmd, args) = guest_command(&cfg, &[]);
    assert_eq!(cmd, "/bin/zsh");
    assert_eq!(
        args,
        [
            "-l",
            "-c",
            "export PATH=\"/usr/local/bin:/root/.local/bin:/root/.local/share/mise/shims:$PATH\"; export GREETING='hello world'; exec /bin/zsh -l",
        ]
    );
    let (_, args) = guest_command(&cfg, &words(&["omp", "say hi"]));
    assert!(args[2].ends_with("; exec omp 'say hi'"));
    assert!(secrets_need_git_header(&[]));
    assert!(secrets_need_git_header(&words(&["git", "push"])));
    assert!(!secrets_need_git_header(&words(&["true"])));
}

#[test]
fn resources_take_overrides_and_refuse_zero_cpus() {
    let build = BuildConfig::default();
    let r = vm_resources(None, None, None, &build).unwrap();
    assert_eq!(r, VmResources { cpus: 4, memory: 4096, memory_max: 8192 });
    let r = vm_resources(Some(8), Some(2048), Some(16384), &build).unwrap();
    assert_eq!(r, VmResources { cpus: 8, memory: 4096, memory_max: 16384 });
    let err = vm_resources(Some(0), None, None, &build).unwrap_err();
    assert_eq!(err.message(), "VM CPU count must be greater than zero");
    assert!(resources_match(4, 4, 4096, 8192, VmResources { cpus: 4, memory: 4096, memory_max: 8192 }));
    assert!(!resources_match(4, 8, 4096, 8192, VmResources { cpus: 4, memory: 4096, memory_max: 8192 }));
}

#[test]
fn sessions_are_resumed_only_on_the_same_base() {
    let base = "wrap-arch-03-dotfiles-0123456789abcdef";
    assert_eq!(
        session_plan(true, &Some(Some(base.into())), base),
        SessionPlan::Create { replacing: true, phase: Some(PHASE_REPLACING) }
    );
    assert_eq!(session_plan(false, &Some(Some(base.into())), base), SessionPlan::Resume);
    assert_eq!(
        session_plan(false, &Some(Some("older".into())), base),
        SessionPlan::Create { replacing: true, phase: Some(PHASE_UPDATING) }
    );
    assert_eq!(
        session_plan(false, &Some(None), base),
        SessionPlan::Create { replacing: true, phase: Some(PHASE_UPDATING) }
    );
    assert_eq!(session_plan(false, &None, base), SessionPlan::Create { replacing: false, phase: None });
    assert_eq!(phase_text(PHASE_REPLACING), "replacing vm");
    assert_eq!(phase_text(PHASE_UPDATING), "updating base layout");
}

#[test]
fn hosts_split_into_domains_and_suffixes() {
    let (domains, suffixes) =
        classify_hosts(&words(&["github.com", ".githubusercontent.com", "*.example.org"]));
    assert_eq!(domains, ["github.com"]);
    assert_eq!(suffixes, [".githubusercontent.com", ".example.org"]);
    let rules = host_rules(&words(&["api.github.com", "*.github.com"]));
    assert!(matches!(&rules[0], HostRule::Exact(h) if h == "api.github.com"));
    assert!(matches!(&rules[1], HostRule::Pattern(h) if h == "*.github.com"));
}

#[test]
fn host_state_scripts_and_marker() {
    assert_eq!(host_copy_marker(&[]), None);
    let copies = vec![ResolvedHostCopy {
        agent: "pi".into(),
        host: "/home/me/.pi".into(),
        guest: "/root/.pi".into(),
    }];
    let marker = host_copy_marker(&copies).unwrap();
    assert!(marker.starts_with("/var/lib/wrap/host-copy-"));
    assert_eq!(marker.len(), "/var/lib/wrap/host-copy-".len() + 8);
    assert_eq!(host_copy_marker(&copies), Some(marker.clone()));
    assert_eq!(marker_script("/var/lib/wrap/host-copy-00ff"), "mkdir -p /var/lib/wrap && : > /var/lib/wrap/host-copy-00ff");
    assert_eq!(host_copy_mkdir_script("/root/.pi").as_deref(), Some("mkdir -p /root"));
    assert_eq!(host_copy_mkdir_script("/"), None);
    assert_eq!(
        extract_script("/root/my dir", "/var/lib/wrap/.host-copy.tar"),
        "set -eu\nrm -rf '/root/my dir'\nmkdir -p '/root/my dir'\ntar -xf /var/lib/wrap/.host-copy.tar -C '/root/my dir'\nrm -f /var/lib/wrap/.host-copy.tar\n"
    );
    assert_eq!(write_parent("notes.md"), None);
    assert_eq!(write_parent("/workspace/a/b.txt").as_deref(), Some("/workspace/a"));
}

#[test]
fn shims_run_agents_through_mise() {
    assert!(agent_shims_script(&[]).unwrap().is_none());
    let agents = vec![wrap::config::AgentSpec {
        name: "try".into(),
        package: "github:tobi/try@latest".into(),
        host_copy: None,
        guest: None,
    }];
    let script = agent_shims_script(&agents).unwrap().unwrap();
    assert_eq!(
        script,
        "set -eu\nmkdir -p /usr/local/bin\ncat > /usr/local/bin/try <<'WRAP_SHIM'\n#!/bin/sh\nexec mise exec 'gem:try-cli@latest' -- try \"$@\"\nWRAP_SHIM\nchmod 0755 /usr/local/bin/try\n"
    );
    let bad = vec![wrap::config::AgentSpec {
        name: "no/slash".into(),
        package: "mise:x".into(),
        host_copy: None,
        guest: None,
    }];
    assert_eq!(agent_shims_script(&bad).unwrap_err().message(), "invalid agent shim name: no/slash");
}

#[test]
fn setup_verdicts_and_exit_codes() {
    assert!(setup_verdict("system", Some(0)).is_ok());
    let f = setup_verdict("system", Some(2)).unwrap_err();
    assert_eq!(f.label, "exit 2");
    assert_eq!(f.message, "layer system failed");
    let f = setup_verdict("agents", None).unwrap_err();
    assert_eq!(f.label, "no exit code");
    assert_eq!(f.message, "layer agents ended without an exit code");
    assert_eq!(setup_verdict("x", Some(-1)).unwrap_err().label, "exit -1");
    assert_eq!(attach_exit_code(-1), 0);
    assert_eq!(attach_exit_code(3), 3);
    assert_eq!(exec_exit_code(-1), 255);
    assert_eq!(exec_exit_code(256), 0);
}

#[test]
fn names_and_paths() {
    assert_eq!(build_sandbox_name("my layer"), "wrap-build-my-layer");
    assert_eq!(pick_hostname(Some("box".into()), Some("sys".into())), "box");
    assert_eq!(pick_hostname(Some(String::new()), Some("sys".into())), "sys");
    assert_eq!(pick_hostname(None, None), "host");
    assert_eq!(expand_tilde("~/.pi", "/home/me"), "/home/me/.pi");
    assert_eq!(expand_tilde("~", "/home/me"), "/home/me");
    assert_eq!(expand_tilde("~other", "/home/me"), "~other");
    assert_eq!(expand_tilde("/abs", "/home/me"), "/abs");
    assert_eq!(workspace_base("/home/me/project"), "project");
    assert_eq!(workspace_base("/"), "workspace");
}

#[test]
fn shim_names_are_checked_by_their_characters_only() {
    let unnamed = vec![wrap::config::AgentSpec {
        name: "".into(),
        package: "mise:x".into(),
        host_copy: None,
        guest: None,
    }];
    let script = agent_shims_script(&unnamed).unwrap().unwrap();
    assert!(script.contains("cat > /usr/local/bin/ <<'WRAP_SHIM'\n"));
    assert!(script.contains("exec mise exec x -- '' \"$@\"\n"));
}
