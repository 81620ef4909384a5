use wrap::config::{AgentSpec, BuildConfig, Config, LayerSpec, NetworkConfig};
use wrap::stages::{
    arch_system_script, build_stages, layer_after, layer_fail_text, layer_phase_text, layer_start,
    mise_agents_script, mise_install_package, stage_slug, LayerEnding, LayerStep,
    BASE_SNAPSHOT_PREFIX,
};

fn config(agents: Vec<AgentSpec>, layers: Vec<LayerSpec>) -> Config {
    Config {
        build: BuildConfig::default(),
        env: Vec::new(),
        secrets: Vec::new(),
        network: NetworkConfig { allow_everything: false, allow_host: Vec::new(), deny_host: Vec::new() },
        agents,
        layers,
    }
}

fn agent(name: &str, package: &str) -> AgentSpec {
    AgentSpec { name: name.into(), package: package.into(), host_copy: None, guest: None }
}

fn layer(id: &str, script: &str) -> LayerSpec {
    LayerSpec { id: id.into(), script: script.into() }
}

fn text(v: Vec<char>) -> String {
    v.into_iter().collect()
}

#[test]
fn resolves_try_package_through_its_gem_alias() {
    assert_eq!(
        mise_install_package("github:tobi/try@latest").unwrap(),
        "gem:try-cli@latest"
    );
}

#[test]
fn derives_intended_build_stages() {
    let cfg = config(vec![agent("pi", "mise:pi@latest")], vec![layer("dotfiles", "echo custom")]);
    let stages = build_stages(&cfg).unwrap();

    assert_eq!(
        stages
            .iter()
            .map(|stage| stage.id.as_str())
            .collect::<Vec<_>>(),
        ["system", "agents", "dotfiles"]
    );
    for (index, stage) in stages.iter().enumerate() {
        assert!(stage.snapshot.starts_with(&format!(
            "{BASE_SNAPSHOT_PREFIX}-{:02}-{}-",
            index + 1,
            stage.id
        )));
    }
    assert!(stages[0].script.contains("pacman -Syu --noconfirm"));
    assert!(
        stages[0]
            .script
            .contains("pacman -S --needed --noconfirm -- archlinux-keyring")
    );
    assert!(stages[0].script.contains("python python-pip ripgrep sudo"));
    assert!(
        stages[0]
            .script
            .contains("STARSHIP_CONFIG=/etc/wrap/starship.toml")
    );
    assert!(stages[0].script.contains("eval \"$(starship init zsh)\""));
    assert!(stages[0].script.contains("[vm:$hostname"));
    assert_eq!(
        stages[1].script.matches("mise use --global --pin").count(),
        1
    );
    assert!(stages[1].script.contains("'pi@latest'"));
    assert!(stages[1].script.contains("'ruby@latest'"));
    assert!(stages[1].script.contains("'starship@latest'"));
    assert!(stages[2].script.contains("echo custom"));
    let changed = config(vec![agent("pi", "mise:pi@latest")], vec![layer("dotfiles", "echo changed")]);
    let changed = build_stages(&changed).unwrap();
    assert_eq!(stages[0].snapshot, changed[0].snapshot);
    assert_eq!(stages[1].snapshot, changed[1].snapshot);
    assert_ne!(stages[2].snapshot, changed[2].snapshot);
}

#[test]
fn system_stage_is_final_without_customization() {
    let cfg = config(Vec::new(), Vec::new());
    let stages = build_stages(&cfg).unwrap();
    assert_eq!(stages.len(), 1);
    assert!(stages[0].snapshot.starts_with("wrap-arch-01-system-"));
}

#[test]
fn rejects_package_options() {
    let cfg = config(vec![agent("pi", "mise:--root")], Vec::new());
    assert!(build_stages(&cfg).is_err());
}

#[test]
fn snapshot_names_end_in_sixteen_hex_digits() {
    let cfg = config(Vec::new(), vec![layer("my layer!", "true")]);
    let stages = build_stages(&cfg).unwrap();
    assert_eq!(stages.len(), 2);
    let name = &stages[1].snapshot;
    assert!(name.starts_with("wrap-arch-02-my-layer--"));
    let digest = &name["wrap-arch-02-my-layer--".len()..];
    assert_eq!(digest.len(), 16);
    assert!(digest.chars().all(|c| c.is_ascii_hexdigit() && !c.is_ascii_uppercase()));
    assert_eq!(text(stage_slug("a.b/c_d-e")), "a-b-c_d-e");
}

#[test]
fn agents_script_installs_each_tool_once() {
    let script = text(
        mise_agents_script(&[
            agent("pi", "mise:pi@latest"),
            agent("again", "mise:pi@latest"),
            agent("try", "github:tobi/try@latest"),
            agent("ruby", "mise:ruby@latest"),
        ])
        .unwrap(),
    );
    assert!(script.ends_with(
        "mise use --global --pin --yes --jobs 4 -- 'ruby@latest' 'starship@latest' 'pi@latest' 'gem:try-cli@latest'\n"
    ));
    assert!(script.starts_with("set -eu\nexport HOME=/root\n"));
    assert_eq!(mise_install_package("mise:node").unwrap(), "node");
    assert_eq!(mise_install_package("github:tobi/try").unwrap(), "gem:try-cli");
    let system = text(arch_system_script());
    assert!(system.contains("cat > /etc/wrap/starship.toml <<'WRAP_STARSHIP'\n"));
    assert!(system.ends_with("WRAP_ZSH\n"));
}

#[test]
fn layer_build_stops_its_vm_even_when_setup_fails() {
    let start = layer_start();
    assert_eq!(start.next, Some(LayerStep::Create));
    assert_eq!(layer_phase_text(start.phase.unwrap()), "creating build vm");

    let after_setup = layer_after(LayerStep::Setup, false);
    assert_eq!(after_setup.next, Some(LayerStep::Stop { setup_ok: false }));
    assert_eq!(after_setup.phase, None);
    let after_stop = layer_after(LayerStep::Stop { setup_ok: false }, true);
    assert_eq!(after_stop.ending, Some(LayerEnding::Failed { step: LayerStep::Setup }));
    assert_eq!(after_stop.fail, None);

    let stop_failed = layer_after(LayerStep::Stop { setup_ok: true }, false);
    assert_eq!(layer_fail_text(stop_failed.fail.unwrap()), "stop failed");
    let saved = layer_after(LayerStep::Stop { setup_ok: true }, true);
    assert_eq!(layer_phase_text(saved.phase.unwrap()), "saving shared snapshot");
    let created = layer_after(LayerStep::Create, false);
    assert_eq!(layer_fail_text(created.fail.unwrap()), "create failed");
    assert_eq!(
        layer_after(LayerStep::Remove, false).ending,
        Some(LayerEnding::Built { leftover: true })
    );
}
