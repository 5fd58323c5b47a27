//! Settings: where each value comes from, and what is offered.

use openmeetnote::cli_planner::{AgentName, AgentNames};
use openmeetnote::config::{
    default_llm_provider, default_provider, exe_files, llm_backends, probe_result, provider_to_save,
    put_secret, remove_secret, resolve_with_default, secret_key, secret_value, BackendKind,
    BackendOption, CliProbe, ConfigHandle, Env, FieldSource, OsSecretStore, ResolvedProvider,
    Secret, SecretError, SecretPresence, SecretStore, VersionRun,
};
use openmeetnote::model::{ProviderKind, StoredProvider};
use std::collections::HashMap;
use std::sync::Mutex;

#[derive(Default)]
struct FakeEnv(HashMap<String, String>);

impl FakeEnv {
    fn with(pairs: &[(&str, &str)]) -> Self {
        Self(
            pairs
                .iter()
                .map(|(k, v)| ((*k).to_owned(), (*v).to_owned()))
                .collect(),
        )
    }
}

impl Env for FakeEnv {
    fn get(&self, key: &str) -> Option<String> {
        self.0.get(key).cloned().filter(|v| !v.trim().is_empty())
    }
}

#[derive(Default)]
struct MemorySecrets(Mutex<HashMap<String, String>>);

impl SecretStore for MemorySecrets {
    fn get(&self, key: &str) -> Result<Secret, SecretError> {
        match self.0.lock().unwrap().get(key) {
            Some(v) => Ok(Secret::new(v.clone())),
            None => Err(SecretError::NotFound),
        }
    }

    fn set(&self, key: &str, value: &str) -> Result<(), SecretError> {
        self.0.lock().unwrap().insert(key.to_owned(), value.to_owned());
        Ok(())
    }

    fn delete(&self, key: &str) -> Result<(), SecretError> {
        self.0.lock().unwrap().remove(key);
        Ok(())
    }
}

struct BrokenSecrets;

impl SecretStore for BrokenSecrets {
    fn get(&self, _: &str) -> Result<Secret, SecretError> {
        Err(SecretError::Unavailable("沒有可用的憑證庫".into()))
    }

    fn set(&self, _: &str, _: &str) -> Result<(), SecretError> {
        Err(SecretError::Unavailable("沒有可用的憑證庫".into()))
    }

    fn delete(&self, _: &str) -> Result<(), SecretError> {
        Ok(())
    }
}

fn stored() -> StoredProvider {
    StoredProvider {
        provider: "openai".into(),
        model: "gui-model".into(),
        base_url: "https://gui.example".into(),
        options: String::new(),
    }
}

fn resolve<E: Env, S: SecretStore>(
    kind: ProviderKind,
    stored: &StoredProvider,
    env: &E,
    secrets: &S,
) -> ResolvedProvider {
    resolve_with_default(kind, stored, env, secrets, "fixture")
}

fn names() -> AgentNames {
    AgentNames {
        claude: AgentName {
            id: "agent-one".into(),
            label: "Agent One".into(),
            exe: "one".into(),
        },
        codex: AgentName {
            id: "codex".into(),
            label: "Codex CLI".into(),
            exe: "codex".into(),
        },
    }
}

#[test]
fn environment_wins_over_the_gui_setting() {
    let env = FakeEnv::with(&[("OPENMEETNOTE_LLM_MODEL", "env-model")]);
    let r = resolve(ProviderKind::Llm, &stored(), &env, &MemorySecrets::default());
    assert_eq!(r.model.value, "env-model");
    assert_eq!(r.model.source, FieldSource::Environment);
    assert_eq!(r.provider.value, "openai");
    assert_eq!(r.provider.source, FieldSource::Settings);
}

#[test]
fn an_empty_environment_variable_does_not_override_the_gui() {
    let env = FakeEnv::with(&[("OPENMEETNOTE_LLM_MODEL", "   ")]);
    let r = resolve(ProviderKind::Llm, &stored(), &env, &MemorySecrets::default());
    assert_eq!(r.model.value, "gui-model", "空值把設定蓋掉了");
}

#[test]
fn unset_fields_fall_back_to_the_built_in_default() {
    let r = resolve(
        ProviderKind::Stt,
        &StoredProvider::default(),
        &FakeEnv::default(),
        &MemorySecrets::default(),
    );
    assert_eq!(r.provider.value, "fixture");
    assert_eq!(r.provider.source, FieldSource::Default);
}

#[test]
fn secret_presence_distinguishes_missing_from_unavailable() {
    let env = FakeEnv::default();
    let missing = resolve(ProviderKind::Llm, &stored(), &env, &MemorySecrets::default());
    assert_eq!(missing.secret, SecretPresence::Missing);

    let broken = resolve(ProviderKind::Llm, &stored(), &env, &BrokenSecrets);
    assert_eq!(broken.secret, SecretPresence::Unavailable);
}

#[test]
fn a_keychain_secret_is_reported_as_present_but_never_returned() {
    let secrets = MemorySecrets::default();
    secrets.set(&secret_key(ProviderKind::Llm), "sk-real-key").unwrap();
    let r = resolve(ProviderKind::Llm, &stored(), &FakeEnv::default(), &secrets);
    assert_eq!(r.secret, SecretPresence::Keychain);
    assert!(!format!("{r:?}").contains("sk-real-key"), "密鑰被送到 UI 了");
}

#[test]
fn secret_value_prefers_the_environment_over_the_keychain() {
    let secrets = MemorySecrets::default();
    secrets.set(&secret_key(ProviderKind::Stt), "from-keychain").unwrap();
    let env = FakeEnv::with(&[("OPENMEETNOTE_STT_API_KEY", "from-env")]);
    let v = secret_value(ProviderKind::Stt, &env, &secrets).unwrap();
    assert_eq!(v.expose(), "from-env");

    let v = secret_value(ProviderKind::Stt, &FakeEnv::default(), &secrets).unwrap();
    assert_eq!(v.expose(), "from-keychain");
    let none = secret_value(ProviderKind::Llm, &FakeEnv::default(), &secrets);
    assert_eq!(none.err(), Some(SecretError::NotFound));
}

#[test]
fn debug_formatting_a_secret_does_not_leak_it() {
    let s = Secret::new("sk-should-not-appear".into());
    assert!(!s.redacted().contains("sk-should-not-appear"));
}

fn backend(id: &str, kind: BackendKind, available: bool) -> BackendOption {
    BackendOption {
        id: id.into(),
        label: id.into(),
        kind,
        available,
        detail: String::new(),
        needs_secret: kind == BackendKind::Api,
    }
}

#[test]
fn the_default_backend_is_system_when_an_agent_cli_is_present() {
    let backends = [
        backend("system", BackendKind::System, true),
        backend("api", BackendKind::Api, true),
    ];
    assert_eq!(default_llm_provider(&backends), "system");
}

#[test]
fn the_default_backend_falls_back_to_fixture_not_api() {
    let backends = [
        backend("system", BackendKind::System, false),
        backend("api", BackendKind::Api, true),
    ];
    assert_eq!(default_llm_provider(&backends), "fixture");
}

#[test]
fn the_catalogue_always_offers_api_and_both_agent_clis() {
    let ids: Vec<String> = llm_backends(&names(), CliProbe::Absent, CliProbe::Absent)
        .into_iter()
        .map(|o| o.id)
        .collect();
    assert_eq!(ids, ["system", "agent-one", "codex", "api", "fixture"]);
}

fn ended(success: bool, stdout: &str, stderr: &str) -> VersionRun {
    VersionRun::Ended { success, stdout: stdout.into(), stderr: stderr.into() }
}

#[test]
fn an_unavailable_backend_still_explains_why() {
    let broken = CliProbe::Found {
        path: "/usr/bin/codex".into(),
        run: ended(false, "", "node: not found\nmore"),
    };
    for o in llm_backends(&names(), CliProbe::Absent, broken) {
        assert!(
            o.available || !o.detail.trim().is_empty(),
            "{} 不可用卻沒有說明原因",
            o.id
        );
    }
}

#[test]
fn each_probe_gives_its_own_detail() {
    let found = |run| CliProbe::Found { path: "/bin/codex".into(), run };
    let details = |codex| {
        llm_backends(&names(), CliProbe::Absent, codex)
            .into_iter()
            .map(|o| (o.available, o.detail))
            .collect::<Vec<_>>()
    };
    let none = details(CliProbe::Absent);
    assert_eq!(none[0], (false, "這台機器沒有偵測到 Agent One 或 Codex CLI".into()));
    assert_eq!(none[2], (false, "PATH 上找不到 codex，尚未安裝".into()));
    let works = details(found(ended(true, "codex 1.2 \nx", "")));
    assert_eq!(works[0], (true, "使用已安裝的 Codex CLI".into()));
    assert_eq!(works[2], (true, "codex 1.2".into()));
    let silent = details(found(ended(true, "", "")));
    assert_eq!(silent[2], (true, "/bin/codex".into()));
    let broken = details(found(ended(false, "", " no node \nmore")));
    assert_eq!(broken[2], (false, "回報失敗：no node".into()));
    let denied = details(found(VersionRun::NotRun("denied".into())));
    assert_eq!(denied[2], (false, "無法執行：denied".into()));
    assert_eq!(probe_result(false, "", ""), Err("回報失敗：未提供原因".into()));
}

#[test]
fn both_services_are_resolved_with_their_own_default() {
    let config = ConfigHandle {
        secrets: Box::new(MemorySecrets::default()),
        env: Box::new(FakeEnv::with(&[("OPENMEETNOTE_STT_PROVIDER", "local")])),
    };
    let backends = [backend("system", BackendKind::System, true)];
    let none = StoredProvider::default();
    let r = config.settings(&none, &none, &backends);
    assert_eq!(r.len(), 2);
    assert_eq!((r[0].kind, r[0].provider.value.as_str()), (ProviderKind::Stt, "local"));
    assert_eq!((r[1].kind, r[1].provider.value.as_str()), (ProviderKind::Llm, "system"));
    assert_eq!(default_provider(ProviderKind::Stt, &backends), "fixture");
}

#[test]
fn secrets_are_trimmed_checked_and_kept_under_their_service() {
    let secrets = MemorySecrets::default();
    assert_eq!(put_secret(&secrets, "llm", "  sk-1 "), Ok(()));
    assert_eq!(secrets.0.lock().unwrap()["llm-api-key"], "sk-1");
    assert_eq!(put_secret(&secrets, "llm", " \t"), Err("密鑰不得為空".into()));
    assert_eq!(put_secret(&secrets, "tts", "x"), Err("未知的 Provider 類別".into()));
    assert_eq!(
        put_secret(&BrokenSecrets, "llm", "sk-1"),
        Err("憑證庫無法存取：沒有可用的憑證庫".into())
    );
    assert_eq!(remove_secret(&secrets, "llm"), Ok(()));
    assert!(secrets.0.lock().unwrap().is_empty());
    assert_eq!(remove_secret(&secrets, ""), Err("未知的 Provider 類別".into()));
    assert_eq!(SecretError::NotFound.message(), "找不到這個密鑰");
}

#[test]
fn a_platform_without_a_store_says_so() {
    assert!(matches!(OsSecretStore.get("k"), Err(SecretError::Unavailable(_))));
    assert!(matches!(OsSecretStore.set("k", "v"), Err(SecretError::Unavailable(_))));
    assert_eq!(OsSecretStore.delete("k"), Ok(()));
}

#[test]
fn settings_are_saved_without_white_space_around_them() {
    let s = provider_to_save(" openai ", "\tm\n", "");
    assert_eq!((s.provider.as_str(), s.model.as_str(), s.base_url.as_str()), ("openai", "m", ""));
}

#[test]
fn programs_are_looked_for_with_every_ending() {
    assert_eq!(exe_files("codex", false, None), ["codex"]);
    assert_eq!(exe_files("codex", true, Some(".EXE;;.CMD")), ["codex.EXE", "codex.CMD"]);
    assert_eq!(
        exe_files("codex", true, None),
        ["codex.COM", "codex.EXE", "codex.BAT", "codex.CMD"]
    );
}
