//! Settings of the services, and their secrets.
//!
//! The environment wins over what was set in the program, and that wins over the
//! built-in default. A resolved setting has no place for a secret: it says whether there
//! is one and where.

use crate::cli_planner::{AgentName, AgentNameView, AgentNames, AgentNamesView};
use crate::loopback::{parts_view, split, split_on};
use crate::model::{ProviderKind, StoredProvider};
use crate::text::{
    blank, chars_of, is_blank, join, joined, opt_view, same, string_of, trim, trimmed, views,
};
use vstd::prelude::*;
use vstd::string::*;

verus! {

// ---------------------------------------------------------------------------
// Fields
// ---------------------------------------------------------------------------

/// Where the value of a field comes from.
#[derive(Debug, Clone, Copy, PartialEq, Eq, Structural)]
pub enum FieldSource {
    /// From the environment. It cannot be changed in the program.
    Environment,
    /// From what was set in the program.
    Settings,
    /// From neither.
    Default,
}

/// The value of a field, and where it comes from.
#[derive(Debug, Clone, PartialEq, Eq)]
pub struct ResolvedField {
    pub value: String,
    pub source: FieldSource,
}

pub struct ResolvedFieldView {
    pub value: Seq<char>,
    pub source: FieldSource,
}

impl View for ResolvedField {
    type V = ResolvedFieldView;

    open spec fn view(&self) -> ResolvedFieldView {
        ResolvedFieldView { value: self.value@, source: self.source }
    }
}

/// The value of a field: what the environment says, else what was set, else the default.
pub open spec fn resolved_field(
    from_env: Option<Seq<char>>,
    stored: Seq<char>,
    fallback: Seq<char>,
) -> ResolvedFieldView {
    match from_env {
        Some(value) => ResolvedFieldView { value, source: FieldSource::Environment },
        None => if stored.len() > 0 {
            ResolvedFieldView { value: stored, source: FieldSource::Settings }
        } else {
            ResolvedFieldView { value: fallback, source: FieldSource::Default }
        },
    }
}

/// The value of a field, given what the environment says.
pub fn field(from_env: Option<String>, stored: &str, fallback: &str) -> (r: ResolvedField)
    ensures
        r@ == resolved_field(opt_view(from_env), stored@, fallback@),
{
    match from_env {
        Some(value) => ResolvedField { value, source: FieldSource::Environment },
        None => {
            if stored.is_empty() {
                ResolvedField { value: fallback.to_owned(), source: FieldSource::Default }
            } else {
                ResolvedField { value: stored.to_owned(), source: FieldSource::Settings }
            }
        },
    }
}

/// What a variable of the environment counts for: a blank one is as good as none.
pub fn present(raw: Option<String>) -> (r: Option<String>)
    ensures
        r == match raw {
            Some(v) => if blank(v@) {
                None
            } else {
                raw
            },
            None => None,
        },
{
    match raw {
        Some(v) => {
            if is_blank(v.as_str()) {
                None
            } else {
                Some(v)
            }
        },
        None => None,
    }
}

// ---------------------------------------------------------------------------
// Secrets
// ---------------------------------------------------------------------------

/// Whether there is a secret, and where. This is all that a user interface gets to know.
#[derive(Debug, Clone, Copy, PartialEq, Eq, Structural)]
pub enum SecretPresence {
    /// In the environment.
    Environment,
    /// In the store of the operating system.
    Keychain,
    /// Nowhere.
    Missing,
    /// The store cannot be reached, so nobody knows.
    Unavailable,
}

/// A secret. It cannot be printed by accident: it has no `Debug`, and the one way to its
/// value is `expose`.
pub struct Secret(String);

impl View for Secret {
    type V = Seq<char>;

    closed spec fn view(&self) -> Seq<char> {
        self.0@
    }
}

impl Secret {
    pub fn new(v: String) -> (r: Self)
        ensures
            r@ == v@,
    {
        Secret(v)
    }

    /// The value. The one way out.
    pub fn expose(&self) -> (r: &str)
        ensures
            r@ == self@,
    {
        self.0.as_str()
    }

    /// What stands for a secret wherever one is printed: the same for all of them.
    pub fn redacted(&self) -> (r: &'static str)
        ensures
            r@ == "Secret(<redacted>)"@,
    {
        "Secret(<redacted>)"
    }
}

/// Why a secret cannot be had.
#[derive(Debug, PartialEq, Eq)]
pub enum SecretError {
    NotFound,
    Unavailable(String),
}

impl SecretError {
    pub open spec fn words(self) -> Seq<char> {
        match self {
            SecretError::NotFound => "找不到這個密鑰"@,
            SecretError::Unavailable(why) => "憑證庫無法存取："@ + why@,
        }
    }

    /// The reason in words.
    pub fn message(&self) -> (r: String)
        ensures
            r@ == self.words(),
    {
        match self {
            SecretError::NotFound => "找不到這個密鑰".to_owned(),
            SecretError::Unavailable(why) => {
                let mut out = "憑證庫無法存取：".to_owned();
                out.append(why.as_str());
                out
            },
        }
    }
}

/// A store of secrets.
pub trait SecretStore: Send + Sync {
    fn get(&self, key: &str) -> Result<Secret, SecretError>;

    fn set(&self, key: &str, value: &str) -> Result<(), SecretError>;

    fn delete(&self, key: &str) -> Result<(), SecretError>;
}

/// The variables of the environment.
pub trait Env: Send + Sync {
    fn get(&self, key: &str) -> Option<String>;
}

/// Whether the environment may answer so, asked for the variable `key`.
pub open spec fn env_says<E: Env + ?Sized>(env: &E, key: Seq<char>, answer: Option<Seq<char>>) -> bool {
    exists|k: &str, r: Option<String>|
        k@ == key && opt_view(r) == answer && #[trigger] call_ensures(E::get, (env, k), r)
}

/// Whether a store of secrets may answer so, asked for `key`.
pub open spec fn store_says<S: SecretStore + ?Sized>(
    secrets: &S,
    key: Seq<char>,
    answer: Result<Secret, SecretError>,
) -> bool {
    exists|k: &str| k@ == key && #[trigger] call_ensures(S::get, (secrets, k), answer)
}

/// The store of a platform that has none. It says so, and never falls back to a file.
pub struct OsSecretStore;

impl SecretStore for OsSecretStore {
    fn get(&self, _key: &str) -> (r: Result<Secret, SecretError>)
        ensures
            r is Err,
            r->Err_0 matches SecretError::Unavailable(why) && why@
                == "此平台沒有支援的憑證庫，請改用環境變數提供密鑰"@,
    {
        Err(
            SecretError::Unavailable(
                "此平台沒有支援的憑證庫，請改用環境變數提供密鑰".to_owned(),
            ),
        )
    }

    fn set(&self, _key: &str, _value: &str) -> (r: Result<(), SecretError>)
        ensures
            r is Err,
            r->Err_0 matches SecretError::Unavailable(why) && why@
                == "此平台沒有支援的憑證庫，請改用環境變數提供密鑰"@,
    {
        Err(
            SecretError::Unavailable(
                "此平台沒有支援的憑證庫，請改用環境變數提供密鑰".to_owned(),
            ),
        )
    }

    fn delete(&self, _key: &str) -> (r: Result<(), SecretError>)
        ensures
            r is Ok,
    {
        Ok(())
    }
}

/// The name of a service's secret in the store.
pub open spec fn store_key(kind: ProviderKind) -> Seq<char> {
    kind.word() + "-api-key"@
}

/// The name of a service's secret in the store, such as `stt-api-key`.
pub fn secret_key(kind: ProviderKind) -> (r: String)
    ensures
        r@ == store_key(kind),
{
    let mut out = kind.as_str().to_owned();
    out.append("-api-key");
    out
}

/// The name of a variable of a service.
pub open spec fn env_key(kind: ProviderKind, suffix: Seq<char>) -> Seq<char> {
    kind.prefix() + suffix
}

/// The name of a variable of a service.
pub fn env_name(kind: ProviderKind, suffix: &str) -> (r: String)
    ensures
        r@ == env_key(kind, suffix@),
{
    let mut out = kind.env_prefix().to_owned();
    out.append(suffix);
    out
}

/// The name of the variable that holds a service's secret.
pub fn secret_env_key(kind: ProviderKind) -> (r: String)
    ensures
        r@ == env_key(kind, "_API_KEY"@),
{
    env_name(kind, "_API_KEY")
}

// ---------------------------------------------------------------------------
// Resolving
// ---------------------------------------------------------------------------

/// The settings of a service, as they hold.
#[derive(Debug, Clone, PartialEq, Eq)]
pub struct ResolvedProvider {
    pub kind: ProviderKind,
    pub provider: ResolvedField,
    pub model: ResolvedField,
    pub base_url: ResolvedField,
    pub secret: SecretPresence,
}

pub struct ResolvedProviderView {
    pub kind: ProviderKind,
    pub provider: ResolvedFieldView,
    pub model: ResolvedFieldView,
    pub base_url: ResolvedFieldView,
    pub secret: SecretPresence,
}

impl View for ResolvedProvider {
    type V = ResolvedProviderView;

    open spec fn view(&self) -> ResolvedProviderView {
        ResolvedProviderView {
            kind: self.kind,
            provider: self.provider@,
            model: self.model@,
            base_url: self.base_url@,
            secret: self.secret,
        }
    }
}

/// What the environment says on a service.
#[derive(Debug, PartialEq, Eq)]
pub struct EnvAnswers {
    pub provider: Option<String>,
    pub model: Option<String>,
    pub base_url: Option<String>,
    /// Whether it holds the secret.
    pub secret: bool,
}

pub struct EnvAnswersView {
    pub provider: Option<Seq<char>>,
    pub model: Option<Seq<char>>,
    pub base_url: Option<Seq<char>>,
    pub secret: bool,
}

impl View for EnvAnswers {
    type V = EnvAnswersView;

    open spec fn view(&self) -> EnvAnswersView {
        EnvAnswersView {
            provider: opt_view(self.provider),
            model: opt_view(self.model),
            base_url: opt_view(self.base_url),
            secret: self.secret,
        }
    }
}

/// What the store of secrets says on a service.
#[derive(Debug, Clone, Copy, PartialEq, Eq, Structural)]
pub enum KeychainAnswer {
    Present,
    Missing,
    Unavailable,
}

pub open spec fn presence(in_env: bool, keychain: KeychainAnswer) -> SecretPresence {
    if in_env {
        SecretPresence::Environment
    } else {
        match keychain {
            KeychainAnswer::Present => SecretPresence::Keychain,
            KeychainAnswer::Missing => SecretPresence::Missing,
            KeychainAnswer::Unavailable => SecretPresence::Unavailable,
        }
    }
}

/// The settings of a service, given what the environment and the store of secrets say.
pub open spec fn resolved(
    kind: ProviderKind,
    stored: StoredProvider,
    env: EnvAnswersView,
    keychain: KeychainAnswer,
    default_provider: Seq<char>,
) -> ResolvedProviderView {
    ResolvedProviderView {
        kind,
        provider: resolved_field(env.provider, stored.provider@, default_provider),
        model: resolved_field(env.model, stored.model@, ""@),
        base_url: resolved_field(env.base_url, stored.base_url@, ""@),
        secret: presence(env.secret, keychain),
    }
}

/// The settings of a service, given what the environment and the store of secrets say.
pub fn resolve_from(
    kind: ProviderKind,
    stored: &StoredProvider,
    env: EnvAnswers,
    keychain: KeychainAnswer,
    default_provider: &str,
) -> (r: ResolvedProvider)
    ensures
        r@ == resolved(kind, *stored, env@, keychain, default_provider@),
{
    let in_env: bool = env.secret;
    ResolvedProvider {
        kind,
        provider: field(env.provider, stored.provider.as_str(), default_provider),
        model: field(env.model, stored.model.as_str(), ""),
        base_url: field(env.base_url, stored.base_url.as_str(), ""),
        secret: if in_env {
            SecretPresence::Environment
        } else {
            match keychain {
                KeychainAnswer::Present => SecretPresence::Keychain,
                KeychainAnswer::Missing => SecretPresence::Missing,
                KeychainAnswer::Unavailable => SecretPresence::Unavailable,
            }
        },
    }
}

/// Resolves the settings of a service. Which provider is the default depends on what is
/// installed, so the caller says.
pub fn resolve_with_default<E: Env + ?Sized, S: SecretStore + ?Sized>(
    kind: ProviderKind,
    stored: &StoredProvider,
    env: &E,
    secrets: &S,
    default_provider: &str,
) -> (r: ResolvedProvider)
    ensures
        is_resolution(kind, *stored, env, secrets, default_provider@, r@),
{
    let provider_key = env_name(kind, "_PROVIDER");
    let model_key = env_name(kind, "_MODEL");
    let base_url_key = env_name(kind, "_BASE_URL");
    let key = secret_env_key(kind);
    let held = ask(env, key.as_str());
    let answers = EnvAnswers {
        provider: ask(env, provider_key.as_str()),
        model: ask(env, model_key.as_str()),
        base_url: ask(env, base_url_key.as_str()),
        secret: held.is_some(),
    };
    assert(env_says(env, env_key(kind, "_API_KEY"@), opt_view(held)));
    let keychain: KeychainAnswer = if answers.secret {
        KeychainAnswer::Missing
    } else {
        let name = secret_key(kind);
        let k = name.as_str();
        let found = secrets.get(k);
        assert(call_ensures(S::get, (secrets, k), found));
        assert(store_says(secrets, store_key(kind), found));
        keychain_answer(&found)
    };
    let ghost given = answers@;
    let r = resolve_from(kind, stored, answers, keychain, default_provider);
    assert(r@ == resolved(kind, *stored, given, keychain, default_provider@));
    r
}

/// Asks the environment for a variable.
fn ask<E: Env + ?Sized>(env: &E, key: &str) -> (r: Option<String>)
    ensures
        env_says(env, key@, opt_view(r)),
{
    let r = env.get(key);
    assert(call_ensures(E::get, (env, key), r));
    r
}

/// What the answer of a store of secrets comes to.
pub open spec fn answer_kind(found: Result<Secret, SecretError>) -> KeychainAnswer {
    match found {
        Ok(_) => KeychainAnswer::Present,
        Err(SecretError::NotFound) => KeychainAnswer::Missing,
        Err(SecretError::Unavailable(_)) => KeychainAnswer::Unavailable,
    }
}

fn keychain_answer(found: &Result<Secret, SecretError>) -> (r: KeychainAnswer)
    ensures
        r == answer_kind(*found),
{
    match found {
        Ok(_) => KeychainAnswer::Present,
        Err(SecretError::NotFound) => KeychainAnswer::Missing,
        Err(SecretError::Unavailable(_)) => KeychainAnswer::Unavailable,
    }
}

/// Whether the settings of a service are those that follow from what the environment and the
/// store of secrets answer, asked for the names of that service. The store is asked only where
/// the environment holds no secret.
pub open spec fn is_resolution<E: Env + ?Sized, S: SecretStore + ?Sized>(
    kind: ProviderKind,
    stored: StoredProvider,
    env: &E,
    secrets: &S,
    default_provider: Seq<char>,
    r: ResolvedProviderView,
) -> bool {
    exists|answers: EnvAnswersView, keychain: KeychainAnswer|
        {
            &&& r == #[trigger] resolved(kind, stored, answers, keychain, default_provider)
            &&& env_says(env, env_key(kind, "_PROVIDER"@), answers.provider)
            &&& env_says(env, env_key(kind, "_MODEL"@), answers.model)
            &&& env_says(env, env_key(kind, "_BASE_URL"@), answers.base_url)
            &&& exists|held: Option<Seq<char>>|
                #[trigger] env_says(env, env_key(kind, "_API_KEY"@), held) && answers.secret
                    == held is Some
            &&& !answers.secret ==> exists|found: Result<Secret, SecretError>|
                #[trigger] store_says(secrets, store_key(kind), found) && keychain == answer_kind(
                    found,
                )
        }
}

/// The environment wins over what was set, and that over the default; and each field says
/// which of the three it was.
pub proof fn the_environment_wins(
    kind: ProviderKind,
    stored: StoredProvider,
    env: EnvAnswersView,
    keychain: KeychainAnswer,
    default_provider: Seq<char>,
)
    ensures
        ({
            let r = resolved(kind, stored, env, keychain, default_provider);
            &&& env.model matches Some(v) ==> r.model.value == v && r.model.source is Environment
            &&& env.model is None && stored.model@.len() > 0 ==> r.model.value == stored.model@
                && r.model.source is Settings
            &&& env.provider is None && stored.provider@.len() == 0 ==> r.provider.value
                == default_provider && r.provider.source is Default
            &&& env.secret ==> r.secret is Environment
            &&& !env.secret ==> (r.secret is Missing <==> keychain is Missing) && (
            r.secret is Unavailable <==> keychain is Unavailable)
        }),
{
}

/// What a secret is, given what the environment holds and what the store of secrets says.
pub fn choose_secret(from_env: Option<String>, stored: Option<Result<Secret, SecretError>>) -> (r:
    Result<Secret, SecretError>)
    requires
        from_env is None ==> stored is Some,
    ensures
        from_env matches Some(v) ==> r is Ok && r->Ok_0@ == v@,
        from_env is None ==> Some(r) == stored,
{
    match from_env {
        Some(v) => Ok(Secret::new(v)),
        None => match stored {
            Some(r) => r,
            None => Err(SecretError::NotFound),
        },
    }
}

/// Gets the secret of a service: from the environment, else from the store, which is not
/// asked where the environment has it.
pub fn secret_value<E: Env + ?Sized, S: SecretStore + ?Sized>(
    kind: ProviderKind,
    env: &E,
    secrets: &S,
) -> (r: Result<Secret, SecretError>)
    ensures
        ({
            ||| r matches Ok(v) && env_says(env, env_key(kind, "_API_KEY"@), Some(v@))
            ||| env_says(env, env_key(kind, "_API_KEY"@), None) && store_says(
                secrets,
                store_key(kind),
                r,
            )
        }),
{
    let key = secret_env_key(kind);
    let held = ask(env, key.as_str());
    assert(env_says(env, env_key(kind, "_API_KEY"@), opt_view(held)));
    match held {
        Some(v) => choose_secret(Some(v), None),
        None => {
            let name = secret_key(kind);
            let k = name.as_str();
            let found = secrets.get(k);
            assert(call_ensures(S::get, (secrets, k), found));
            choose_secret(None, Some(found))
        },
    }
}

// ---------------------------------------------------------------------------
// Saving
// ---------------------------------------------------------------------------

/// The service that a word names, or what to say where there is none of that name.
pub fn checked_kind(kind: &str) -> (r: Result<ProviderKind, String>)
    ensures
        match ProviderKind::from_word(kind@) {
            Some(k) => r == Ok::<ProviderKind, String>(k),
            None => r is Err && r->Err_0@ == "未知的 Provider 類別"@,
        },
{
    match ProviderKind::parse(kind) {
        Some(k) => Ok(k),
        None => Err("未知的 Provider 類別".to_owned()),
    }
}

/// What is saved of the settings of a service: without white space around the values.
pub fn provider_to_save(provider: &str, model: &str, base_url: &str) -> (r: StoredProvider)
    ensures
        r.provider@ == trimmed(provider@),
        r.model@ == trimmed(model@),
        r.base_url@ == trimmed(base_url@),
        r.options@.len() == 0,
{
    StoredProvider {
        provider: trim(provider),
        model: trim(model),
        base_url: trim(base_url),
        options: String::new(),
    }
}

/// The secret to save, or what to say where it is blank. No message holds the value.
pub fn secret_to_save(value: &str) -> (r: Result<String, String>)
    ensures
        trimmed(value@).len() == 0 ==> r is Err && r->Err_0@ == "密鑰不得為空"@,
        trimmed(value@).len() > 0 ==> r is Ok && r->Ok_0@ == trimmed(value@),
{
    let v = trim(value);
    if v.as_str().is_empty() {
        Err("密鑰不得為空".to_owned())
    } else {
        Ok(v)
    }
}

/// Where settings are read from and secrets are kept.
pub struct ConfigHandle {
    pub secrets: Box<dyn SecretStore>,
    pub env: Box<dyn Env>,
}

/// What became of a change in a store of secrets.
pub open spec fn stored_answer(r: Result<(), SecretError>) -> Result<(), Seq<char>> {
    match r {
        Ok(_) => Ok(()),
        Err(e) => Err(e.words()),
    }
}

pub open spec fn text_answer(r: Result<(), String>) -> Result<(), Seq<char>> {
    match r {
        Ok(_) => Ok(()),
        Err(e) => Err(e@),
    }
}

fn store_answer(r: Result<(), SecretError>) -> (t: Result<(), String>)
    ensures
        text_answer(t) == stored_answer(r),
{
    match r {
        Ok(()) => Ok(()),
        Err(e) => Err(e.message()),
    }
}

/// Puts the secret of a service into a store, under the name of that service and without white
/// space around it. A name that is no service, and a blank secret, are refused before the store
/// is asked; what is said of a failure holds the reason and not the secret.
pub fn put_secret<S: SecretStore + ?Sized>(secrets: &S, kind: &str, value: &str) -> (r: Result<
    (),
    String,
>)
    ensures
        match ProviderKind::from_word(kind@) {
            None => r is Err && r->Err_0@ == "未知的 Provider 類別"@,
            Some(k) => if trimmed(value@).len() == 0 {
                r is Err && r->Err_0@ == "密鑰不得為空"@
            } else {
                exists|key: &str, v: &str, a: Result<(), SecretError>|
                    key@ == store_key(k) && v@ == trimmed(value@) && text_answer(r)
                        == stored_answer(a) && #[trigger] call_ensures(S::set, (secrets, key, v), a)
            },
        },
{
    let k = match checked_kind(kind) {
        Ok(k) => k,
        Err(e) => {
            return Err(e);
        },
    };
    let v = match secret_to_save(value) {
        Ok(v) => v,
        Err(e) => {
            return Err(e);
        },
    };
    let key = secret_key(k);
    let (name, text) = (key.as_str(), v.as_str());
    let a = secrets.set(name, text);
    assert(call_ensures(S::set, (secrets, name, text), a));
    store_answer(a)
}

/// Takes the secret of a service out of a store.
pub fn remove_secret<S: SecretStore + ?Sized>(secrets: &S, kind: &str) -> (r: Result<(), String>)
    ensures
        match ProviderKind::from_word(kind@) {
            None => r is Err && r->Err_0@ == "未知的 Provider 類別"@,
            Some(k) => exists|key: &str, a: Result<(), SecretError>|
                key@ == store_key(k) && text_answer(r) == stored_answer(a) && #[trigger] call_ensures(
                    S::delete,
                    (secrets, key),
                    a,
                ),
        },
{
    let k = match checked_kind(kind) {
        Ok(k) => k,
        Err(e) => {
            return Err(e);
        },
    };
    let key = secret_key(k);
    let name = key.as_str();
    let a = secrets.delete(name);
    assert(call_ensures(S::delete, (secrets, name), a));
    store_answer(a)
}

impl ConfigHandle {
    /// The settings of both services, first that for speech.
    pub fn settings(
        &self,
        stt: &StoredProvider,
        llm: &StoredProvider,
        backends: &[BackendOption],
    ) -> (r: Vec<ResolvedProvider>)
        ensures
            r@.len() == 2,
            is_resolution(
                ProviderKind::Stt,
                *stt,
                &*self.env,
                &*self.secrets,
                fallback(ProviderKind::Stt, views(backends@)),
                r@[0]@,
            ),
            is_resolution(
                ProviderKind::Llm,
                *llm,
                &*self.env,
                &*self.secrets,
                fallback(ProviderKind::Llm, views(backends@)),
                r@[1]@,
            ),
    {
        let mut out: Vec<ResolvedProvider> = Vec::new();
        out.push(
            resolve_with_default(
                ProviderKind::Stt,
                stt,
                &*self.env,
                &*self.secrets,
                default_provider(ProviderKind::Stt, backends),
            ),
        );
        out.push(
            resolve_with_default(
                ProviderKind::Llm,
                llm,
                &*self.env,
                &*self.secrets,
                default_provider(ProviderKind::Llm, backends),
            ),
        );
        out
    }
}

// ---------------------------------------------------------------------------
// Back ends for summaries
// ---------------------------------------------------------------------------

/// How a back end is reached.
#[derive(Debug, Clone, Copy, PartialEq, Eq, Structural)]
pub enum BackendKind {
    /// Whichever command-line agent this machine has.
    System,
    /// One particular command-line agent.
    AgentCli,
    /// An interface over the network, with a key.
    Api,
    /// The built-in planner.
    Fixture,
}

/// A back end to choose from, and whether it works on this machine. One that does not is
/// still offered, with the reason: it can be installed.
#[derive(Debug, Clone, PartialEq, Eq)]
pub struct BackendOption {
    pub id: String,
    pub label: String,
    pub kind: BackendKind,
    pub available: bool,
    /// The version, or why it does not work.
    pub detail: String,
    pub needs_secret: bool,
}

pub struct BackendOptionView {
    pub id: Seq<char>,
    pub label: Seq<char>,
    pub kind: BackendKind,
    pub available: bool,
    pub detail: Seq<char>,
    pub needs_secret: bool,
}

impl View for BackendOption {
    type V = BackendOptionView;

    open spec fn view(&self) -> BackendOptionView {
        BackendOptionView {
            id: self.id@,
            label: self.label@,
            kind: self.kind,
            available: self.available,
            detail: self.detail@,
            needs_secret: self.needs_secret,
        }
    }
}

/// How a program did that was asked for its version.
#[derive(Debug, PartialEq, Eq)]
pub enum VersionRun {
    /// It could not be run, for the reason given.
    NotRun(String),
    /// It ended, and this is what it wrote.
    Ended { success: bool, stdout: String, stderr: String },
}

/// What a search for a command-line agent found.
#[derive(Debug, PartialEq, Eq)]
pub enum CliProbe {
    /// No such program.
    Absent,
    /// The program at `path`, and how it did when it was asked for its version.
    Found { path: String, run: VersionRun },
}

/// The first line of a text.
pub open spec fn first_line(s: Seq<char>) -> Seq<char> {
    s.take(crate::citation::first_index(s, '\n'))
}

fn take_first_line(s: &str) -> (r: String)
    ensures
        r@ == trimmed(first_line(s@)),
{
    let chars = chars_of(s);
    let mut to: usize = 0;
    while to < chars.len() && chars[to] != '\n'
        invariant
            to <= chars@.len(),
            forall|i: int| 0 <= i < to ==> chars@[i] != '\n',
        decreases chars.len() - to,
    {
        to = to + 1;
    }
    proof {
        crate::citation::lemma_first_index(chars@, '\n', to as int);
    }
    assert(chars@.subrange(0, to as int) =~= first_line(s@));
    let (a, b) = crate::text::trim_range(&chars, 0, to);
    string_of(&chars, a, b)
}

/// What a program's answer to a question for its version comes to: the version, or why it does
/// not work.
pub open spec fn probed(success: bool, stdout: Seq<char>, stderr: Seq<char>) -> Result<
    Seq<char>,
    Seq<char>,
> {
    if success {
        Ok(trimmed(first_line(stdout)))
    } else {
        Err(
            "回報失敗："@ + if stderr.len() == 0 {
                "未提供原因"@
            } else {
                trimmed(first_line(stderr))
            },
        )
    }
}

pub open spec fn text_result(r: Result<String, String>) -> Result<Seq<char>, Seq<char>> {
    match r {
        Ok(t) => Ok(t@),
        Err(e) => Err(e@),
    }
}

/// What a program's answer to a question for its version comes to.
pub fn probe_result(success: bool, stdout: &str, stderr: &str) -> (r: Result<String, String>)
    ensures
        text_result(r) == probed(success, stdout@, stderr@),
{
    if success {
        Ok(take_first_line(stdout))
    } else {
        let mut out = "回報失敗：".to_owned();
        if stderr.is_empty() {
            out.append("未提供原因");
        } else {
            let line = take_first_line(stderr);
            out.append(line.as_str());
        }
        Err(out)
    }
}

/// The version of a program that was found, or why it does not work.
pub open spec fn version_of(run: VersionRun) -> Result<Seq<char>, Seq<char>> {
    match run {
        VersionRun::NotRun(e) => Err("無法執行："@ + e@),
        VersionRun::Ended { success, stdout, stderr } => probed(success, stdout@, stderr@),
    }
}

/// The version of a program that was found, or why it does not work. A program that is there
/// and cannot be run is another matter than one that is not there.
pub fn probe_version(run: &VersionRun) -> (r: Result<String, String>)
    ensures
        text_result(r) == version_of(*run),
{
    match run {
        VersionRun::NotRun(e) => {
            let mut out = "無法執行：".to_owned();
            out.append(e.as_str());
            Err(out)
        },
        VersionRun::Ended { success, stdout, stderr } => probe_result(
            *success,
            stdout.as_str(),
            stderr.as_str(),
        ),
    }
}

/// A command-line agent as a back end.
pub open spec fn cli_option(name: AgentNameView, probe: CliProbe) -> BackendOptionView {
    BackendOptionView {
        id: name.id,
        label: name.label,
        kind: BackendKind::AgentCli,
        available: match probe {
            CliProbe::Absent => false,
            CliProbe::Found { run, .. } => version_of(run) is Ok,
        },
        detail: match probe {
            CliProbe::Absent => "PATH 上找不到 "@ + name.exe + "，尚未安裝"@,
            CliProbe::Found { path, run } => match version_of(run) {
                Ok(v) => if v.len() == 0 {
                    path@
                } else {
                    v
                },
                Err(e) => e,
            },
        },
        needs_secret: false,
    }
}

fn cli_backend(name: &AgentName, probe: CliProbe) -> (r: BackendOption)
    ensures
        r@ == cli_option(name@, probe),
{
    let (available, detail): (bool, String) = match probe {
        CliProbe::Absent => {
            let mut words = "PATH 上找不到 ".to_owned();
            words.append(name.exe.as_str());
            words.append("，尚未安裝");
            (false, words)
        },
        CliProbe::Found { path, run } => match probe_version(&run) {
            Ok(v) => {
                if v.as_str().is_empty() {
                    (true, path)
                } else {
                    (true, v)
                }
            },
            Err(e) => (false, e),
        },
    };
    BackendOption {
        id: name.id.clone(),
        label: name.label.clone(),
        kind: BackendKind::AgentCli,
        available,
        detail,
        needs_secret: false,
    }
}

/// The labels of those that work.
pub open spec fn ready_labels(a: BackendOptionView, b: BackendOptionView) -> Seq<Seq<char>> {
    let first = if a.available {
        seq![a.label]
    } else {
        Seq::empty()
    };
    if b.available {
        first.push(b.label)
    } else {
        first
    }
}

/// The back end that follows what this machine has.
pub open spec fn system_option(names: AgentNamesView, ready: Seq<Seq<char>>) -> BackendOptionView {
    BackendOptionView {
        id: "system"@,
        label: "系統 LLM 配置"@,
        kind: BackendKind::System,
        available: ready.len() > 0,
        detail: if ready.len() == 0 {
            "這台機器沒有偵測到 "@ + names.claude.label + " 或 "@ + names.codex.label
        } else {
            "使用已安裝的 "@ + joined(ready, "、"@)
        },
        needs_secret: false,
    }
}

pub open spec fn api_option() -> BackendOptionView {
    BackendOptionView {
        id: "api"@,
        label: "LLM API（自備金鑰）"@,
        kind: BackendKind::Api,
        available: true,
        detail: "填入模型、Base URL 與 API Key"@,
        needs_secret: true,
    }
}

pub open spec fn fixture_option() -> BackendOptionView {
    BackendOptionView {
        id: "fixture"@,
        label: "內建測試規劃器"@,
        kind: BackendKind::Fixture,
        available: true,
        detail: "不呼叫任何 Provider，用於離線驗證流程"@,
        needs_secret: false,
    }
}

/// The back ends to choose from, in the order in which they are shown.
pub open spec fn catalogue(names: AgentNamesView, claude: CliProbe, codex: CliProbe) -> Seq<
    BackendOptionView,
> {
    let a = cli_option(names.claude, claude);
    let b = cli_option(names.codex, codex);
    seq![system_option(names, ready_labels(a, b)), a, b, api_option(), fixture_option()]
}

/// The back ends to choose from, given what a search for the command-line agents found.
/// Whether they are logged in shows only when they are used.
pub fn llm_backends(names: &AgentNames, claude: CliProbe, codex: CliProbe) -> (r: Vec<
    BackendOption,
>)
    ensures
        views(r@) == catalogue(names@, claude, codex),
{
    let a = cli_backend(&names.claude, claude);
    let b = cli_backend(&names.codex, codex);
    let mut ready: Vec<String> = Vec::new();
    if a.available {
        ready.push(a.label.clone());
    }
    if b.available {
        ready.push(b.label.clone());
    }
    assert(views(ready@) =~= ready_labels(a@, b@));
    let installed = join(&ready, "、");
    let system = BackendOption {
        id: "system".to_owned(),
        label: "系統 LLM 配置".to_owned(),
        kind: BackendKind::System,
        available: ready.len() > 0,
        detail: if ready.len() == 0 {
            let mut words = "這台機器沒有偵測到 ".to_owned();
            words.append(names.claude.label.as_str());
            words.append(" 或 ");
            words.append(names.codex.label.as_str());
            words
        } else {
            let mut words = "使用已安裝的 ".to_owned();
            words.append(installed.as_str());
            words
        },
        needs_secret: false,
    };
    let api = BackendOption {
        id: "api".to_owned(),
        label: "LLM API（自備金鑰）".to_owned(),
        kind: BackendKind::Api,
        available: true,
        detail: "填入模型、Base URL 與 API Key".to_owned(),
        needs_secret: true,
    };
    let fixture = BackendOption {
        id: "fixture".to_owned(),
        label: "內建測試規劃器".to_owned(),
        kind: BackendKind::Fixture,
        available: true,
        detail: "不呼叫任何 Provider，用於離線驗證流程".to_owned(),
        needs_secret: false,
    };
    let ghost want = catalogue(names@, claude, codex);
    let mut out: Vec<BackendOption> = Vec::new();
    out.push(system);
    out.push(a);
    out.push(b);
    out.push(api);
    out.push(fixture);
    assert(views(out@) =~= want);
    out
}

/// Whether the machine's own configuration can be used.
pub open spec fn system_works(backends: Seq<BackendOptionView>) -> bool {
    exists|i: int|
        0 <= i < backends.len() && (#[trigger] backends[i]).kind is System && backends[i].available
}

/// The default back end for summaries. Where no command-line agent is found it is the
/// built-in planner: one that needs a key first would be broken from the start.
pub fn default_llm_provider(backends: &[BackendOption]) -> (r: &'static str)
    ensures
        r@ == if system_works(views(backends@)) {
            "system"@
        } else {
            "fixture"@
        },
{
    let ghost all = views(backends@);
    let mut i: usize = 0;
    while i < backends.len()
        invariant
            i <= backends@.len(),
            all == views(backends@),
            forall|j: int|
                0 <= j < i ==> !((#[trigger] all[j]).kind is System && all[j].available),
        decreases backends.len() - i,
    {
        if backends[i].kind == BackendKind::System && backends[i].available {
            assert(all[i as int].kind is System && all[i as int].available);
            return "system";
        }
        i = i + 1;
    }
    "fixture"
}

/// The default provider of a service.
pub open spec fn fallback(kind: ProviderKind, backends: Seq<BackendOptionView>) -> Seq<char> {
    if kind is Llm && system_works(backends) {
        "system"@
    } else {
        "fixture"@
    }
}

/// The default provider of a service.
pub fn default_provider(kind: ProviderKind, backends: &[BackendOption]) -> (r: &'static str)
    ensures
        r@ == fallback(kind, views(backends@)),
{
    match kind {
        ProviderKind::Stt => "fixture",
        ProviderKind::Llm => default_llm_provider(backends),
    }
}

/// The endings that a program's file may have where `PATHEXT` is what it is taken for.
pub const USUAL_ENDINGS: &'static str = ".COM;.EXE;.BAT;.CMD";

/// The files of a program among `parts`, each of them an ending, without those that are empty.
pub open spec fn named_files(name: Seq<char>, parts: Seq<Seq<char>>) -> Seq<Seq<char>>
    decreases parts.len(),
{
    if parts.len() == 0 {
        Seq::empty()
    } else {
        let before = named_files(name, parts.drop_last());
        if parts.last().len() == 0 {
            before
        } else {
            before.push(name + parts.last())
        }
    }
}

/// The files that a program may be, in the order in which they are looked for: on Windows one
/// for each ending in `PATHEXT`, elsewhere the name itself.
pub open spec fn program_files(name: Seq<char>, windows: bool, pathext: Option<Seq<char>>) -> Seq<
    Seq<char>,
> {
    if windows {
        named_files(
            name,
            split_on(
                match pathext {
                    Some(p) => p,
                    None => USUAL_ENDINGS@,
                },
                ';',
            ),
        )
    } else {
        seq![name]
    }
}

/// The files that a program may be, in the order in which they are looked for in each directory.
pub fn exe_files(name: &str, windows: bool, pathext: Option<&str>) -> (r: Vec<String>)
    ensures
        views(r@) == program_files(name@, windows, opt_view(pathext)),
{
    let mut out: Vec<String> = Vec::new();
    if !windows {
        out.push(name.to_owned());
        assert(views(out@) =~= seq![name@]);
        return out;
    }
    let list = match pathext {
        Some(p) => p,
        None => USUAL_ENDINGS,
    };
    let chars = chars_of(list);
    let parts = split(&chars, ';');
    let ghost all = parts_view(parts@);
    let mut i: usize = 0;
    assert(views(out@) =~= named_files(name@, all.take(0)));
    while i < parts.len()
        invariant
            i <= parts@.len(),
            all == parts_view(parts@),
            views(out@) == named_files(name@, all.take(i as int)),
        decreases parts.len() - i,
    {
        assert(all.take(i + 1).drop_last() =~= all.take(i as int));
        assert(all.take(i + 1).last() == parts@[i as int]@);
        if parts[i].len() > 0 {
            let ghost before = out@;
            let ending = string_of(&parts[i], 0, parts[i].len());
            assert(ending@ =~= parts@[i as int]@);
            let mut file = name.to_owned();
            file.append(ending.as_str());
            out.push(file);
            assert(views(out@) =~= views(before).push(name@ + ending@));
        }
        i = i + 1;
    }
    assert(all.take(i as int) =~= all);
    out
}

/// All five back ends are always offered in the same order, whatever is installed. Only the one
/// over the network needs a key, and it works, as the built-in one does. The machine's own
/// configuration works exactly where one of the agents does. One that does not work says why.
/// The two agents go by the names that are handed in.
pub proof fn the_catalogue_is_complete(names: AgentNamesView, claude: CliProbe, codex: CliProbe)
    ensures
        ({
            let c = catalogue(names, claude, codex);
            &&& c.len() == 5
            &&& c[0].id == "system"@ && c[1].id == names.claude.id && c[2].id == names.codex.id
                && c[3].id == "api"@ && c[4].id == "fixture"@
            &&& c[3].available && c[4].available
            &&& c[0].available <==> exists|i: int|
                0 <= i < 5 && (#[trigger] c[i]).kind is AgentCli && c[i].available
            &&& system_works(c) <==> c[0].available
            &&& forall|i: int| 0 <= i < 5 ==> ((#[trigger] c[i]).needs_secret <==> i == 3)
            &&& forall|i: int| 0 <= i < 5 && !(#[trigger] c[i]).available ==> !blank(c[i].detail)
        }),
{
    let c = catalogue(names, claude, codex);
    if c[0].available {
        assert(c[0].kind is System);
        if c[1].available {
            assert(c[1].kind is AgentCli);
        } else {
            assert(c[2].kind is AgentCli);
        }
    }
    if !c[0].available {
        reveal_strlit("這台機器沒有偵測到 ");
        assert(c[0].detail[0] == '這');
    }
    lemma_reasons_not_blank(names.claude, claude);
    lemma_reasons_not_blank(names.codex, codex);
}

proof fn lemma_reasons_not_blank(name: AgentNameView, probe: CliProbe)
    ensures
        !cli_option(name, probe).available ==> !blank(cli_option(name, probe).detail),
{
    let detail = cli_option(name, probe).detail;
    reveal_strlit("PATH 上找不到 ");
    reveal_strlit("無法執行：");
    reveal_strlit("回報失敗：");
    match probe {
        CliProbe::Absent => {
            assert(detail[0] == 'P');
        },
        CliProbe::Found { run, .. } => {
            if version_of(run) is Err {
                assert(detail[0] == '無' || detail[0] == '回');
            }
        },
    }
}

} // verus!
