//! Configuration: the settings of the user and of the project, how the
//! second overrides the first, and the settings that are in effect.

use vstd::prelude::*;
use vstd::string::StringExecFns;
use crate::paths::{join_path, joined};
use crate::strings::{clone_opt, str_eq, text_opt};

verus! {

/// How one provider is reached.
#[derive(Debug)]
pub struct Profile {
    pub provider: String,
    pub api_base: Option<String>,
    pub api_key: Option<String>,
    pub api_key_env: Option<String>,
    pub model: Option<String>,
}

/// What a profile says.
pub struct ProfileModel {
    pub provider: Seq<char>,
    pub api_base: Option<Seq<char>>,
    pub api_key: Option<Seq<char>>,
    pub api_key_env: Option<Seq<char>>,
    pub model: Option<Seq<char>>,
}

impl View for Profile {
    type V = ProfileModel;

    open spec fn view(&self) -> ProfileModel {
        ProfileModel {
            provider: self.provider@,
            api_base: text_opt(self.api_base),
            api_key: text_opt(self.api_key),
            api_key_env: text_opt(self.api_key_env),
            model: text_opt(self.model),
        }
    }
}

/// The settings of one configuration file. The profiles are a table by
/// name: no name occurs twice among them.
#[derive(Debug)]
pub struct RootCfg {
    pub default_profile: Option<String>,
    pub lang: Option<String>,
    pub model: Option<String>,
    pub max_output_tokens: Option<u32>,
    pub profiles: Vec<(String, Profile)>,
}

/// What a configuration file says.
pub struct ConfigModel {
    pub default_profile: Option<Seq<char>>,
    pub lang: Option<Seq<char>>,
    pub model: Option<Seq<char>>,
    pub max_output_tokens: Option<u32>,
    pub profiles: Seq<(Seq<char>, ProfileModel)>,
}

/// What a list of named profiles says.
pub open spec fn profiles_of(v: Seq<(String, Profile)>) -> Seq<(Seq<char>, ProfileModel)> {
    v.map_values(|p: (String, Profile)| (p.0@, p.1@))
}

impl View for RootCfg {
    type V = ConfigModel;

    open spec fn view(&self) -> ConfigModel {
        ConfigModel {
            default_profile: text_opt(self.default_profile),
            lang: text_opt(self.lang),
            model: text_opt(self.model),
            max_output_tokens: self.max_output_tokens,
            profiles: profiles_of(self.profiles@),
        }
    }
}

/// The settings that are in effect.
#[derive(Debug)]
pub struct Effective {
    pub profile_name: String,
    pub api_base: String,
    pub api_key: String,
    pub model: String,
    pub lang: String,
    pub max_output_tokens: u32,
    pub global_path: Option<String>,
    pub project_path: String,
}

/// What the settings in effect say.
pub struct EffectiveModel {
    pub profile_name: Seq<char>,
    pub api_base: Seq<char>,
    pub api_key: Seq<char>,
    pub model: Seq<char>,
    pub lang: Seq<char>,
    pub max_output_tokens: u32,
    pub global_path: Option<Seq<char>>,
    pub project_path: Seq<char>,
}

impl View for Effective {
    type V = EffectiveModel;

    open spec fn view(&self) -> EffectiveModel {
        EffectiveModel {
            profile_name: self.profile_name@,
            api_base: self.api_base@,
            api_key: self.api_key@,
            model: self.model@,
            lang: self.lang@,
            max_output_tokens: self.max_output_tokens,
            global_path: text_opt(self.global_path),
            project_path: self.project_path@,
        }
    }
}

/// Why no settings are in effect.
#[derive(PartialEq, Eq, Debug)]
pub enum ConfigError {
    /// Neither file defines the profile that was chosen; its name is given.
    ProfileNotFound(String),
    /// The profile names a variable for its key, and that variable, whose
    /// name is given, is not set.
    EnvNotSet(String),
    /// The profile holds no key and `OPENAI_API_KEY` is not set.
    ApiKeyMissing,
}

/// What an error of configuration says.
pub enum ConfigFault {
    ProfileNotFound(Seq<char>),
    EnvNotSet(Seq<char>),
    ApiKeyMissing,
}

impl View for ConfigError {
    type V = ConfigFault;

    open spec fn view(&self) -> ConfigFault {
        match self {
            ConfigError::ProfileNotFound(name) => ConfigFault::ProfileNotFound(name@),
            ConfigError::EnvNotSet(var) => ConfigFault::EnvNotSet(var@),
            ConfigError::ApiKeyMissing => ConfigFault::ApiKeyMissing,
        }
    }
}

/// No name occurs twice among the profiles.
pub open spec fn distinct_names(profiles: Seq<(Seq<char>, ProfileModel)>) -> bool {
    forall|i: int, j: int| 0 <= i < j < profiles.len() ==> profiles[i].0 != profiles[j].0
}

/// Where the configuration of the project at `project_root` is kept.
pub fn project_config_path(project_root: &str) -> (p: String)
    ensures
        p@ == joined(project_root@, ".gptcli/config.toml"@),
{
    join_path(project_root, ".gptcli/config.toml")
}

/// Where the user's configuration is kept: under the directory for
/// configuration if the system names one, else under `.config` in the home
/// directory, or in the current directory if there is no home.
pub open spec fn global_path_of(config_dir: Option<Seq<char>>, home_dir: Option<Seq<char>>) -> Seq<
    char,
> {
    match config_dir {
        Some(d) => joined(d, "gptcli/config.toml"@),
        None => joined(
            match home_dir {
                Some(h) => h,
                None => "."@,
            },
            ".config/gptcli/config.toml"@,
        ),
    }
}

/// Where the user's configuration is kept, given the directories that
/// the system names.
pub fn global_config_path_in(config_dir: Option<&str>, home_dir: Option<&str>) -> (p: String)
    ensures
        p@ == global_path_of(
            match config_dir {
                Some(d) => Some(d@),
                None => None,
            },
            match home_dir {
                Some(h) => Some(h@),
                None => None,
            },
        ),
{
    match config_dir {
        Some(d) => join_path(d, "gptcli/config.toml"),
        None => match home_dir {
            Some(h) => join_path(h, ".config/gptcli/config.toml"),
            None => join_path(".", ".config/gptcli/config.toml"),
        },
    }
}

/// `dirs::config_dir`: the user's directory for configuration, as the
/// system and the environment have it. Nothing is known of it.
#[verifier::external_body]
fn system_config_dir() -> (r: Option<String>) {
    dirs::config_dir().map(|p| p.to_string_lossy().into_owned())
}

/// `dirs::home_dir`: the user's home directory, as the system and the
/// environment have it. Nothing is known of it.
#[verifier::external_body]
fn system_home_dir() -> (r: Option<String>) {
    dirs::home_dir().map(|p| p.to_string_lossy().into_owned())
}

/// A path that `global_config_path_in` gives for some directories.
pub open spec fn is_global_path(p: Seq<char>) -> bool {
    exists|c: Option<Seq<char>>, h: Option<Seq<char>>| p == global_path_of(c, h)
}

/// Where the user's configuration is kept on this system.
pub fn global_config_path() -> (p: String)
    ensures
        is_global_path(p@),
{
    let c = system_config_dir();
    let p = match &c {
        Some(d) => global_config_path_in(Some(d.as_str()), None),
        None => {
            let h = system_home_dir();
            match &h {
                Some(d) => global_config_path_in(None, Some(d.as_str())),
                None => global_config_path_in(None, None),
            }
        },
    };
    p
}

/// The value of the first pair from position `from` on that bears `name`.
pub open spec fn value_from(pairs: Seq<(Seq<char>, Seq<char>)>, name: Seq<char>, from: int) -> Option<
    Seq<char>,
>
    decreases pairs.len() - from,
{
    if from < 0 || from >= pairs.len() {
        None
    } else if pairs[from].0 == name {
        Some(pairs[from].1)
    } else {
        value_from(pairs, name, from + 1)
    }
}

/// What a list of pairs of strings says.
pub open spec fn pairs_text(v: Seq<(String, String)>) -> Seq<(Seq<char>, Seq<char>)> {
    v.map_values(|p: (String, String)| (p.0@, p.1@))
}

/// The value of the variable `name` in an environment.
pub fn env_value(env: &[(String, String)], name: &str) -> (r: Option<String>)
    ensures
        text_opt(r) == value_from(pairs_text(env@), name@, 0),
{
    let mut i: usize = 0;
    while i < env.len()
        invariant
            i <= env.len(),
            value_from(pairs_text(env@), name@, 0) == value_from(pairs_text(env@), name@, i as int),
        decreases env.len() - i,
    {
        assert(pairs_text(env@)[i as int] == (env@[i as int].0@, env@[i as int].1@));
        if str_eq(env[i].0.as_str(), name) {
            return Some(env[i].1.clone());
        }
        i += 1;
    }
    None
}

/// The position of the first profile from `from` on that bears `name`.
pub open spec fn profile_from(profiles: Seq<(Seq<char>, ProfileModel)>, name: Seq<char>, from: int) -> Option<
    int,
>
    decreases profiles.len() - from,
{
    if from < 0 || from >= profiles.len() {
        None
    } else if profiles[from].0 == name {
        Some(from)
    } else {
        profile_from(profiles, name, from + 1)
    }
}

/// What a lookup finds: the first profile from `from` on that bears the
/// name, and none if no profile from there on bears it.
pub proof fn lemma_profile_from(profiles: Seq<(Seq<char>, ProfileModel)>, name: Seq<char>, from: int)
    requires
        0 <= from,
    ensures
        match profile_from(profiles, name, from) {
            Some(i) => from <= i < profiles.len() && profiles[i].0 == name && forall|k: int|
                from <= k < i ==> profiles[k].0 != name,
            None => forall|k: int| from <= k < profiles.len() ==> profiles[k].0 != name,
        },
    decreases profiles.len() - from,
{
    if from < profiles.len() && profiles[from].0 != name {
        lemma_profile_from(profiles, name, from + 1);
    }
}

/// Where no name occurs twice, a profile is found under its name: the
/// lookup of the name of an entry gives that entry and no other.
pub proof fn lemma_profile_lookup(profiles: Seq<(Seq<char>, ProfileModel)>, i: int)
    requires
        distinct_names(profiles),
        0 <= i < profiles.len(),
    ensures
        profile_from(profiles, profiles[i].0, 0) == Some(i),
{
    lemma_profile_from(profiles, profiles[i].0, 0);
}

/// The profile called `name` in a configuration.
pub open spec fn profile_in(cfg: ConfigModel, name: Seq<char>) -> Option<ProfileModel> {
    match profile_from(cfg.profiles, name, 0) {
        Some(i) => Some(cfg.profiles[i].1),
        None => None,
    }
}

/// The profile called `name`, where the project's file goes before the
/// user's.
pub open spec fn merged_profile(global: ConfigModel, project: ConfigModel, name: Seq<char>) -> Option<
    ProfileModel,
> {
    match profile_in(project, name) {
        Some(p) => Some(p),
        None => profile_in(global, name),
    }
}

/// The first of the values that is there.
pub open spec fn first_of(a: Option<Seq<char>>, b: Option<Seq<char>>, otherwise: Seq<char>) -> Seq<
    char,
> {
    match a {
        Some(x) => x,
        None => match b {
            Some(y) => y,
            None => otherwise,
        },
    }
}

/// The key of a profile: the value of the variable it names, which must
/// be set; else the key it holds; else the value of `OPENAI_API_KEY`.
pub open spec fn key_of(prof: ProfileModel, env: Seq<(Seq<char>, Seq<char>)>) -> Result<
    Seq<char>,
    ConfigFault,
> {
    match prof.api_key_env {
        Some(var) => match value_from(env, var, 0) {
            Some(k) => Ok(k),
            None => Err(ConfigFault::EnvNotSet(var)),
        },
        None => match prof.api_key {
            Some(k) => Ok(k),
            None => match value_from(env, "OPENAI_API_KEY"@, 0) {
                Some(k) => Ok(k),
                None => Err(ConfigFault::ApiKeyMissing),
            },
        },
    }
}

/// The settings in effect. A setting of the project's file goes before the
/// user's. The profile is the one that `GPTCLI_PROFILE` names, else the
/// default profile, else `openai`; it must be defined.
pub open spec fn effective_of(
    global: ConfigModel,
    project: ConfigModel,
    env: Seq<(Seq<char>, Seq<char>)>,
    global_path: Option<Seq<char>>,
    project_path: Seq<char>,
) -> Result<EffectiveModel, ConfigFault> {
    let name = first_of(
        value_from(env, "GPTCLI_PROFILE"@, 0),
        match project.default_profile {
            Some(d) => Some(d),
            None => global.default_profile,
        },
        "openai"@,
    );
    match merged_profile(global, project, name) {
        None => Err(ConfigFault::ProfileNotFound(name)),
        Some(prof) => match key_of(prof, env) {
            Err(e) => Err(e),
            Ok(key) => Ok(
                EffectiveModel {
                    profile_name: name,
                    api_base: match prof.api_base {
                        Some(b) => b,
                        None => "https://api.openai.com/v1"@,
                    },
                    api_key: key,
                    model: first_of(project.model, global.model, "gpt-4.1-mini"@),
                    lang: first_of(project.lang, global.lang, "auto"@),
                    max_output_tokens: match project.max_output_tokens {
                        Some(n) => n,
                        None => match global.max_output_tokens {
                            Some(n) => n,
                            None => 1200,
                        },
                    },
                    global_path: global_path,
                    project_path: project_path,
                },
            ),
        },
    }
}

impl RootCfg {
    /// A configuration that sets nothing.
    pub fn new() -> (c: RootCfg)
        ensures
            c@.default_profile is None,
            c@.lang is None,
            c@.model is None,
            c@.max_output_tokens is None,
            c@.profiles.len() == 0,
            c.wf(),
    {
        RootCfg {
            default_profile: None,
            lang: None,
            model: None,
            max_output_tokens: None,
            profiles: Vec::new(),
        }
    }

    /// No name occurs twice among the profiles, as in the table of a
    /// configuration file.
    pub open spec fn wf(&self) -> bool {
        distinct_names(self@.profiles)
    }

    /// Whether no name occurs twice among the profiles.
    pub fn is_wf(&self) -> (r: bool)
        ensures
            r == self.wf(),
    {
        let ghost ps = self@.profiles;
        let mut j: usize = 0;
        while j < self.profiles.len()
            invariant
                j <= self.profiles.len(),
                ps == self@.profiles,
                ps.len() == self.profiles@.len(),
                forall|a: int, b: int| 0 <= a < b < j ==> ps[a].0 != ps[b].0,
            decreases self.profiles.len() - j,
        {
            let mut i: usize = 0;
            while i < j
                invariant
                    i <= j < self.profiles.len(),
                    ps == self@.profiles,
                    ps.len() == self.profiles@.len(),
                    forall|a: int| 0 <= a < i ==> ps[a].0 != ps[j as int].0,
                decreases j - i,
            {
                assert(ps[i as int].0 == self.profiles@[i as int].0@);
                assert(ps[j as int].0 == self.profiles@[j as int].0@);
                if str_eq(self.profiles[i].0.as_str(), self.profiles[j].0.as_str()) {
                    return false;
                }
                i += 1;
            }
            j += 1;
        }
        true
    }

    /// The position of the profile called `name`.
    pub fn find_profile(&self, name: &str) -> (r: Option<usize>)
        ensures
            match r {
                Some(i) => profile_from(self@.profiles, name@, 0) == Some(i as int) && i
                    < self.profiles@.len() && self@.profiles[i as int].0 == name@,
                None => profile_from(self@.profiles, name@, 0) is None,
            },
    {
        let mut i: usize = 0;
        while i < self.profiles.len()
            invariant
                i <= self.profiles.len(),
                profile_from(self@.profiles, name@, 0) == profile_from(
                    self@.profiles,
                    name@,
                    i as int,
                ),
            decreases self.profiles.len() - i,
        {
            assert(self@.profiles[i as int].0 == self.profiles@[i as int].0@);
            if str_eq(self.profiles[i].0.as_str(), name) {
                return Some(i);
            }
            i += 1;
        }
        None
    }
}

fn pick(a: &Option<String>, b: &Option<String>, otherwise: &str) -> (r: String)
    ensures
        r@ == first_of(text_opt(*a), text_opt(*b), otherwise@),
{
    match a {
        Some(x) => x.clone(),
        None => match b {
            Some(y) => y.clone(),
            None => String::from_str(otherwise),
        },
    }
}

/// Works out the settings in effect from the user's configuration, the
/// project's, the environment, and where the two files are kept
/// (`global_path` is given if the user's file exists).
pub fn load_effective(
    global: &RootCfg,
    project: &RootCfg,
    env: &[(String, String)],
    global_path: Option<String>,
    project_path: String,
) -> (r: Result<Effective, ConfigError>)
    requires
        global.wf(),
        project.wf(),
    ensures
        match r {
            Ok(e) => effective_of(
                global@,
                project@,
                pairs_text(env@),
                text_opt(global_path),
                project_path@,
            ) == Ok::<EffectiveModel, ConfigFault>(e@),
            Err(e) => effective_of(
                global@,
                project@,
                pairs_text(env@),
                text_opt(global_path),
                project_path@,
            ) == Err::<EffectiveModel, ConfigFault>(e@),
        },
{
    let from_env = env_value(env, "GPTCLI_PROFILE");
    let default = match &project.default_profile {
        Some(d) => Some(d.clone()),
        None => clone_opt(&global.default_profile),
    };
    let name = pick(&from_env, &default, "openai");
    let prof: &Profile = match project.find_profile(name.as_str()) {
        Some(i) => {
            assert(project@.profiles[i as int].1 == project.profiles@[i as int].1@);
            &project.profiles[i].1
        },
        None => match global.find_profile(name.as_str()) {
            Some(i) => {
                assert(global@.profiles[i as int].1 == global.profiles@[i as int].1@);
                &global.profiles[i].1
            },
            None => {
                return Err(ConfigError::ProfileNotFound(name));
            },
        },
    };
    assert(merged_profile(global@, project@, name@) == Some(prof@));
    let key = match &prof.api_key_env {
        Some(var) => match env_value(env, var.as_str()) {
            Some(k) => k,
            None => {
                return Err(ConfigError::EnvNotSet(var.clone()));
            },
        },
        None => match &prof.api_key {
            Some(k) => k.clone(),
            None => match env_value(env, "OPENAI_API_KEY") {
                Some(k) => k,
                None => {
                    return Err(ConfigError::ApiKeyMissing);
                },
            },
        },
    };
    assert(key_of(prof@, pairs_text(env@)) == Ok::<Seq<char>, ConfigFault>(key@));
    let api_base = match &prof.api_base {
        Some(b) => b.clone(),
        None => String::from_str("https://api.openai.com/v1"),
    };
    let max_output_tokens: u32 = match project.max_output_tokens {
        Some(n) => n,
        None => match global.max_output_tokens {
            Some(n) => n,
            None => 1200,
        },
    };
    Ok(
        Effective {
            profile_name: name,
            api_base,
            api_key: key,
            model: pick(&project.model, &global.model, "gpt-4.1-mini"),
            lang: pick(&project.lang, &global.lang, "auto"),
            max_output_tokens,
            global_path,
            project_path,
        },
    )
}

} // verus!
