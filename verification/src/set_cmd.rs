//! The command that sets one setting of the project's configuration.

use vstd::prelude::*;
use vstd::string::StringExecFns;
use crate::appconfig::{
    distinct_names, lemma_profile_from, profile_from, ConfigModel, Profile, ProfileModel, RootCfg,
};
use crate::numbers::{parse_u32, u32_of};
use crate::strings::{chars_of, split_by, split_char, starts_with_str, str_eq, texts};

verus! {

/// Why a setting was not set.
#[derive(Clone, Copy, PartialEq, Eq, Debug, Structural)]
pub enum SetError {
    /// The value is no whole number that `u32` holds.
    BadNumber,
    /// A key under `profiles.` is not of the form `profiles.<name>.<field>`.
    BadProfileKey,
    /// A profile has no such field.
    UnknownField,
    /// There is no such key.
    UnknownKey,
}

/// A profile that a setting makes where there was none.
pub open spec fn new_profile() -> ProfileModel {
    ProfileModel { provider: "openai"@, api_base: None, api_key: None, api_key_env: None, model: None }
}

/// A profile with one field set, where the field is named as in the
/// file; `None` for a name that is no field.
pub open spec fn with_field(p: ProfileModel, field: Seq<char>, value: Seq<char>) -> Option<
    ProfileModel,
> {
    if field == "provider"@ {
        Some(ProfileModel { provider: value, ..p })
    } else if field == "api_base"@ {
        Some(ProfileModel { api_base: Some(value), ..p })
    } else if field == "api_key"@ {
        Some(ProfileModel { api_key: Some(value), ..p })
    } else if field == "api_key_env"@ {
        Some(ProfileModel { api_key_env: Some(value), ..p })
    } else if field == "model"@ {
        Some(ProfileModel { model: Some(value), ..p })
    } else {
        None
    }
}

/// The field of a profile that a short key stands for: the key itself,
/// but the model for `profile_model`.
pub open spec fn field_of_alias(key: Seq<char>) -> Seq<char> {
    if key == "profile_model"@ {
        "model"@
    } else {
        key
    }
}

/// The profiles with field `field` of the profile `name` set, the profile
/// made first if there was none; `None` if there is no such field.
pub open spec fn with_profile_field(
    profiles: Seq<(Seq<char>, ProfileModel)>,
    name: Seq<char>,
    field: Seq<char>,
    value: Seq<char>,
) -> Option<Seq<(Seq<char>, ProfileModel)>> {
    match profile_from(profiles, name, 0) {
        Some(i) => match with_field(profiles[i].1, field, value) {
            Some(p) => Some(profiles.update(i, (name, p))),
            None => None,
        },
        None => match with_field(new_profile(), field, value) {
            Some(p) => Some(profiles.push((name, p))),
            None => None,
        },
    }
}

/// The configuration with one setting set. The keys `default_profile`,
/// `lang`, `model` and `max_output_tokens` set the setting of that name;
/// `profiles.<name>.<field>` sets a field of a profile; any other key is
/// a short key for a field of the profile that `profile` names, or else
/// the default profile, or else `openai`.
pub open spec fn applied(
    cfg: ConfigModel,
    key: Seq<char>,
    value: Seq<char>,
    profile: Option<Seq<char>>,
) -> Result<ConfigModel, SetError> {
    if key == "default_profile"@ {
        Ok(ConfigModel { default_profile: Some(value), ..cfg })
    } else if key == "lang"@ {
        Ok(ConfigModel { lang: Some(value), ..cfg })
    } else if key == "model"@ {
        Ok(ConfigModel { model: Some(value), ..cfg })
    } else if key == "max_output_tokens"@ {
        match u32_of(value) {
            Some(n) => Ok(ConfigModel { max_output_tokens: Some(n), ..cfg }),
            None => Err(SetError::BadNumber),
        }
    } else if "profiles."@.is_prefix_of(key) {
        let parts = split_by(key, '.');
        if parts.len() != 3 {
            Err(SetError::BadProfileKey)
        } else {
            match with_profile_field(cfg.profiles, parts[1], parts[2], value) {
                Some(ps) => Ok(ConfigModel { profiles: ps, ..cfg }),
                None => Err(SetError::UnknownField),
            }
        }
    } else {
        let name = match profile {
            Some(n) => n,
            None => match cfg.default_profile {
                Some(d) => d,
                None => "openai"@,
            },
        };
        match with_profile_field(cfg.profiles, name, field_of_alias(key), value) {
            Some(ps) => Ok(ConfigModel { profiles: ps, ..cfg }),
            None => Err(SetError::UnknownKey),
        }
    }
}

/// Setting a field of a profile leaves the profiles a table by name.
pub proof fn lemma_with_profile_field_distinct(
    profiles: Seq<(Seq<char>, ProfileModel)>,
    name: Seq<char>,
    field: Seq<char>,
    value: Seq<char>,
)
    requires
        distinct_names(profiles),
    ensures
        with_profile_field(profiles, name, field, value) matches Some(ps) ==> distinct_names(ps),
{
    lemma_profile_from(profiles, name, 0);
    match with_profile_field(profiles, name, field, value) {
        Some(ps) => {
            assert forall|i: int, j: int| 0 <= i < j < ps.len() implies ps[i].0 != ps[j].0 by {
                if j < profiles.len() {
                    assert(ps[i].0 == profiles[i].0);
                    assert(ps[j].0 == profiles[j].0);
                } else {
                    assert(ps[i].0 == profiles[i].0);
                }
            }
        },
        None => {},
    }
}

fn set_field(p: &mut Profile, field: &str, value: &str) -> (ok: bool)
    ensures
        match with_field(old(p)@, field@, value@) {
            Some(q) => ok && final(p)@ == q,
            None => !ok && final(p)@ == old(p)@,
        },
{
    if str_eq(field, "provider") {
        p.provider = String::from_str(value);
        true
    } else if str_eq(field, "api_base") {
        p.api_base = Some(String::from_str(value));
        true
    } else if str_eq(field, "api_key") {
        p.api_key = Some(String::from_str(value));
        true
    } else if str_eq(field, "api_key_env") {
        p.api_key_env = Some(String::from_str(value));
        true
    } else if str_eq(field, "model") {
        p.model = Some(String::from_str(value));
        true
    } else {
        false
    }
}

fn set_profile_field(cfg: &mut RootCfg, name: &str, field: &str, value: &str) -> (ok: bool)
    ensures
        final(cfg)@.default_profile == old(cfg)@.default_profile,
        final(cfg)@.lang == old(cfg)@.lang,
        final(cfg)@.model == old(cfg)@.model,
        final(cfg)@.max_output_tokens == old(cfg)@.max_output_tokens,
        match with_profile_field(old(cfg)@.profiles, name@, field@, value@) {
            Some(ps) => ok && final(cfg)@.profiles == ps,
            None => !ok,
        },
        old(cfg).wf() && ok ==> final(cfg).wf(),
{
    proof {
        if cfg.wf() {
            lemma_with_profile_field_distinct(cfg@.profiles, name@, field@, value@);
        }
    }
    let ghost before = cfg@.profiles;
    match cfg.find_profile(name) {
        Some(i) => {
            assert(before[i as int] == (cfg.profiles@[i as int].0@, cfg.profiles@[i as int].1@));
            let entry = &mut cfg.profiles[i];
            let ok = set_field(&mut entry.1, field, value);
            if ok {
                assert(cfg@.profiles =~= before.update(
                    i as int,
                    (name@, with_field(before[i as int].1, field@, value@)->0),
                ));
            }
            ok
        },
        None => {
            let mut p = Profile {
                provider: String::from_str("openai"),
                api_base: None,
                api_key: None,
                api_key_env: None,
                model: None,
            };
            assert(p@ == new_profile());
            let ok = set_field(&mut p, field, value);
            if ok {
                cfg.profiles.push((String::from_str(name), p));
                assert(cfg@.profiles =~= before.push(
                    (name@, with_field(new_profile(), field@, value@)->0),
                ));
            }
            ok
        },
    }
}

/// Sets one setting of a configuration.
pub fn apply_setting(cfg: RootCfg, key: &str, value: &str, profile: Option<&str>) -> (r: Result<
    RootCfg,
    SetError,
>)
    requires
        cfg.wf(),
    ensures
        r matches Ok(c) ==> c.wf(),
        match r {
            Ok(c) => applied(
                cfg@,
                key@,
                value@,
                match profile {
                    Some(n) => Some(n@),
                    None => None,
                },
            ) == Ok::<ConfigModel, SetError>(c@),
            Err(e) => applied(
                cfg@,
                key@,
                value@,
                match profile {
                    Some(n) => Some(n@),
                    None => None,
                },
            ) == Err::<ConfigModel, SetError>(e),
        },
{
    let mut cfg = cfg;
    let kc = chars_of(key);
    if str_eq(key, "default_profile") {
        cfg.default_profile = Some(String::from_str(value));
        Ok(cfg)
    } else if str_eq(key, "lang") {
        cfg.lang = Some(String::from_str(value));
        Ok(cfg)
    } else if str_eq(key, "model") {
        cfg.model = Some(String::from_str(value));
        Ok(cfg)
    } else if str_eq(key, "max_output_tokens") {
        let vc = chars_of(value);
        match parse_u32(vc.as_slice()) {
            Some(n) => {
                cfg.max_output_tokens = Some(n);
                Ok(cfg)
            },
            None => Err(SetError::BadNumber),
        }
    } else if starts_with_str(kc.as_slice(), "profiles.") {
        let parts = split_char(kc.as_slice(), '.');
        if parts.len() != 3 {
            return Err(SetError::BadProfileKey);
        }
        assert(texts(parts@)[1] == parts@[1]@);
        assert(texts(parts@)[2] == parts@[2]@);
        if set_profile_field(&mut cfg, parts[1].as_str(), parts[2].as_str(), value) {
            Ok(cfg)
        } else {
            Err(SetError::UnknownField)
        }
    } else {
        let name: String = match profile {
            Some(n) => String::from_str(n),
            None => match &cfg.default_profile {
                Some(d) => d.clone(),
                None => String::from_str("openai"),
            },
        };
        let field: &str = if str_eq(key, "profile_model") {
            "model"
        } else {
            key
        };
        if set_profile_field(&mut cfg, name.as_str(), field, value) {
            Ok(cfg)
        } else {
            Err(SetError::UnknownKey)
        }
    }
}

} // verus!
