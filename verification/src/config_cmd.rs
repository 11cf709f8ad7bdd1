//! The configuration command: which files a first set-up writes, and how
//! the settings in effect are shown.

use vstd::prelude::*;
use vstd::string::StringExecFns;
use crate::appconfig::{Effective, EffectiveModel};
use crate::numbers::{nat_text, push_u64};
use crate::strings::{text_opt, texts};

verus! {

/// What the configuration command is asked to do.
#[derive(Clone, Copy, PartialEq, Eq, Debug, Structural)]
pub enum ConfigSub {
    /// Write the configuration files that do not exist yet.
    Init,
    /// Show the settings in effect.
    Show,
}

/// What a first set-up writes into the user's configuration.
pub open spec fn global_template() -> Seq<char> {
    "# ~/.config/gptcli/config.toml\ndefault_profile = \"openai\"\nlang = \"ru\"\nmodel = \"gpt-4.1-mini\"\nmax_output_tokens = 1200\n\n[profiles.openai]\nprovider = \"openai\"\napi_base = \"https://api.openai.com/v1\"\napi_key_env = \"OPENAI_API_KEY\"\n\n[profiles.local]\nprovider = \"openai\"\napi_base = \"http://localhost:8000/v1\"\napi_key = \"EMPTY\"\nmodel = \"qwen2.5-coder-32b\"\n"@
}

/// What a first set-up writes into the project's configuration.
pub open spec fn project_template() -> Seq<char> {
    "# .gptcli/config.toml (project override)\n# default_profile = \"local\"\n# lang = \"en\"\n# model = \"qwen2.5-coder-32b\"\n"@
}

/// A file to write, or none, and the line that reports it.
#[derive(Debug)]
pub struct InitStep {
    pub path: String,
    pub content: Option<String>,
    pub message: String,
}

/// What a step of the set-up says.
pub struct InitStepModel {
    pub path: Seq<char>,
    pub content: Option<Seq<char>>,
    pub message: Seq<char>,
}

impl View for InitStep {
    type V = InitStepModel;

    open spec fn view(&self) -> InitStepModel {
        InitStepModel {
            path: self.path@,
            content: text_opt(self.content),
            message: self.message@,
        }
    }
}

/// The step for one configuration file: a file that exists is left as it
/// is, one that does not is written from its template.
pub open spec fn init_step_of(
    what: Seq<char>,
    path: Seq<char>,
    exists: bool,
    template: Seq<char>,
) -> InitStepModel {
    if exists {
        InitStepModel { path: path, content: None, message: what + " config exists: "@ + path }
    } else {
        InitStepModel {
            path: path,
            content: Some(template),
            message: "created "@ + what + " config: "@ + path,
        }
    }
}

fn init_step(what: &str, path: &str, exists: bool, template: &str) -> (s: InitStep)
    ensures
        s@ == init_step_of(what@, path@, exists, template@),
{
    if exists {
        let mut m = String::from_str(what);
        m.append(" config exists: ");
        m.append(path);
        InitStep { path: String::from_str(path), content: None, message: m }
    } else {
        let mut m = String::from_str("created ");
        m.append(what);
        m.append(" config: ");
        m.append(path);
        InitStep {
            path: String::from_str(path),
            content: Some(String::from_str(template)),
            message: m,
        }
    }
}

/// The first set-up: the user's configuration, then the project's. Each
/// is written from its template unless it exists.
pub fn init(global: &str, project: &str, global_exists: bool, project_exists: bool) -> (steps: (
    InitStep,
    InitStep,
))
    ensures
        steps.0@ == init_step_of("global"@, global@, global_exists, global_template()),
        steps.1@ == init_step_of("project"@, project@, project_exists, project_template()),
{
    (
        init_step(
            "global",
            global,
            global_exists,
            "# ~/.config/gptcli/config.toml\ndefault_profile = \"openai\"\nlang = \"ru\"\nmodel = \"gpt-4.1-mini\"\nmax_output_tokens = 1200\n\n[profiles.openai]\nprovider = \"openai\"\napi_base = \"https://api.openai.com/v1\"\napi_key_env = \"OPENAI_API_KEY\"\n\n[profiles.local]\nprovider = \"openai\"\napi_base = \"http://localhost:8000/v1\"\napi_key = \"EMPTY\"\nmodel = \"qwen2.5-coder-32b\"\n",
        ),
        init_step(
            "project",
            project,
            project_exists,
            "# .gptcli/config.toml (project override)\n# default_profile = \"local\"\n# lang = \"en\"\n# model = \"qwen2.5-coder-32b\"\n",
        ),
    )
}

/// The lines that show the settings in effect. The key itself is never
/// shown, only where it comes from.
pub open spec fn shown(e: EffectiveModel, key_in_env: bool) -> Seq<Seq<char>> {
    seq![
        "Profile:   "@ + e.profile_name,
        "API base:  "@ + e.api_base,
        "Model:     "@ + e.model,
        "Lang:      "@ + e.lang,
        "Max out:   "@ + nat_text(e.max_output_tokens as nat),
        "Global:    "@ + match e.global_path {
            Some(p) => p,
            None => "-"@,
        },
        "Project:   "@ + e.project_path,
        "API key:   "@ + if key_in_env {
            "env:OPENAI_API_KEY"@
        } else {
            "config (hidden)"@
        },
    ]
}

fn labelled(label: &str, value: &str) -> (r: String)
    ensures
        r@ == label@ + value@,
{
    let mut r = String::from_str(label);
    r.append(value);
    r
}

/// Shows the settings in effect, one line for each; `key_in_env` says
/// whether `OPENAI_API_KEY` is set.
pub fn show(eff: &Effective, key_in_env: bool) -> (out: Vec<String>)
    ensures
        texts(out@) == shown(eff@, key_in_env),
{
    let mut out: Vec<String> = Vec::new();
    out.push(labelled("Profile:   ", eff.profile_name.as_str()));
    out.push(labelled("API base:  ", eff.api_base.as_str()));
    out.push(labelled("Model:     ", eff.model.as_str()));
    out.push(labelled("Lang:      ", eff.lang.as_str()));
    let mut max_out = String::from_str("Max out:   ");
    push_u64(&mut max_out, eff.max_output_tokens as u64);
    out.push(max_out);
    out.push(
        labelled(
            "Global:    ",
            match &eff.global_path {
                Some(p) => p.as_str(),
                None => "-",
            },
        ),
    );
    out.push(labelled("Project:   ", eff.project_path.as_str()));
    out.push(
        labelled(
            "API key:   ",
            if key_in_env {
                "env:OPENAI_API_KEY"
            } else {
                "config (hidden)"
            },
        ),
    );
    assert(texts(out@) =~= shown(eff@, key_in_env));
    out
}

} // verus!
