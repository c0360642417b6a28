//! Resolving variable values: commands built from templates, static values
//! expanded per environment, and the options handed to a manual prompt.
use vstd::prelude::*;
use vstd::string::StringExecFns;

use crate::template::{build_context, expand_from, expand_template, smap_view, unresolved_from,
    unresolved_msg};
use crate::types::{assoc_get, StrMap};

verus! {

/// Result of executing a source command.
pub struct CommandResult {
    pub value: String,
    pub stderr: String,
}

/// The options of one manual prompt.
pub struct ManualResolveOptions {
    pub var_name: String,
    pub key: String,
    pub description: String,
    pub source_instructions: Option<String>,
    pub env_name: String,
    pub env_config: StrMap,
    pub sensitive: bool,
    pub non_interactive: bool,
}

/// The context a source command template is expanded in: the environment's
/// configuration plus the built-in `environment` and `key` values.
pub open spec fn command_context(
    env_config: Seq<(String, String)>,
    env_name: Seq<char>,
    key: Seq<char>,
) -> Map<Seq<char>, Seq<char>> {
    smap_view(env_config).insert("environment"@, env_name).insert("key"@, key)
}

/// Builds the resolved command string from a source command template: the
/// template expanded in the command context, under the key chosen for the
/// variable.
pub fn build_command(
    source_command_template: &str,
    var_name: &str,
    source_key: Option<&str>,
    env_name: &str,
    env_config: &StrMap,
) -> (r: Result<String, String>)
    ensures
        ({
            let k = match source_key {
                Some(s) => s@,
                None => var_name@,
            };
            let m = command_context(env_config.entries@, env_name@, k);
            match r {
                Ok(cmd) => unresolved_from(source_command_template@, 0, m).len() == 0 && cmd@
                    == expand_from(source_command_template@, 0, m),
                Err(msg) => unresolved_from(source_command_template@, 0, m).len() > 0 && msg@
                    == unresolved_msg(unresolved_from(source_command_template@, 0, m)),
            }
        }),
{
    let key = match source_key {
        Some(s) => s,
        None => var_name,
    };
    let ctx = build_context(env_name, env_config, key);
    expand_template(source_command_template, &ctx)
}

/// The message reported when no static value exists for an environment.
pub open spec fn missing_static_msg(var_name: Seq<char>, env_name: Seq<char>) -> Seq<char> {
    var_name + ": no static value defined for environment \""@ + env_name + "\""@
}

/// Resolves a static variable value for the given environment: the declared
/// value with its template placeholders expanded in the command context,
/// keyed by the variable's own name.
pub fn resolve_static(
    var_name: &str,
    values: &StrMap,
    env_name: &str,
    env_config: &StrMap,
) -> (r: Result<String, String>)
    ensures
        ({
            let m = command_context(env_config.entries@, env_name@, var_name@);
            match assoc_get(values.entries@, env_name@) {
                None => r is Err && r->Err_0@ == missing_static_msg(var_name@, env_name@),
                Some(raw) => match r {
                    Ok(v) => unresolved_from(raw@, 0, m).len() == 0 && v@ == expand_from(
                        raw@,
                        0,
                        m,
                    ),
                    Err(msg) => unresolved_from(raw@, 0, m).len() > 0 && msg@ == unresolved_msg(
                        unresolved_from(raw@, 0, m),
                    ),
                },
            }
        }),
{
    let raw_value = match values.get(env_name) {
        Some(v) => v,
        None => {
            proof {
                reveal_strlit(": no static value defined for environment \"");
                reveal_strlit("\"");
            }
            let mut msg: String = var_name.to_owned();
            msg.append(": no static value defined for environment \"");
            msg.append(env_name);
            msg.append("\"");
            proof {
                assert(msg@ =~= missing_static_msg(var_name@, env_name@));
            }
            return Err(msg);
        },
    };
    let ctx = build_context(env_name, env_config, var_name);
    expand_template(raw_value.as_str(), &ctx)
}

/// Expands the instructions of a manual source as far as the context
/// allows: the expansion when every placeholder resolves, the instructions
/// unchanged otherwise.
pub fn expand_instructions(instructions: &str, ctx: &StrMap) -> (r: String)
    ensures
        ({
            let m = smap_view(ctx.entries@);
            if unresolved_from(instructions@, 0, m).len() == 0 {
                r@ == expand_from(instructions@, 0, m)
            } else {
                r@ == instructions@
            }
        }),
{
    match expand_template(instructions, ctx) {
        Ok(v) => v,
        Err(_) => instructions.to_owned(),
    }
}

} // verus!
