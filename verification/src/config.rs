//! The configuration record of a run, with the defaults filled in.

use vstd::prelude::*;
use vstd::string::*;
use crate::cli::{Args, ArgsView};

verus! {

/// Everything a run needs to know.
#[derive(Clone, Debug, PartialEq, Eq)]
pub struct Config {
    pub root_dir: String,
    pub src_dir: String,
    pub types_dir: Option<String>,
    pub out_path: String,
    pub generator_version: String,
    pub fail_on_warning: bool,
}

/// The mathematical content of a [`Config`].
pub struct ConfigView {
    pub root_dir: Seq<char>,
    pub src_dir: Seq<char>,
    pub types_dir: Option<Seq<char>>,
    pub out_path: Seq<char>,
    pub generator_version: Seq<char>,
    pub fail_on_warning: bool,
}

impl View for Config {
    type V = ConfigView;

    open spec fn view(&self) -> ConfigView {
        ConfigView {
            root_dir: self.root_dir@,
            src_dir: self.src_dir@,
            types_dir: crate::cli::text_of(self.types_dir),
            out_path: self.out_path@,
            generator_version: self.generator_version@,
            fail_on_warning: self.fail_on_warning,
        }
    }
}

/// Why no configuration could be made.
#[derive(Clone, Copy, Debug, PartialEq, Eq, Structural)]
pub enum ConfigError {
    /// The output path was given as the empty text.
    MissingOutputPath,
}

/// The given text, or the default where none was given.
pub open spec fn or_default(given: Option<Seq<char>>, default: Seq<char>) -> Seq<char> {
    match given {
        Some(t) => t,
        None => default,
    }
}

/// The configuration for the arguments `a`: the root defaults to the working
/// directory, the source directory to `src` under the root, the output path to
/// `reference.json`, the generator version to the tool's own.
pub open spec fn config_spec(a: ArgsView, cwd: Seq<char>, tool_version: Seq<char>) -> Result<
    ConfigView,
    ConfigError,
> {
    let root = or_default(a.root_dir, cwd);
    let out = or_default(a.out_path, "reference.json"@);
    if out.len() == 0 {
        Err(ConfigError::MissingOutputPath)
    } else {
        Ok(
            ConfigView {
                root_dir: root,
                src_dir: or_default(a.src_dir, root + "/src"@),
                types_dir: a.types_dir,
                out_path: out,
                generator_version: or_default(a.generator_version, tool_version),
                fail_on_warning: a.fail_on_warning,
            },
        )
    }
}

/// How a result relates to the one that [`config_spec`] gives.
pub open spec fn config_matches(r: Result<Config, ConfigError>, expected: Result<
    ConfigView,
    ConfigError,
>) -> bool {
    match r {
        Ok(c) => expected == Ok::<ConfigView, ConfigError>(c@),
        Err(e) => expected == Err::<ConfigView, ConfigError>(e),
    }
}

/// Fills in the defaults.
pub fn resolve(args: Args, cwd: String, tool_version: String) -> (r: Result<Config, ConfigError>)
    ensures
        config_matches(r, config_spec(args@, cwd@, tool_version@)),
{
    let Args { root_dir, src_dir, types_dir, out_path, generator_version, fail_on_warning, help: _ } =
        args;
    let root = match root_dir {
        Some(t) => t,
        None => cwd,
    };
    let out = match out_path {
        Some(t) => t,
        None => String::from_str("reference.json"),
    };
    if out.as_str().is_empty() {
        return Err(ConfigError::MissingOutputPath);
    }
    let src = match src_dir {
        Some(t) => t,
        None => root.clone().concat("/src"),
    };
    let version = match generator_version {
        Some(t) => t,
        None => tool_version,
    };
    Ok(
        Config {
            root_dir: root,
            src_dir: src,
            types_dir,
            out_path: out,
            generator_version: version,
            fail_on_warning,
        },
    )
}

} // verus!
