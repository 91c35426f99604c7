//! Configuration of a generation run.

use crate::paths::segs_of;
use vstd::prelude::*;
use vstd::string::*;

verus! {

/// Main configuration.
#[derive(Debug, Clone)]
pub struct Config {
    pub input: InputConfig,
    pub output: OutputConfig,
    pub naming: NamingConfig,
}

/// Where to find the source files.
#[derive(Debug, Clone)]
pub struct InputConfig {
    /// Directory to scan.
    pub source_dir: String,
    /// Directories or files to leave out of the scan.
    pub exclude: Vec<String>,
}

/// Where to write the generated files.
#[derive(Debug, Clone)]
pub struct OutputConfig {
    /// Path of the generated types file.
    pub types_file: String,
    /// Path of the generated commands file.
    pub commands_file: String,
}

/// Prefixes and suffixes of generated names.
#[derive(Debug, Clone)]
pub struct NamingConfig {
    pub type_prefix: String,
    pub type_suffix: String,
    pub function_prefix: String,
    pub function_suffix: String,
}

impl Default for NamingConfig {
    /// No prefixes and no suffixes.
    fn default() -> (r: Self)
        ensures
            r.type_prefix@.len() == 0,
            r.type_suffix@.len() == 0,
            r.function_prefix@.len() == 0,
            r.function_suffix@.len() == 0,
    {
        NamingConfig {
            type_prefix: String::new(),
            type_suffix: String::new(),
            function_prefix: String::new(),
            function_suffix: String::new(),
        }
    }
}

impl Config {
    /// The configuration written by `init`: sources under `src-tauri/src`
    /// without `tests` and `target`, output under `src/generated`, and no
    /// naming changes.
    pub fn default_config() -> (r: Self)
        ensures
            r.input.source_dir@ == "src-tauri/src"@,
            segs_of(r.input.exclude) == seq!["tests"@, "target"@],
            r.output.types_file@ == "src/generated/types.ts"@,
            r.output.commands_file@ == "src/generated/commands.ts"@,
            r.naming.type_prefix@.len() == 0,
            r.naming.type_suffix@.len() == 0,
            r.naming.function_prefix@.len() == 0,
            r.naming.function_suffix@.len() == 0,
    {
        let mut exclude: Vec<String> = Vec::new();
        exclude.push(String::from_str("tests"));
        exclude.push(String::from_str("target"));
        assert(segs_of(exclude) =~= seq!["tests"@, "target"@]);
        Config {
            input: InputConfig { source_dir: String::from_str("src-tauri/src"), exclude },
            output: OutputConfig {
                types_file: String::from_str("src/generated/types.ts"),
                commands_file: String::from_str("src/generated/commands.ts"),
            },
            naming: NamingConfig::default(),
        }
    }
}

} // verus!
