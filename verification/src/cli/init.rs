//! Making a new experiment.
use vstd::prelude::*;

use crate::config::{is_valid_name, valid_name};
use crate::error::Error;
use crate::experiment::ExperimentPaths;
use crate::templates;

verus! {

/// What making an experiment takes.
#[derive(Debug)]
pub struct InitArgs {
    /// Letters, digits, `_` and `-`.
    pub name: String,
}

/// Accepts the name of a new experiment.
pub fn check_name(name: &str) -> (r: Result<(), Error>)
    ensures
        if valid_name(name@) {
            r is Ok
        } else {
            r matches Err(Error::InvalidName(n)) && n@ == name@
        },
{
    if !is_valid_name(name) {
        return Err(Error::InvalidName(crate::text::owned(name)));
    }
    Ok(())
}

/// The files of a new experiment.
#[derive(Debug)]
pub struct Scaffold {
    pub root: String,
    pub config_path: String,
    pub config_text: String,
    pub program_path: String,
    pub program_text: String,
}

/// The files to be written for a new experiment, or why there can be none:
/// `present` tells whether its directory is there already.
pub fn scaffold(paths: &ExperimentPaths, present: bool) -> (r: Result<Scaffold, Error>)
    ensures
        if !valid_name(paths.title()) {
            r matches Err(Error::InvalidName(n)) && n@ == paths.title()
        } else if present {
            r matches Err(Error::ExperimentExists { name, path }) && name@ == paths.title()
                && path@ == paths.home()
        } else {
            &&& r matches Ok(s)
            &&& s.root@ == paths.home()
            &&& s.config_path@ == paths.inside("config.toml"@)
            &&& s.config_text@ == templates::filled(templates::CONFIG_TMPL@, paths.title())
            &&& s.program_path@ == paths.inside("program.md"@)
            &&& s.program_text@ == templates::filled(templates::PROGRAM_TMPL@, paths.title())
        },
{
    if let Err(e) = check_name(paths.name()) {
        return Err(e);
    }
    let root = paths.root();
    if present {
        return Err(
            Error::ExperimentExists { name: crate::text::owned(paths.name()), path: root },
        );
    }
    Ok(
        Scaffold {
            root,
            config_path: paths.config_path(),
            config_text: templates::render_config(paths.name()),
            program_path: paths.program_path(),
            program_text: templates::render_program(paths.name()),
        },
    )
}

} // verus!
