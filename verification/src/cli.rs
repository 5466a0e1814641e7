//! The commands of the program.
use vstd::prelude::*;

pub mod backfill;
pub mod clean;
pub mod history;
pub mod init;
pub mod list;
pub mod llms;
pub mod resume;
pub mod run;
pub mod session;
pub mod status;
pub mod tell;

verus! {

/// The command line.
#[derive(Debug)]
pub struct Cli {
    pub command: Command,
}

/// A command with its arguments.
#[derive(Debug)]
pub enum Command {
    /// Scaffold a new experiment.
    Init(init::InitArgs),
    /// Print the reference for agents.
    Llms(llms::LlmsArgs),
    /// Run the experiment loop until its deadline.
    Run(run::RunArgs),
    /// Show how an experiment stands.
    Status(status::StatusArgs),
    /// Show every iteration as markdown.
    List(list::ListArgs),
    /// Give guidance to the next iteration.
    Tell(tell::TellArgs),
    /// Go on with an experiment after a crash or stop.
    Resume(resume::ResumeArgs),
    /// Tidy a finished or abandoned experiment.
    Clean(clean::CleanArgs),
    /// Make up for missing summaries once.
    Backfill(backfill::BackfillArgs),
}

/// What the program does for a command.
#[derive(Debug)]
pub enum Job {
    Init(init::InitArgs),
    Llms,
    Loop(run::LoopArgs),
    Status(status::StatusArgs),
    List(list::ListArgs),
    Tell(tell::TellArgs),
    Clean(clean::CleanArgs),
    Backfill(backfill::BackfillArgs),
}

/// Tells what the program does for a command. Running and resuming are the same
/// loop: only resuming takes up an iteration that was in progress, and only
/// running can start afresh.
pub fn dispatch(cli: Cli) -> (r: Job)
    ensures
        r == match cli.command {
            Command::Init(a) => Job::Init(a),
            Command::Llms(_) => Job::Llms,
            Command::Run(a) => Job::Loop(
                run::LoopArgs {
                    name: a.name,
                    allow_dirty: a.allow_dirty,
                    recover_iter: false,
                    fresh: a.fresh,
                },
            ),
            Command::Status(a) => Job::Status(a),
            Command::List(a) => Job::List(a),
            Command::Tell(a) => Job::Tell(a),
            Command::Resume(a) => Job::Loop(
                run::LoopArgs {
                    name: a.name,
                    allow_dirty: a.allow_dirty,
                    recover_iter: true,
                    fresh: false,
                },
            ),
            Command::Clean(a) => Job::Clean(a),
            Command::Backfill(a) => Job::Backfill(a),
        },
{
    match cli.command {
        Command::Init(a) => Job::Init(a),
        Command::Llms(_) => Job::Llms,
        Command::Run(a) => Job::Loop(run::run(a)),
        Command::Status(a) => Job::Status(a),
        Command::List(a) => Job::List(a),
        Command::Tell(a) => Job::Tell(a),
        Command::Resume(a) => Job::Loop(resume::run(a)),
        Command::Clean(a) => Job::Clean(a),
        Command::Backfill(a) => Job::Backfill(a),
    }
}

} // verus!
