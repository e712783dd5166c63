use vstd::prelude::*;

use crate::args::Args;

verus! {

/// What the run does right after parsing the command line.
#[derive(Debug, PartialEq, Eq, Structural)]
pub enum StartAction {
    /// Print the usage text and exit successfully; nothing else happens.
    ShowHelp,
    /// No explicit file arguments were given: the source list is read from
    /// standard input, one path per line.
    ReadStdinSources,
    /// The positional arguments are the source list.
    UseArgSources,
}

/// Decides the first step of a run: help wins over everything else, and an
/// empty positional list means the sources come from standard input.
pub fn start_action(args: &Args) -> (r: StartAction)
    ensures
        args.show_help ==> r == StartAction::ShowHelp,
        !args.show_help && args.files@.len() == 0 ==> r == StartAction::ReadStdinSources,
        !args.show_help && args.files@.len() != 0 ==> r == StartAction::UseArgSources,
{
    if args.show_help {
        StartAction::ShowHelp
    } else if args.files.is_empty() {
        StartAction::ReadStdinSources
    } else {
        StartAction::UseArgSources
    }
}

/// Decides whether the editing pipeline runs at all.  An empty source list
/// ends the run successfully right away: no scratch file is created and no
/// editor is invoked.
pub fn should_edit(sources: &Vec<Vec<u8>>) -> (r: bool)
    ensures
        r <==> sources@.len() != 0,
{
    !sources.is_empty()
}

} // verus!
