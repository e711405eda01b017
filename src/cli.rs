use vstd::prelude::*;

verus! {

/// The command line: the video to play, whether to ignore the cache and
/// make the frames afresh, and whether to use the compatibility mode.
#[derive(Clone, Debug)]
pub struct CliArgs {
    pub video: String,
    pub regenerate: bool,
    pub compatibility_mode: bool,
}

} // verus!
