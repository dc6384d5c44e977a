//! modsh, the modular shell: built-in commands, line editing and
//! pipelines.
pub mod builtin;
pub mod interactive;
pub mod pipeline;

use vstd::prelude::*;

verus! {

/// Shell configuration.
pub struct Config {
    pub interactive: bool,
    pub echo: bool,
}

impl Config {
    /// Interactive, without echo.
    pub fn new() -> (r: Self)
        ensures
            r.interactive,
            !r.echo,
    {
        Config { interactive: true, echo: false }
    }
}

/// Run the shell main loop.  Input and history are not wired to the
/// keyboard and framebuffer drivers yet, so it returns at once.
pub fn run(_config: Config) {
}

} // verus!
