//! What a viewer keeps besides the scene: the tool in hand, the state of the
//! view, and a log.

use vstd::prelude::*;
use vstd::string::StringExecFns;
use crate::text::texts;

verus! {

/// The tool in hand.
#[derive(Clone, Copy, PartialEq, Eq, Structural, Debug)]
pub enum Tool {
    /// No tool.
    Idle,
    Panning,
    Rotate,
}

/// What the view shows and what it still has to do.
#[derive(Clone, Copy, PartialEq, Eq, Structural, Debug)]
pub struct ViewProp {
    pub collapse_debugger: bool,
    pub to_fill: bool,
    pub model_updated: bool,
    pub model_loaded: bool,
}

impl ViewProp {
    /// The view before a scene is loaded: the log is open, meshes are filled.
    pub fn new() -> (r: ViewProp)
        ensures
            r == (ViewProp {
                collapse_debugger: false,
                to_fill: true,
                model_updated: false,
                model_loaded: false,
            }),
    {
        ViewProp {
            collapse_debugger: false,
            to_fill: true,
            model_updated: false,
            model_loaded: false,
        }
    }
}

/// The lines of a log, the oldest first.
#[derive(Debug)]
pub struct Logger {
    pub logs: Vec<String>,
}

impl Logger {
    /// A log without lines.
    pub fn new() -> (r: Logger)
        ensures
            r.logs@.len() == 0,
    {
        Logger { logs: Vec::new() }
    }

    /// Writes a line behind the others: the time it is written at, a space,
    /// and what there is to say.
    pub fn add_log(&mut self, stamp: &str, log: &str)
        ensures
            texts(final(self).logs@) == texts(old(self).logs@).push(stamp@ + " "@ + log@),
    {
        let ghost before = texts(self.logs@);
        let mut line = String::from_str(stamp);
        line.append(" ");
        line.append(log);
        self.logs.push(line);
        assert(texts(self.logs@) =~= before.push(stamp@ + " "@ + log@));
    }
}

} // verus!
