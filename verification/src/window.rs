use vstd::prelude::*;

use crate::error::RangeError;

verus! {

/// Ranking metadata that a command may carry: how often it was used and,
/// if it was ever used, when it was last used.
#[derive(Debug, Clone, Copy, PartialEq, Eq)]
pub struct CommandMeta {
    pub usage_count: u64,
    pub last_used: Option<u64>,
}

/// A single shell command line, optionally with ranking metadata.
/// Windows whose commands lack metadata simply skip the ranking modes.
#[derive(Debug, Clone, PartialEq, Eq)]
pub struct Command {
    pub text: String,
    pub meta: Option<CommandMeta>,
}

impl Command {
    /// A bare command line with no ranking metadata.
    pub fn plain(text: String) -> (c: Command)
        ensures
            c.text == text,
            c.meta is None,
    {
        Command { text, meta: None }
    }
}

/// A named, ordered list of shell commands plus a cursor (`selected`) and an
/// optional backing marker-file path (absent for synthetic windows).
#[derive(Debug, Clone, PartialEq, Eq)]
pub struct Window {
    pub name: String,
    pub commands: Vec<Command>,
    pub selected: usize,
    pub path: Option<String>,
}

impl Window {
    /// The cursor is a valid index whenever the command list is non-empty;
    /// over an empty list the cursor is meaningless and pinned to zero so
    /// that index-based operations are plain no-ops.
    pub open spec fn wf(&self) -> bool {
        if self.commands@.len() == 0 {
            self.selected == 0
        } else {
            self.selected < self.commands@.len()
        }
    }

    pub fn new(name: String, commands: Vec<Command>, selected: usize, path: Option<String>) -> (w:
        Window)
        requires
            if commands@.len() == 0 {
                selected == 0
            } else {
                selected < commands@.len()
            },
        ensures
            w.name == name,
            w.commands == commands,
            w.selected == selected,
            w.path == path,
            w.wf(),
    {
        Window { name, commands, selected, path }
    }

    /// Turns the raw lines of a marker file into that file's window:
    /// one command per line, order preserved, cursor on the first command.
    pub fn from_lines(name: String, lines: Vec<String>, path: Option<String>) -> (w: Window)
        ensures
            w.name == name,
            w.path == path,
            w.selected == 0,
            w.wf(),
            w.commands@.len() == lines@.len(),
            forall|k: int|
                0 <= k < lines@.len() ==> (#[trigger] w.commands@[k]).text == lines@[k]
                    && w.commands@[k].meta is None,
    {
        let mut commands: Vec<Command> = Vec::new();
        let mut i: usize = 0;
        while i < lines.len()
            invariant
                i <= lines@.len(),
                commands@.len() == i,
                forall|k: int|
                    0 <= k < i ==> (#[trigger] commands@[k]).text == lines@[k]
                        && commands@[k].meta is None,
            decreases lines@.len() - i,
        {
            commands.push(Command { text: lines[i].clone(), meta: None });
            i = i + 1;
        }
        Window { name, commands, selected: 0, path }
    }

    /// Runtime check of the cursor invariant, for callers outside the
    /// verified world.
    pub fn is_well_formed(&self) -> (b: bool)
        ensures
            b == self.wf(),
    {
        if self.commands.len() == 0 {
            self.selected == 0
        } else {
            self.selected < self.commands.len()
        }
    }
}

/// The ordered collection of discovered windows; insertion order is discovery
/// order, with synthetic windows appended after scanned ones. Duplicate names
/// are permitted and distinguished only by position.
#[derive(Debug, Clone, PartialEq, Eq)]
pub struct Windows {
    pub windows: Vec<Window>,
}

impl Windows {
    pub open spec fn wf(&self) -> bool {
        forall|i: int| 0 <= i < self.windows@.len() ==> (#[trigger] self.windows@[i]).wf()
    }

    /// An empty collection, to be filled with scanned and synthetic windows.
    pub fn new() -> (s: Windows)
        ensures
            s.windows@.len() == 0,
            s.wf(),
    {
        Windows { windows: Vec::new() }
    }

    pub fn len(&self) -> (n: usize)
        ensures
            n == self.windows@.len(),
    {
        self.windows.len()
    }

    pub fn is_empty(&self) -> (b: bool)
        ensures
            b == (self.windows@.len() == 0),
    {
        self.windows.len() == 0
    }

    /// Appends one window at the end of the discovery order.
    pub fn push(&mut self, w: Window)
        ensures
            final(self).windows@ == old(self).windows@.push(w),
            old(self).wf() && w.wf() ==> final(self).wf(),
    {
        self.windows.push(w);
    }

    /// Lookup by position; an out-of-range index is a caller error reported
    /// as such, never a fault.
    pub fn get(&self, index: usize) -> (r: Result<&Window, RangeError>)
        ensures
            r is Ok <==> index < self.windows@.len(),
            r matches Ok(w) ==> *w == self.windows@[index as int],
            r matches Err(e) ==> e == (RangeError::BadIndex {
                index,
                len: self.windows@.len() as usize,
            }),
    {
        if index < self.windows.len() {
            Ok(&self.windows[index])
        } else {
            Err(RangeError::BadIndex { index, len: self.windows.len() })
        }
    }

    /// Runtime check that every window satisfies its cursor invariant, for
    /// callers outside the verified world.
    pub fn is_well_formed(&self) -> (b: bool)
        ensures
            b == self.wf(),
    {
        let mut i: usize = 0;
        while i < self.windows.len()
            invariant
                i <= self.windows@.len(),
                forall|k: int| 0 <= k < i ==> (#[trigger] self.windows@[k]).wf(),
            decreases self.windows@.len() - i,
        {
            if !self.windows[i].is_well_formed() {
                return false;
            }
            i = i + 1;
        }
        true
    }
}

impl Default for Windows {
    fn default() -> (s: Windows)
        ensures
            s.windows@.len() == 0,
            s.wf(),
    {
        Windows::new()
    }
}

} // verus!
