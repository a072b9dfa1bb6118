use vstd::prelude::*;

use vstd::arithmetic::div_mod::{lemma_mod_bound, lemma_mod_multiples_vanish, lemma_small_mod};

use crate::window::{Window, Windows};

verus! {

/// Abstract key events; the core never parses raw terminal input.
#[derive(Debug, Clone, Copy, PartialEq, Eq)]
pub enum KeyEvent {
    Up,
    Down,
    Confirm,
    Quit,
    EditInPlace,
    EditAndExit,
    Char(char),
}

/// The two modal levels: browsing the list of windows, or browsing the
/// commands of the window at the carried index.
#[derive(Debug, Clone, Copy, PartialEq, Eq)]
pub enum Mode {
    Menu,
    InsideWindow(usize),
}

/// What one step of the machine asks of its caller. `Continue` means keep
/// looping; the other variants end the loop or request an external action.
#[derive(Debug, Clone, PartialEq, Eq)]
pub enum Outcome {
    /// Keep reading key events.
    Continue,
    /// The session ends with no chosen command.
    Quit,
    /// The session ends with this command line chosen.
    Chosen(String),
    /// Open the carried marker-file path (absent for a synthetic window) in
    /// an editor; the second field asks the caller to end the session after
    /// the edit instead of resuming.
    Edit(Option<String>, bool),
}

/// Circular cursor advance within a list of length `len`.
pub open spec fn wrap_inc(sel: int, len: int) -> int {
    if sel + 1 < len {
        sel + 1
    } else {
        0
    }
}

/// Circular cursor retreat within a list of length `len`.
pub open spec fn wrap_dec(sel: int, len: int) -> int {
    if sel == 0 {
        len - 1
    } else {
        sel - 1
    }
}

/// The cursor after pressing "down" `n` times in a row, starting from `sel`,
/// in a list of length `len`.
pub open spec fn down_n(sel: int, len: int, n: nat) -> int
    decreases n,
{
    if n == 0 {
        sel
    } else {
        wrap_inc(down_n(sel, len, (n - 1) as nat), len)
    }
}

/// The navigation state machine: it exclusively owns the window collection
/// and all cursors for the duration of a session.
#[derive(Debug, Clone, PartialEq, Eq)]
pub struct NavigationState {
    pub windows: Windows,
    pub mode: Mode,
    pub outer_selected: usize,
}

/// `post` agrees with `pre` except that the window at `i` has its cursor
/// moved to `sel` (name, commands and path untouched).
pub open spec fn selected_updated(pre: Seq<Window>, post: Seq<Window>, i: int, sel: int) -> bool {
    &&& post.len() == pre.len()
    &&& forall|j: int| 0 <= j < pre.len() && j != i ==> post[j] == pre[j]
    &&& post[i].name == pre[i].name
    &&& post[i].commands == pre[i].commands
    &&& post[i].path == pre[i].path
    &&& post[i].selected == sel
}

/// The transition relation of the machine: from state `pre` under key event
/// `key`, the machine moves to state `post` and asks `r` of its caller.
///
/// From `Menu`: quit ends the session; down and up move the outer cursor
/// circularly; confirm enters the selected window; the edit keys request an
/// edit of the selected window's source. With zero windows every one of
/// these but quit is a no-op.
///
/// From `InsideWindow(i)`: quit returns to the menu; down and up move the
/// window's cursor circularly (a no-op over an empty command list, never a
/// fault); confirm yields the selected command as the session's final
/// action; the edit keys request an edit of this window's source.
///
/// Any other key is ignored everywhere.
pub open spec fn step_rel(
    pre: NavigationState,
    key: KeyEvent,
    post: NavigationState,
    r: Outcome,
) -> bool {
    let n = pre.windows.windows@.len() as int;
    match pre.mode {
        Mode::Menu => match key {
            KeyEvent::Quit => post == pre && r == Outcome::Quit,
            KeyEvent::Down => r == Outcome::Continue && if n == 0 {
                post == pre
            } else {
                post.windows == pre.windows && post.mode == Mode::Menu && post.outer_selected
                    == wrap_inc(pre.outer_selected as int, n)
            },
            KeyEvent::Up => r == Outcome::Continue && if n == 0 {
                post == pre
            } else {
                post.windows == pre.windows && post.mode == Mode::Menu && post.outer_selected
                    == wrap_dec(pre.outer_selected as int, n)
            },
            KeyEvent::Confirm => r == Outcome::Continue && if n == 0 {
                post == pre
            } else {
                post.windows == pre.windows && post.outer_selected == pre.outer_selected
                    && post.mode == Mode::InsideWindow(pre.outer_selected)
            },
            KeyEvent::EditInPlace => post == pre && if n == 0 {
                r == Outcome::Continue
            } else {
                r == Outcome::Edit(pre.windows.windows@[pre.outer_selected as int].path, false)
            },
            KeyEvent::EditAndExit => post == pre && if n == 0 {
                r == Outcome::Continue
            } else {
                r == Outcome::Edit(pre.windows.windows@[pre.outer_selected as int].path, true)
            },
            KeyEvent::Char(_) => post == pre && r == Outcome::Continue,
        },
        Mode::InsideWindow(i) => {
            let w = pre.windows.windows@[i as int];
            let m = w.commands@.len() as int;
            match key {
                KeyEvent::Quit => r == Outcome::Continue && post.windows == pre.windows
                    && post.outer_selected == pre.outer_selected && post.mode == Mode::Menu,
                KeyEvent::Down => r == Outcome::Continue && post.mode == pre.mode
                    && post.outer_selected == pre.outer_selected && if m == 0 {
                    post.windows == pre.windows
                } else {
                    selected_updated(
                        pre.windows.windows@,
                        post.windows.windows@,
                        i as int,
                        wrap_inc(w.selected as int, m),
                    )
                },
                KeyEvent::Up => r == Outcome::Continue && post.mode == pre.mode
                    && post.outer_selected == pre.outer_selected && if m == 0 {
                    post.windows == pre.windows
                } else {
                    selected_updated(
                        pre.windows.windows@,
                        post.windows.windows@,
                        i as int,
                        wrap_dec(w.selected as int, m),
                    )
                },
                KeyEvent::Confirm => post == pre && if m == 0 {
                    r == Outcome::Continue
                } else {
                    r == Outcome::Chosen(w.commands@[w.selected as int].text)
                },
                KeyEvent::EditInPlace => post == pre && r == Outcome::Edit(w.path, false),
                KeyEvent::EditAndExit => post == pre && r == Outcome::Edit(w.path, true),
                KeyEvent::Char(_) => post == pre && r == Outcome::Continue,
            }
        },
    }
}

impl NavigationState {
    /// The outer cursor is a valid index whenever windows exist (pinned to
    /// zero otherwise), every window's cursor is valid, and an inner mode
    /// always carries an index of an existing window.
    pub open spec fn wf(&self) -> bool {
        &&& self.windows.wf()
        &&& if self.windows.windows@.len() == 0 {
            self.outer_selected == 0
        } else {
            self.outer_selected < self.windows.windows@.len()
        }
        &&& match self.mode {
            Mode::Menu => true,
            Mode::InsideWindow(i) => i < self.windows.windows@.len(),
        }
    }

    /// A fresh session over a freshly discovered collection: menu mode, outer
    /// cursor on the first window.
    pub fn new(windows: Windows) -> (s: NavigationState)
        requires
            windows.wf(),
        ensures
            s.windows == windows,
            s.mode == Mode::Menu,
            s.outer_selected == 0,
            s.wf(),
    {
        NavigationState { windows, mode: Mode::Menu, outer_selected: 0 }
    }

    /// Runtime check of the machine invariant, for callers outside the
    /// verified world.
    pub fn is_well_formed(&self) -> (b: bool)
        ensures
            b == self.wf(),
    {
        let n = self.windows.len();
        let outer_ok = if n == 0 {
            self.outer_selected == 0
        } else {
            self.outer_selected < n
        };
        let mode_ok = match self.mode {
            Mode::Menu => true,
            Mode::InsideWindow(i) => i < n,
        };
        outer_ok && mode_ok && self.windows.is_well_formed()
    }

    /// Processes one key event to completion: mutates the selection state in
    /// place and returns what the caller should do next. The whole behaviour
    /// is pinned by `step_rel`.
    pub fn step(&mut self, key: KeyEvent) -> (r: Outcome)
        requires
            old(self).wf(),
        ensures
            final(self).wf(),
            step_rel(*old(self), key, *final(self), r),
    {
        match self.mode {
            Mode::Menu => {
                let n = self.windows.len();
                match key {
                    KeyEvent::Quit => Outcome::Quit,
                    KeyEvent::Down => {
                        if n > 0 {
                            let cur = self.outer_selected;
                            self.outer_selected = if cur + 1 < n {
                                cur + 1
                            } else {
                                0
                            };
                        }
                        Outcome::Continue
                    },
                    KeyEvent::Up => {
                        if n > 0 {
                            let cur = self.outer_selected;
                            self.outer_selected = if cur == 0 {
                                n - 1
                            } else {
                                cur - 1
                            };
                        }
                        Outcome::Continue
                    },
                    KeyEvent::Confirm => {
                        if n > 0 {
                            self.mode = Mode::InsideWindow(self.outer_selected);
                        }
                        Outcome::Continue
                    },
                    KeyEvent::EditInPlace => {
                        if n > 0 {
                            Outcome::Edit(clone_path(&self.windows.windows[self.outer_selected].path), false)
                        } else {
                            Outcome::Continue
                        }
                    },
                    KeyEvent::EditAndExit => {
                        if n > 0 {
                            Outcome::Edit(clone_path(&self.windows.windows[self.outer_selected].path), true)
                        } else {
                            Outcome::Continue
                        }
                    },
                    KeyEvent::Char(_) => Outcome::Continue,
                }
            },
            Mode::InsideWindow(i) => {
                let m = self.windows.windows[i].commands.len();
                match key {
                    KeyEvent::Quit => {
                        self.mode = Mode::Menu;
                        Outcome::Continue
                    },
                    KeyEvent::Down => {
                        if m > 0 {
                            let cur = self.windows.windows[i].selected;
                            let next = if cur + 1 < m {
                                cur + 1
                            } else {
                                0
                            };
                            self.windows.windows[i].selected = next;
                        }
                        Outcome::Continue
                    },
                    KeyEvent::Up => {
                        if m > 0 {
                            let cur = self.windows.windows[i].selected;
                            let next = if cur == 0 {
                                m - 1
                            } else {
                                cur - 1
                            };
                            self.windows.windows[i].selected = next;
                        }
                        Outcome::Continue
                    },
                    KeyEvent::Confirm => {
                        if m > 0 {
                            let sel = self.windows.windows[i].selected;
                            Outcome::Chosen(self.windows.windows[i].commands[sel].text.clone())
                        } else {
                            Outcome::Continue
                        }
                    },
                    KeyEvent::EditInPlace => Outcome::Edit(
                        clone_path(&self.windows.windows[i].path),
                        false,
                    ),
                    KeyEvent::EditAndExit => Outcome::Edit(
                        clone_path(&self.windows.windows[i].path),
                        true,
                    ),
                    KeyEvent::Char(_) => Outcome::Continue,
                }
            },
        }
    }
}

/// Copy of an optional source path, equal to the original.
fn clone_path(p: &Option<String>) -> (r: Option<String>)
    ensures
        r == *p,
{
    match p {
        Some(s) => Some(s.clone()),
        None => None,
    }
}

proof fn lemma_down_n_mod(sel: int, len: int, n: nat)
    requires
        0 <= sel < len,
    ensures
        down_n(sel, len, n) == (sel + n) % len,
    decreases n,
{
    if n == 0 {
        lemma_small_mod(sel as nat, len as nat);
    } else {
        lemma_down_n_mod(sel, len, (n - 1) as nat);
        let a = sel + n - 1;
        let r = a % len;
        lemma_mod_bound(a, len);
        let q = a / len;
        vstd::arithmetic::div_mod::lemma_fundamental_div_mod(a, len);
        if r + 1 < len {
            lemma_mod_multiples_vanish(q, r + 1, len);
            lemma_small_mod((r + 1) as nat, len as nat);
        } else {
            assert(a + 1 == len * (q + 1)) by (nonlinear_arith)
                requires
                    a == len * q + r,
                    r + 1 == len,
            ;
            lemma_mod_multiples_vanish(q + 1, 0, len);
            lemma_small_mod(0nat, len as nat);
        }
    }
}

/// Law: in a non-empty list of length `len`, pressing "down" exactly `len`
/// times in a row returns the cursor to its original position. This is the
/// circular invariant of the machine's down transition (`step_rel` moves the
/// cursor by `wrap_inc` on each down key, and `down_n` iterates `wrap_inc`).
pub proof fn lemma_down_full_cycle(sel: int, len: int)
    requires
        0 <= sel < len,
    ensures
        down_n(sel, len, len as nat) == sel,
{
    lemma_down_n_mod(sel, len, len as nat);
    lemma_mod_multiples_vanish(1, sel, len);
    lemma_small_mod(sel as nat, len as nat);
}

proof fn lemma_down_trace(states: Seq<NavigationState>, rs: Seq<Outcome>, i: usize, k: int)
    requires
        rs.len() + 1 == states.len(),
        0 <= k < states.len(),
        states[0].mode == Mode::InsideWindow(i),
        i < states[0].windows.windows@.len(),
        states[0].windows.windows@[i as int].commands@.len() > 0,
        forall|t: int|
            0 <= t < rs.len() ==> step_rel(states[t], KeyEvent::Down, states[t + 1], rs[t]),
    ensures
        states[k].mode == Mode::InsideWindow(i),
        states[k].windows.windows@.len() == states[0].windows.windows@.len(),
        states[k].windows.windows@[i as int].commands == states[0].windows.windows@[i
            as int].commands,
        states[k].windows.windows@[i as int].selected == down_n(
            states[0].windows.windows@[i as int].selected as int,
            states[0].windows.windows@[i as int].commands@.len() as int,
            k as nat,
        ),
    decreases k,
{
    if k > 0 {
        lemma_down_trace(states, rs, i, k - 1);
        assert(step_rel(states[k - 1], KeyEvent::Down, states[k], rs[k - 1]));
    }
}

/// Law: inside a non-empty window, pressing "down" exactly as many times as
/// the window has commands returns the cursor to its original position.
/// `states` is the trace of the machine: each state is reached from the one
/// before it by one down key, and there are exactly `commands.len()` steps.
pub proof fn lemma_down_cycle_machine(states: Seq<NavigationState>, rs: Seq<Outcome>, i: usize)
    requires
        rs.len() + 1 == states.len(),
        rs.len() == states[0].windows.windows@[i as int].commands@.len(),
        states[0].wf(),
        states[0].mode == Mode::InsideWindow(i),
        states[0].windows.windows@[i as int].commands@.len() > 0,
        forall|t: int|
            0 <= t < rs.len() ==> step_rel(states[t], KeyEvent::Down, states[t + 1], rs[t]),
    ensures
        states[states.len() - 1].windows.windows@[i as int].selected
            == states[0].windows.windows@[i as int].selected,
{
    let w = states[0].windows.windows@[i as int];
    assert(w.wf());
    lemma_down_trace(states, rs, i, states.len() - 1);
    lemma_down_full_cycle(w.selected as int, w.commands@.len() as int);
}

/// Law: with zero windows discovered, the menu stays navigable: down, up and
/// confirm are all no-ops that keep the session alive, never a fault.
pub proof fn lemma_empty_menu_noop(
    pre: NavigationState,
    key: KeyEvent,
    post: NavigationState,
    r: Outcome,
)
    requires
        pre.wf(),
        pre.mode == Mode::Menu,
        pre.windows.windows@.len() == 0,
        key == KeyEvent::Down || key == KeyEvent::Up || key == KeyEvent::Confirm,
        step_rel(pre, key, post, r),
    ensures
        post == pre,
        r == Outcome::Continue,
{
}

/// Law: inside a window with exactly one command, confirm always yields that
/// command, whatever up or down pressing came before (both wrap a one-element
/// list back onto its only index, so the cursor can only be there).
pub proof fn lemma_single_command_confirm(
    pre: NavigationState,
    post: NavigationState,
    r: Outcome,
    i: usize,
)
    requires
        pre.wf(),
        pre.mode == Mode::InsideWindow(i),
        pre.windows.windows@[i as int].commands@.len() == 1,
        step_rel(pre, KeyEvent::Confirm, post, r),
    ensures
        pre.windows.windows@[i as int].selected == 0,
        r == Outcome::Chosen(pre.windows.windows@[i as int].commands@[0].text),
{
    assert(pre.windows.windows@[i as int].wf());
}

/// Law: inside a window with exactly one command, the down and up keys keep
/// the cursor on that command.
pub proof fn lemma_single_command_nav(
    pre: NavigationState,
    key: KeyEvent,
    post: NavigationState,
    r: Outcome,
    i: usize,
)
    requires
        pre.wf(),
        pre.mode == Mode::InsideWindow(i),
        pre.windows.windows@[i as int].commands@.len() == 1,
        key == KeyEvent::Down || key == KeyEvent::Up,
        step_rel(pre, key, post, r),
    ensures
        post.windows.windows@[i as int].selected == 0,
        post.mode == pre.mode,
{
    assert(pre.windows.windows@[i as int].wf());
}

} // verus!
