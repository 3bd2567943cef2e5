//! The decisions of the interactive session: which command to spawn, how
//! host keys map to terminal input, and when the display is refreshed.

use vstd::prelude::*;

use crate::clock::Instant;
use crate::display::DisplayCapabilities;
use crate::input::{encode_event, encode_event_spec, InputEvent, Key, KeyEvent, Modifiers, TerminalInputMode};
use crate::refresh::{
    bottoms_fit, coalesce_dirty_rects, coalesced, DirtyRect, RefreshPriority, RefreshScheduler,
};

verus! {

/// The Unicode `White_Space` characters.
pub open spec fn is_white_space_spec(c: char) -> bool {
    let v = c as u32;
    ||| 0x09 <= v <= 0x0D
    ||| v == 0x20
    ||| v == 0x85
    ||| v == 0xA0
    ||| v == 0x1680
    ||| 0x2000 <= v <= 0x200A
    ||| v == 0x2028
    ||| v == 0x2029
    ||| v == 0x202F
    ||| v == 0x205F
    ||| v == 0x3000
}

/// Characters that only a shell gives meaning to.
pub open spec fn is_shell_meta(c: char) -> bool {
    c == '|' || c == '&' || c == ';' || c == '<' || c == '>' || c == '*' || c == '?' || c == '$'
        || c == '\'' || c == '"'
}

/// A command needs a shell when it holds white space or a shell character.
pub open spec fn has_shell_syntax(command: Seq<char>) -> bool {
    exists|i: int|
        0 <= i < command.len() && (is_white_space_spec(#[trigger] command[i]) || is_shell_meta(
            command[i],
        ))
}

/// Whether `c` has the Unicode `White_Space` property.
pub fn is_white_space(c: char) -> (r: bool)
    ensures
        r == is_white_space_spec(c),
{
    let v = c as u32;
    (0x09 <= v && v <= 0x0D) || v == 0x20 || v == 0x85 || v == 0xA0 || v == 0x1680 || (0x2000 <= v
        && v <= 0x200A) || v == 0x2028 || v == 0x2029 || v == 0x202F || v == 0x205F || v == 0x3000
}

/// Whether the command holds white space or one of `| & ; < > * ? $ ' "`,
/// so that it has to run through a shell.
pub fn command_contains_shell_syntax(command: &str) -> (r: bool)
    ensures
        r == has_shell_syntax(command@),
{
    broadcast use vstd::string::group_string_axioms;

    let mut chars = command.chars();
    let ghost mut index: int = 0;
    loop
        invariant
            0 <= index <= command@.len(),
            vstd::std_specs::iter::IteratorSpec::remaining(&chars) == command@.skip(index),
            forall|k: int|
                0 <= k < index ==> !(is_white_space_spec(#[trigger] command@[k]) || is_shell_meta(
                    command@[k],
                )),
        decreases command@.len() - index,
    {
        match chars.next() {
            Some(ch) => {
                assert(ch == command@[index]);
                if is_white_space(ch) || ch == '|' || ch == '&' || ch == ';' || ch == '<' || ch == '>'
                    || ch == '*' || ch == '?' || ch == '$' || ch == '\'' || ch == '"' {
                    return true;
                }
                proof {
                    index = index + 1;
                }
            },
            None => {
                return false;
            },
        }
    }
}

/// The program to spawn and its arguments.
#[derive(Debug, Clone)]
pub struct CommandPlan {
    pub program: String,
    pub args: Vec<String>,
}

/// What to spawn: a command with shell syntax through `/bin/sh -lc`, any
/// other command as the program itself, and without a command the user's
/// shell, `/bin/sh` when none is known.
pub fn command_plan(command: Option<String>, shell: Option<String>) -> (r: CommandPlan)
    ensures
        match command {
            Some(c) => if has_shell_syntax(c@) {
                &&& r.program@ == "/bin/sh"@
                &&& r.args@.len() == 2
                &&& r.args@[0]@ == "-lc"@
                &&& r.args@[1]@ == c@
            } else {
                r.program@ == c@ && r.args@.len() == 0
            },
            None => r.args@.len() == 0 && r.program@ == match shell {
                Some(s) => s@,
                None => "/bin/sh"@,
            },
        },
{
    match command {
        Some(command) => {
            if command_contains_shell_syntax(command.as_str()) {
                let mut args: Vec<String> = Vec::new();
                args.push("-lc".to_owned());
                args.push(command);
                CommandPlan { program: "/bin/sh".to_owned(), args }
            } else {
                CommandPlan { program: command, args: Vec::new() }
            }
        },
        None => match shell {
            Some(s) => CommandPlan { program: s, args: Vec::new() },
            None => CommandPlan { program: "/bin/sh".to_owned(), args: Vec::new() },
        },
    }
}

/// A host key code, as the host terminal reports it.
#[derive(Debug, Clone, Copy, PartialEq, Eq, Structural)]
pub enum HostKeyCode {
    Backspace,
    Enter,
    Left,
    Right,
    Up,
    Down,
    Home,
    End,
    PageUp,
    PageDown,
    Tab,
    BackTab,
    Delete,
    Insert,
    F(u8),
    Char(char),
    Esc,
    Other,
}

/// A host key press and the modifiers held.
#[derive(Debug, Clone, Copy, PartialEq, Eq, Structural)]
pub struct HostKeyEvent {
    pub code: HostKeyCode,
    pub control: bool,
    pub alt: bool,
    pub shift: bool,
}

/// The terminal key of a host key code, if it has one.
pub open spec fn host_key_spec(code: HostKeyCode) -> Option<Key> {
    match code {
        HostKeyCode::Backspace => Some(Key::Backspace),
        HostKeyCode::Enter => Some(Key::Enter),
        HostKeyCode::Left => Some(Key::Left),
        HostKeyCode::Right => Some(Key::Right),
        HostKeyCode::Up => Some(Key::Up),
        HostKeyCode::Down => Some(Key::Down),
        HostKeyCode::Home => Some(Key::Home),
        HostKeyCode::End => Some(Key::End),
        HostKeyCode::PageUp => Some(Key::PageUp),
        HostKeyCode::PageDown => Some(Key::PageDown),
        HostKeyCode::Tab => Some(Key::Tab),
        HostKeyCode::BackTab => Some(Key::Tab),
        HostKeyCode::Delete => Some(Key::Delete),
        HostKeyCode::Insert => Some(Key::Insert),
        HostKeyCode::F(n) => Some(Key::Function(n)),
        HostKeyCode::Char(c) => Some(Key::Char(c)),
        HostKeyCode::Esc => Some(Key::Escape),
        HostKeyCode::Other => None,
    }
}

/// The input event of a host key: Ctrl-] shuts the session down; keys the
/// terminal knows are forwarded with their modifiers; others are dropped.
pub open spec fn map_key_spec(key: HostKeyEvent) -> Option<InputEvent> {
    if key.control && key.code == HostKeyCode::Char(']') {
        Some(InputEvent::Shutdown)
    } else {
        match host_key_spec(key.code) {
            Some(k) => Some(
                InputEvent::Key(
                    KeyEvent {
                        key: k,
                        modifiers: Modifiers { control: key.control, alt: key.alt, shift: key.shift },
                    },
                ),
            ),
            None => None,
        }
    }
}

/// The host key `code`, pressed with these modifiers, is forwarded as the
/// terminal key `key` with the same modifiers.
pub open spec fn forwards_as(code: HostKeyCode, key: Key, control: bool, alt: bool, shift: bool) -> bool {
    map_key_spec(HostKeyEvent { code, control, alt, shift }) == Some(
        InputEvent::Key(KeyEvent { key, modifiers: Modifiers { control, alt, shift } }),
    )
}

/// Every named host key is forwarded as the terminal key of the same name,
/// with the modifiers held: Delete deletes forward, Backspace backward,
/// each arrow moves its own way, Back-Tab is Tab and Esc is Escape; a
/// character is forwarded as itself unless it is Ctrl-], and a function
/// key keeps its number.
pub proof fn lemma_named_keys_keep_their_names(control: bool, alt: bool, shift: bool, c: char, n: u8)
    ensures
        forwards_as(HostKeyCode::Backspace, Key::Backspace, control, alt, shift),
        forwards_as(HostKeyCode::Enter, Key::Enter, control, alt, shift),
        forwards_as(HostKeyCode::Left, Key::Left, control, alt, shift),
        forwards_as(HostKeyCode::Right, Key::Right, control, alt, shift),
        forwards_as(HostKeyCode::Up, Key::Up, control, alt, shift),
        forwards_as(HostKeyCode::Down, Key::Down, control, alt, shift),
        forwards_as(HostKeyCode::Home, Key::Home, control, alt, shift),
        forwards_as(HostKeyCode::End, Key::End, control, alt, shift),
        forwards_as(HostKeyCode::PageUp, Key::PageUp, control, alt, shift),
        forwards_as(HostKeyCode::PageDown, Key::PageDown, control, alt, shift),
        forwards_as(HostKeyCode::Tab, Key::Tab, control, alt, shift),
        forwards_as(HostKeyCode::BackTab, Key::Tab, control, alt, shift),
        forwards_as(HostKeyCode::Delete, Key::Delete, control, alt, shift),
        forwards_as(HostKeyCode::Insert, Key::Insert, control, alt, shift),
        forwards_as(HostKeyCode::Esc, Key::Escape, control, alt, shift),
        forwards_as(HostKeyCode::F(n), Key::Function(n), control, alt, shift),
        !(control && c == ']') ==> forwards_as(HostKeyCode::Char(c), Key::Char(c), control, alt, shift),
        map_key_spec(HostKeyEvent { code: HostKeyCode::Other, control, alt, shift }) is None,
{
}

/// Maps a host key press to terminal input.
pub fn map_crossterm_key(key: &HostKeyEvent) -> (r: Option<InputEvent>)
    ensures
        r == map_key_spec(*key),
{
    let modifiers = Modifiers { control: key.control, alt: key.alt, shift: key.shift };
    if modifiers.control && key.code == HostKeyCode::Char(']') {
        return Some(InputEvent::Shutdown);
    }
    let k = match key.code {
        HostKeyCode::Backspace => Key::Backspace,
        HostKeyCode::Enter => Key::Enter,
        HostKeyCode::Left => Key::Left,
        HostKeyCode::Right => Key::Right,
        HostKeyCode::Up => Key::Up,
        HostKeyCode::Down => Key::Down,
        HostKeyCode::Home => Key::Home,
        HostKeyCode::End => Key::End,
        HostKeyCode::PageUp => Key::PageUp,
        HostKeyCode::PageDown => Key::PageDown,
        HostKeyCode::Tab | HostKeyCode::BackTab => Key::Tab,
        HostKeyCode::Delete => Key::Delete,
        HostKeyCode::Insert => Key::Insert,
        HostKeyCode::F(n) => Key::Function(n),
        HostKeyCode::Char(c) => Key::Char(c),
        HostKeyCode::Esc => Key::Escape,
        HostKeyCode::Other => {
            return None;
        },
    };
    Some(InputEvent::Key(KeyEvent { key: k, modifiers }))
}

/// What to do with a key press.
#[derive(Debug, Clone, PartialEq, Eq)]
pub enum KeyAction {
    /// Nothing to send.
    Ignore,
    /// Stop the session and terminate the child.
    Shutdown,
    /// Send these bytes to the child.
    Write(Vec<u8>),
}

/// The state of an interactive session between the child process and the
/// display: the refresh scheduler, the rectangles not yet drawn, whether a
/// key was just sent, and the grid size.
pub struct InteractiveSession {
    scheduler: RefreshScheduler,
    pending_dirty: Vec<DirtyRect>,
    pending_input_feedback: bool,
    honors_host_resize: bool,
    rows: u16,
    columns: u16,
}

impl InteractiveSession {
    /// The refresh scheduler.
    pub closed spec fn scheduler(&self) -> RefreshScheduler {
        self.scheduler
    }

    /// The rectangles changed since the display was last drawn.
    pub closed spec fn pending_dirty(&self) -> Seq<DirtyRect> {
        self.pending_dirty@
    }

    /// Whether input was sent whose echo has not yet been seen.
    pub closed spec fn pending_input_feedback(&self) -> bool {
        self.pending_input_feedback
    }

    /// Whether host terminal resizes resize the session.
    pub closed spec fn honors_host_resize(&self) -> bool {
        self.honors_host_resize
    }

    /// The grid size, rows then columns.
    pub closed spec fn grid(&self) -> (u16, u16) {
        (self.rows, self.columns)
    }

    /// The pending rectangles can be coalesced.
    pub closed spec fn wf(&self) -> bool {
        bottoms_fit(self.pending_dirty@)
    }

    /// A session for a `rows` x `columns` grid on a display with the given
    /// capabilities; its scheduler follows the display's rate limit.
    pub fn new(rows: u16, columns: u16, capabilities: DisplayCapabilities, honors_host_resize: bool) -> (r: Self)
        ensures
            r.wf(),
            r.grid() == (rows, columns),
            r.pending_dirty().len() == 0,
            !r.pending_input_feedback(),
            r.honors_host_resize() == honors_host_resize,
            r.scheduler().min_interval() == capabilities.min_refresh_interval,
            r.scheduler().bypasses_rate_limit() == capabilities.high_priority_bypasses_rate_limit,
            r.scheduler().last_refresh() is None,
            r.scheduler().pending() is None,
    {
        InteractiveSession {
            scheduler: RefreshScheduler::with_policy(
                capabilities.min_refresh_interval,
                capabilities.high_priority_bypasses_rate_limit,
            ),
            pending_dirty: Vec::new(),
            pending_input_feedback: false,
            honors_host_resize,
            rows,
            columns,
        }
    }

    /// Handles a key press (already mapped to input, if it maps): a shutdown
    /// stops the session; input that encodes to bytes is sent and marks that
    /// its echo should refresh at high priority; anything else is ignored.
    pub fn handle_key(&mut self, input: Option<InputEvent>, mode: TerminalInputMode) -> (r: KeyAction)
        requires
            old(self).wf(),
        ensures
            final(self).wf(),
            match input {
                None => r == KeyAction::Ignore,
                Some(InputEvent::Shutdown) => r == KeyAction::Shutdown,
                Some(event) => if encode_event_spec(event, mode).len() > 0 {
                    (r matches KeyAction::Write(bytes) && bytes@ == encode_event_spec(event, mode))
                } else {
                    r == KeyAction::Ignore
                },
            },
            final(self).pending_input_feedback() == (old(self).pending_input_feedback() || r is Write),
            final(self).scheduler() == old(self).scheduler(),
            final(self).pending_dirty() == old(self).pending_dirty(),
            final(self).grid() == old(self).grid(),
            final(self).honors_host_resize() == old(self).honors_host_resize(),
    {
        let event = match input {
            Some(event) => event,
            None => {
                return KeyAction::Ignore;
            },
        };
        if let InputEvent::Shutdown = event {
            return KeyAction::Shutdown;
        }
        let bytes = encode_event(&event, mode);
        if bytes.len() > 0 {
            self.pending_input_feedback = true;
            KeyAction::Write(bytes)
        } else {
            KeyAction::Ignore
        }
    }

    /// Handles a host resize: ignored unless the display follows the host's
    /// size; otherwise the grid takes the new size, the whole grid is to be
    /// redrawn and a high-priority change is recorded. Returns whether the
    /// child and the terminal are to be resized.
    pub fn handle_resize(&mut self, columns: u16, rows: u16) -> (r: bool)
        requires
            old(self).wf(),
        ensures
            final(self).wf(),
            r == old(self).honors_host_resize(),
            final(self).honors_host_resize() == old(self).honors_host_resize(),
            final(self).pending_input_feedback() == old(self).pending_input_feedback(),
            !r ==> final(self).grid() == old(self).grid() && final(self).pending_dirty() == old(self).pending_dirty() && final(self).scheduler() == old(self).scheduler(),
            r ==> final(self).grid() == (rows, columns) && final(self).pending_dirty() == seq![
                DirtyRect { x: 0, y: 0, width: columns, height: rows },
            ] && final(self).scheduler().pending() == Some(RefreshPriority::High)
                && final(self).scheduler().last_refresh() == old(self).scheduler().last_refresh()
                && final(self).scheduler().min_interval() == old(self).scheduler().min_interval()
                && final(self).scheduler().bypasses_rate_limit() == old(self).scheduler().bypasses_rate_limit(),
    {
        if !self.honors_host_resize {
            return false;
        }
        self.columns = columns;
        self.rows = rows;
        let mut dirty: Vec<DirtyRect> = Vec::new();
        dirty.push(DirtyRect::full(columns, rows));
        self.pending_dirty = dirty;
        self.scheduler.record_mutation(RefreshPriority::High);
        proof {
            assert(self.pending_dirty@ =~= seq![DirtyRect { x: 0, y: 0, width: columns, height: rows }]);
        }
        true
    }

    /// Handles the rectangles changed by output of the child: when there
    /// are any, they are added to the pending ones and a change is recorded,
    /// at high priority if it answers input just sent (which is then no
    /// longer pending), at normal priority otherwise.
    pub fn handle_output(&mut self, dirty: Vec<DirtyRect>)
        requires
            old(self).wf(),
            bottoms_fit(dirty@),
        ensures
            final(self).wf(),
            final(self).grid() == old(self).grid(),
            final(self).honors_host_resize() == old(self).honors_host_resize(),
            dirty@.len() == 0 ==> final(self).pending_dirty() == old(self).pending_dirty()
                && final(self).scheduler() == old(self).scheduler() && final(self).pending_input_feedback() == old(self).pending_input_feedback(),
            dirty@.len() > 0 ==> {
                let priority = if old(self).pending_input_feedback() {
                    RefreshPriority::High
                } else {
                    RefreshPriority::Normal
                };
                &&& final(self).pending_dirty() == old(self).pending_dirty() + dirty@
                &&& !final(self).pending_input_feedback()
                &&& final(self).scheduler().pending() == Some(
                    match old(self).scheduler().pending() {
                        Some(p) => crate::refresh::max_priority(p, priority),
                        None => priority,
                    },
                )
                &&& final(self).scheduler().last_refresh() == old(self).scheduler().last_refresh()
                &&& final(self).scheduler().min_interval() == old(self).scheduler().min_interval()
                &&& final(self).scheduler().bypasses_rate_limit() == old(self).scheduler().bypasses_rate_limit()
            },
    {
        if dirty.len() == 0 {
            return ;
        }
        let priority = if self.pending_input_feedback {
            self.pending_input_feedback = false;
            RefreshPriority::High
        } else {
            RefreshPriority::Normal
        };
        self.scheduler.record_mutation(priority);
        let mut pending: Vec<DirtyRect> = Vec::new();
        std::mem::swap(&mut pending, &mut self.pending_dirty);
        let ghost before = pending@;
        let n = dirty.len();
        let mut i: usize = 0;
        while i < n
            invariant
                n == dirty@.len(),
                i <= n,
                bottoms_fit(dirty@),
                bottoms_fit(before),
                pending@ == before + dirty@.take(i as int),
            decreases n - i,
        {
            pending.push(dirty[i]);
            proof {
                assert(dirty@.take(i + 1) =~= dirty@.take(i as int).push(dirty@[i as int]));
                assert(before + dirty@.take(i + 1) =~= (before + dirty@.take(i as int)).push(dirty@[i as int]));
            }
            i = i + 1;
        }
        proof {
            assert(dirty@.take(n as int) =~= dirty@);
            let all = pending@;
            assert forall|k: int| 0 <= k < all.len() implies #[trigger] all[k].y + all[k].height
                <= u16::MAX by {
                if k < before.len() {
                    assert(all[k] == before[k]);
                } else {
                    assert(all[k] == dirty@[k - before.len()]);
                }
            }
        }
        self.pending_dirty = pending;
    }

    /// At `now`: when rectangles are pending and the scheduler lets the
    /// display refresh, they are coalesced and handed out to be drawn, and
    /// none is pending any more; otherwise nothing changes (the scheduler is
    /// not consulted when nothing is pending).
    pub fn poll_refresh(&mut self, now: Instant) -> (r: Option<Vec<DirtyRect>>)
        requires
            old(self).wf(),
        ensures
            final(self).wf(),
            final(self).grid() == old(self).grid(),
            final(self).honors_host_resize() == old(self).honors_host_resize(),
            final(self).pending_input_feedback() == old(self).pending_input_feedback(),
            old(self).pending_dirty().len() == 0 ==> r is None && final(self).scheduler() == old(self).scheduler() && final(self).pending_dirty() == old(self).pending_dirty(),
            old(self).pending_dirty().len() > 0 ==> {
                let due = old(self).scheduler().pending() matches Some(p) && crate::refresh::refresh_due(
                    p,
                    old(self).scheduler().last_refresh(),
                    now,
                    old(self).scheduler().min_interval(),
                    old(self).scheduler().bypasses_rate_limit(),
                );
                &&& due ==> (r matches Some(rects) && coalesced(old(self).pending_dirty(), rects@))
                    && final(self).pending_dirty().len() == 0 && final(self).scheduler().last_refresh()
                    == Some(now) && final(self).scheduler().pending() is None
                &&& !due ==> r is None && final(self).pending_dirty() == old(self).pending_dirty()
                    && final(self).scheduler().last_refresh() == old(self).scheduler().last_refresh()
                    && final(self).scheduler().pending() == old(self).scheduler().pending()
                &&& final(self).scheduler().min_interval() == old(self).scheduler().min_interval()
                &&& final(self).scheduler().bypasses_rate_limit() == old(self).scheduler().bypasses_rate_limit()
            },
    {
        if self.pending_dirty.len() == 0 {
            return None;
        }
        if !self.scheduler.should_refresh(now) {
            return None;
        }
        let mut rects = Vec::new();
        std::mem::swap(&mut rects, &mut self.pending_dirty);
        proof {
            assert(crate::refresh::nonempty_bottoms_fit(rects@));
        }
        coalesce_dirty_rects(&mut rects);
        Some(rects)
    }

    /// When the child has exited: the pending rectangles, coalesced, for a
    /// last drawing, if there are any; none is pending afterwards.
    pub fn finish(&mut self) -> (r: Option<Vec<DirtyRect>>)
        requires
            old(self).wf(),
        ensures
            final(self).wf(),
            final(self).pending_dirty().len() == 0,
            old(self).pending_dirty().len() == 0 ==> r is None,
            old(self).pending_dirty().len() > 0 ==> (r matches Some(rects) && coalesced(
                old(self).pending_dirty(),
                rects@,
            )),
            final(self).scheduler() == old(self).scheduler(),
            final(self).grid() == old(self).grid(),
    {
        if self.pending_dirty.len() == 0 {
            return None;
        }
        let mut rects = Vec::new();
        std::mem::swap(&mut rects, &mut self.pending_dirty);
        proof {
            assert(crate::refresh::nonempty_bottoms_fit(rects@));
        }
        coalesce_dirty_rects(&mut rects);
        Some(rects)
    }
}

} // verus!
