use vstd::prelude::*;
use crate::diff::patch_of;
use crate::items::Actionable;
use crate::keybinds::{action_of_key, dispatch, Dispatch, KeyChord, Op, TargetOp, TransientOp};
use crate::process::{
    add_word, all_flag, apply_word, cached_flag, command_line, commit_cmd, commit_word, editor_args,
    editor_cmd, fetch_all_cmd, fetch_word, git_word, pull_cmd, pull_word, push_cmd, push_word,
    restore_word, reverse_flag, stage_file_cmd, stage_patch_cmd, staged_flag, unstage_file_cmd,
    unstage_patch_cmd, words, Mode, ProcessCall,
};
use crate::items::Item;
use crate::screen::{busy, carried_flag, dismissed, items_fit, IssuedCommand, Screen, ScreenKind, Section};
use crate::bytes::copy_bytes;

verus! {

/// What the terminal delivers to the loop.
#[derive(Clone, Copy, Debug, PartialEq, Eq, Structural)]
pub enum Event {
    Key(KeyChord),
    Resize(u16, u16),
    Other,
}

/// Why an operation did nothing.
#[derive(Clone, Copy, Debug, PartialEq, Eq, Structural)]
pub enum EngineError {
    /// An edit was asked for and no editor is configured.
    EditorNotSet,
    /// A background command was asked for while the last one still runs.
    Busy,
}

/// What the loop must do after an event: run a command, rebuild the items
/// of the active screen, report an error, or stop.
#[derive(Debug)]
pub struct Outcome {
    pub run: Option<ProcessCall>,
    pub refresh: bool,
    pub error: Option<EngineError>,
    pub exit: bool,
}

pub open spec fn quiet(o: Outcome) -> bool {
    o.run is None && !o.refresh && o.error is None && !o.exit
}

pub open spec fn only_refresh(o: Outcome) -> bool {
    o.run is None && o.refresh && o.error is None && !o.exit
}

/// A screen with nothing collected yet.
pub open spec fn fresh(s: Screen, size: (u16, u16)) -> bool {
    &&& s.size == size
    &&& s.sections@.len() == 0
    &&& s.items@.len() == 0
    &&& s.cursor == 0
    &&& s.command is None
}

pub open spec fn shows(kind: ScreenKind, reference: Seq<u8>) -> bool {
    kind matches ScreenKind::Show(a) && words(a@) == seq![reference]
}

pub open spec fn plain_log(kind: ScreenKind) -> bool {
    kind matches ScreenKind::Log(a) && a@.len() == 0
}

pub open spec fn screen_ok(s: Screen) -> bool {
    s.wf() && s.cursor_ok()
}

/// What an operation on the selected item asks for.
pub enum Intent {
    Nothing,
    Show(Seq<u8>),
    Edit(Seq<u8>, Option<u64>),
    Git(Seq<Seq<u8>>, Seq<u8>),
}

/// The behaviour of each operation on each kind of item.
pub open spec fn intent(t: TargetOp, a: Actionable) -> Intent {
    match t {
        TargetOp::ShowOrEdit => match a {
            Actionable::Ref(r) => Intent::Show(r@),
            Actionable::Untracked(f) => Intent::Edit(f@, None),
            Actionable::Delta(d) => Intent::Edit(d.new_file@, None),
            Actionable::Hunk(h) => Intent::Edit(h.new_file@, Some(h.new_start)),
            Actionable::DiffLine(_) => Intent::Nothing,
        },
        TargetOp::Stage => match a {
            Actionable::Untracked(u) => Intent::Git(seq![add_word(), u@], seq![]),
            Actionable::Delta(d) => Intent::Git(seq![add_word(), d.new_file@], seq![]),
            Actionable::Hunk(h) => Intent::Git(seq![apply_word(), cached_flag()], patch_of(h)),
            _ => Intent::Nothing,
        },
        TargetOp::Unstage => match a {
            Actionable::Delta(d) => Intent::Git(seq![restore_word(), staged_flag(), d.new_file@], seq![]),
            Actionable::Hunk(h) => Intent::Git(
                seq![apply_word(), cached_flag(), reverse_flag()],
                patch_of(h),
            ),
            _ => Intent::Nothing,
        },
    }
}

/// The payload of the item under the cursor, if any.
pub open spec fn selected(s: Screen) -> Option<Actionable> {
    if s.cursor < s.visible().len() {
        s.visible()[s.cursor as int].act
    } else {
        None
    }
}

/// A background command was issued from the top screen, or refused because
/// one still runs there.
pub open spec fn issued(
    old_s: Seq<Screen>,
    new_s: Seq<Screen>,
    o: Outcome,
    program: Seq<u8>,
    args: Seq<Seq<u8>>,
    input: Seq<u8>,
    refresh: bool,
) -> bool {
    if busy(old_s.last().command) {
        &&& new_s == old_s
        &&& o.run is None && !o.refresh && o.error == Some(EngineError::Busy) && !o.exit
    } else {
        &&& new_s.len() == old_s.len()
        &&& new_s.drop_last() == old_s.drop_last()
        &&& new_s.last() == Screen { command: new_s.last().command, ..old_s.last() }
        &&& new_s.last().command matches Some(c) && c.args@ == command_line(program, args)
            && c.output@.len() == 0 && !c.finished && !c.finish_acked
        &&& o.run matches Some(call) && call.is(program, args, input, Mode::Background)
        &&& o.refresh == refresh && o.error is None && !o.exit
    }
}

/// An editor was handed the terminal, or could not be, for lack of one.
pub open spec fn edited(
    editor: Option<Vec<u8>>,
    o: Outcome,
    path: Seq<u8>,
    line: Option<u64>,
) -> bool {
    match editor {
        None => o.run is None && !o.refresh && o.error == Some(EngineError::EditorNotSet) && !o.exit,
        Some(e) => {
            &&& o.run matches Some(c) && c.is(e@, editor_args(e@, path, line), seq![], Mode::Foreground)
            &&& o.refresh && o.error is None && !o.exit
        },
    }
}

/// `new_s` is `old_s` with a fresh screen on top that shows `reference`.
pub open spec fn pushed_show(old_s: Seq<Screen>, new_s: Seq<Screen>, reference: Seq<u8>, size: (u16, u16)) -> bool {
    &&& new_s.len() == old_s.len() + 1
    &&& new_s.drop_last() == old_s
    &&& fresh(new_s.last(), size)
    &&& shows(new_s.last().kind, reference)
}

/// The effect of an operation on the selected item.
pub open spec fn target_done(
    old_s: Seq<Screen>,
    new_s: Seq<Screen>,
    o: Outcome,
    t: TargetOp,
    size: (u16, u16),
    editor: Option<Vec<u8>>,
) -> bool {
    match selected(old_s.last()) {
        None => new_s == old_s && quiet(o),
        Some(a) => match intent(t, a) {
            Intent::Nothing => new_s == old_s && quiet(o),
            Intent::Show(r) => pushed_show(old_s, new_s, r, size) && only_refresh(o),
            Intent::Edit(p, l) => new_s == old_s && edited(editor, o, p, l),
            Intent::Git(args, input) => issued(old_s, new_s, o, git_word(), args, input, true),
        },
    }
}

/// The effect of an operation, given the stack before and after it.
pub open spec fn op_done(
    old_s: Seq<Screen>,
    new_s: Seq<Screen>,
    new_pending: Option<TransientOp>,
    o: Outcome,
    op: Op,
    size: (u16, u16),
    editor: Option<Vec<u8>>,
) -> bool {
    &&& op is Transient ==> new_pending == Some(op->Transient_0)
    &&& !(op is Transient) ==> new_pending is None
    &&& match op {
        Op::Quit => {
            &&& new_s == old_s.drop_last()
            &&& o.run is None && o.error is None
            &&& o.refresh == (new_s.len() > 0)
            &&& o.exit == (new_s.len() == 0)
        },
        Op::Refresh => new_s == old_s && only_refresh(o),
        Op::ToggleSection => new_s.len() == old_s.len() && new_s.drop_last() == old_s.drop_last()
            && old_s.last().toggled(&new_s.last()) && quiet(o),
        Op::SelectPrevious => moved_top(old_s, new_s, old_s.last().cursor - 1) && quiet(o),
        Op::SelectNext => moved_top(old_s, new_s, old_s.last().cursor + 1) && quiet(o),
        Op::HalfPageUp => moved_top(old_s, new_s, old_s.last().cursor - old_s.last().half_page())
            && quiet(o),
        Op::HalfPageDown => moved_top(old_s, new_s, old_s.last().cursor + old_s.last().half_page())
            && quiet(o),
        Op::Log => {
            &&& new_s.len() == 2
            &&& new_s[0] == old_s[0]
            &&& fresh(new_s[1], size) && plain_log(new_s[1].kind)
            &&& only_refresh(o)
        },
        Op::Fetch => issued(old_s, new_s, o, git_word(), seq![fetch_word(), all_flag()], seq![], true),
        Op::Push => issued(old_s, new_s, o, git_word(), seq![push_word()], seq![], false),
        Op::Pull => issued(old_s, new_s, o, git_word(), seq![pull_word()], seq![], false),
        Op::Commit => {
            &&& new_s == old_s
            &&& o.run matches Some(c) && c.is(git_word(), seq![commit_word()], seq![], Mode::Foreground)
            &&& o.refresh && o.error is None && !o.exit
        },
        Op::Target(t) => target_done(old_s, new_s, o, t, size, editor),
        Op::Transient(_) => new_s == old_s && quiet(o),
    }
}

pub open spec fn moved_top(old_s: Seq<Screen>, new_s: Seq<Screen>, c: int) -> bool {
    &&& new_s.len() == old_s.len()
    &&& new_s.drop_last() == old_s.drop_last()
    &&& old_s.last().moved(&new_s.last(), c)
}

/// The effect of a key press: a finished command's output is dismissed,
/// then the key is resolved in the open submenu (or among the global binds)
/// and what it resolves to is done.
pub open spec fn key_done(
    old_s: Seq<Screen>,
    old_p: Option<TransientOp>,
    new_s: Seq<Screen>,
    new_p: Option<TransientOp>,
    o: Outcome,
    k: KeyChord,
    size: (u16, u16),
    editor: Option<Vec<u8>>,
) -> bool {
    let mid = old_s.drop_last().push(dismissed(old_s.last()));
    match dispatch(old_p, k) {
        Dispatch::Nothing => new_s == mid && new_p == old_p && quiet(o),
        Dispatch::Cancel => new_s == mid && new_p is None && quiet(o),
        Dispatch::Run(op) => op_done(mid, new_s, new_p, o, op, size, editor),
    }
}

proof fn lemma_top_replaced(before: Seq<Screen>, top: Screen)
    requires
        before.len() > 0,
        forall|i: int| 0 <= i < before.len() ==> screen_ok(#[trigger] before[i]),
        screen_ok(top),
    ensures
        forall|i: int| 0 <= i < before.len() ==> screen_ok(#[trigger] before.drop_last().push(top)[i]),
{
    assert forall|i: int| 0 <= i < before.len() implies screen_ok(#[trigger] before.drop_last().push(top)[i]) by {
        if i < before.len() - 1 {
            assert(before.drop_last().push(top)[i] == before[i]);
        }
    }
}

/// The stack of screens (top = active) and the open submenu, if any.
#[derive(Debug)]
pub struct Engine {
    pub screens: Vec<Screen>,
    pub pending: Option<TransientOp>,
}

/// Exec form of an [`Intent`].
enum Plan {
    Nothing,
    Show(Vec<u8>),
    Edit(Vec<u8>, Option<u64>),
    Git(ProcessCall),
}

spec fn plan_is(p: Plan, i: Intent) -> bool {
    match (p, i) {
        (Plan::Nothing, Intent::Nothing) => true,
        (Plan::Show(v), Intent::Show(r)) => v@ == r,
        (Plan::Edit(v, l), Intent::Edit(q, m)) => v@ == q && l == m,
        (Plan::Git(c), Intent::Git(args, input)) => c.is(git_word(), args, input, Mode::Background),
        _ => false,
    }
}

fn plan(t: TargetOp, a: &Actionable) -> (r: Plan)
    ensures
        plan_is(r, intent(t, *a)),
{
    match t {
        TargetOp::ShowOrEdit => match a {
            Actionable::Ref(r) => Plan::Show(copy_bytes(r)),
            Actionable::Untracked(f) => Plan::Edit(copy_bytes(f), None),
            Actionable::Delta(d) => Plan::Edit(copy_bytes(&d.new_file), None),
            Actionable::Hunk(h) => Plan::Edit(copy_bytes(&h.new_file), Some(h.new_start)),
            Actionable::DiffLine(_) => Plan::Nothing,
        },
        TargetOp::Stage => match a {
            Actionable::Untracked(u) => Plan::Git(stage_file_cmd(u)),
            Actionable::Delta(d) => Plan::Git(stage_file_cmd(&d.new_file)),
            Actionable::Hunk(h) => Plan::Git(stage_patch_cmd(h.format_patch())),
            _ => Plan::Nothing,
        },
        TargetOp::Unstage => match a {
            Actionable::Delta(d) => Plan::Git(unstage_file_cmd(&d.new_file)),
            Actionable::Hunk(h) => Plan::Git(unstage_patch_cmd(h.format_patch())),
            _ => Plan::Nothing,
        },
    }
}

impl Engine {
    /// Every screen is well formed and its cursor pinned.
    pub open spec fn wf(&self) -> bool {
        forall|i: int| 0 <= i < self.screens@.len() ==> screen_ok(#[trigger] self.screens@[i])
    }

    /// A stack holding one empty screen of the given kind; the caller fills
    /// it by a refresh.
    pub fn new(kind: ScreenKind, size: (u16, u16)) -> (r: Engine)
        ensures
            r.wf(),
            r.screens@.len() == 1,
            fresh(r.screens@[0], size),
            r.screens@[0].kind == kind,
            r.pending is None,
    {
        let s = Screen::new(kind, size);
        Engine { screens: vec![s], pending: None }
    }

    /// Whether any screen is left.
    pub fn is_running(&self) -> (r: bool)
        ensures
            r == (self.screens@.len() > 0),
    {
        self.screens.len() > 0
    }

    fn outcome(run: Option<ProcessCall>, refresh: bool, error: Option<EngineError>, exit: bool) -> (o: Outcome)
        ensures
            o.run == run,
            o.refresh == refresh,
            o.error == error,
            o.exit == exit,
    {
        Outcome { run, refresh, error, exit }
    }

    /// Runs a navigation operation on the top screen.
    fn top_op(&mut self, op: Op) -> (o: Outcome)
        requires
            old(self).wf(),
            old(self).screens@.len() > 0,
            op is ToggleSection || op is SelectPrevious || op is SelectNext || op is HalfPageUp
                || op is HalfPageDown,
        ensures
            final(self).wf(),
            final(self).pending == old(self).pending,
            op_done(old(self).screens@, final(self).screens@, None, o, op, (0, 0), None),
    {
        let ghost before = self.screens@;
        let mut top = match self.screens.pop() {
            Some(s) => s,
            None => return Self::outcome(None, false, None, false),
        };
        assert(screen_ok(before[before.len() - 1]));
        match op {
            Op::ToggleSection => top.toggle_section(),
            Op::SelectPrevious => top.select_previous(),
            Op::SelectNext => top.select_next(),
            Op::HalfPageUp => top.scroll_half_page_up(),
            _ => top.scroll_half_page_down(),
        }
        self.screens.push(top);
        proof {
            lemma_top_replaced(before, top);
            assert(self.screens@.drop_last() =~= before.drop_last());
        }
        Self::outcome(None, false, None, false)
    }

    /// Does what the selected item's payload calls for under `t`.
    fn apply_target(&mut self, t: TargetOp, size: (u16, u16), editor: &Option<Vec<u8>>) -> (o: Outcome)
        requires
            old(self).wf(),
            old(self).screens@.len() > 0,
        ensures
            final(self).wf(),
            final(self).pending == old(self).pending,
            target_done(old(self).screens@, final(self).screens@, o, t, size, *editor),
    {
        let n = self.screens.len();
        let p = {
            let top = &self.screens[n - 1];
            match top.selected_index() {
                None => Plan::Nothing,
                Some(i) => match &top.items[i].act {
                    None => Plan::Nothing,
                    Some(a) => plan(t, a),
                },
            }
        };
        match p {
            Plan::Nothing => Self::outcome(None, false, None, false),
            Plan::Show(r) => {
                let ghost rv = r@;
                let args = vec![r];
                assert(words(args@) =~= seq![rv]);
                let s = Screen::new(ScreenKind::Show(args), size);
                let ghost before = self.screens@;
                self.screens.push(s);
                proof {
                    assert(self.screens@.drop_last() =~= before);
                    assert forall|i: int| 0 <= i < self.screens@.len() implies screen_ok(#[trigger] self.screens@[i]) by {
                        if i < before.len() {
                            assert(self.screens@[i] == before[i]);
                        }
                    }
                }
                Self::outcome(None, true, None, false)
            },
            Plan::Edit(path, line) => match editor_cmd(editor, &path, line) {
                Ok(c) => Self::outcome(Some(c), true, None, false),
                Err(_) => Self::outcome(None, false, Some(EngineError::EditorNotSet), false),
            },
            Plan::Git(c) => self.issue(c, true),
        }
    }

    /// Runs one operation on the stack.
    pub fn apply_op(&mut self, op: Op, size: (u16, u16), editor: &Option<Vec<u8>>) -> (o: Outcome)
        requires
            old(self).wf(),
            old(self).screens@.len() > 0,
        ensures
            final(self).wf(),
            op_done(old(self).screens@, final(self).screens@, final(self).pending, o, op, size, *editor),
    {
        if let Op::Transient(t) = op {
            self.pending = Some(t);
            return Self::outcome(None, false, None, false);
        }
        self.pending = None;
        match op {
            Op::Quit => {
                let ghost before = self.screens@;
                self.screens.pop();
                proof {
                    assert forall|i: int| 0 <= i < self.screens@.len() implies screen_ok(#[trigger] self.screens@[i]) by {
                        assert(self.screens@[i] == before[i]);
                    }
                }
                let more = self.screens.len() > 0;
                Self::outcome(None, more, None, !more)
            },
            Op::Refresh => Self::outcome(None, true, None, false),
            Op::ToggleSection | Op::SelectPrevious | Op::SelectNext | Op::HalfPageUp | Op::HalfPageDown => {
                self.top_op(op)
            },
            Op::Log => {
                let ghost first = self.screens@[0];
                self.screens.truncate(1);
                self.screens.push(Screen::new(ScreenKind::Log(Vec::new()), size));
                proof {
                    assert(self.screens@[0] == first);
                    assert forall|i: int| 0 <= i < self.screens@.len() implies screen_ok(#[trigger] self.screens@[i]) by {
                    }
                }
                Self::outcome(None, true, None, false)
            },
            Op::Fetch => self.issue(fetch_all_cmd(), true),
            Op::Push => self.issue(push_cmd(), false),
            Op::Pull => self.issue(pull_cmd(), false),
            Op::Commit => Self::outcome(Some(commit_cmd()), true, None, false),
            Op::Target(t) => self.apply_target(t, size, editor),
            Op::Transient(_) => Self::outcome(None, false, None, false),
        }
    }

    /// Handles one terminal event, then pins the active screen's cursor.
    pub fn handle_event(&mut self, ev: Event, size: (u16, u16), editor: &Option<Vec<u8>>) -> (o: Outcome)
        requires
            old(self).wf(),
            old(self).screens@.len() > 0,
        ensures
            final(self).wf(),
            o.exit == (final(self).screens@.len() == 0),
            ev is Other ==> final(self).screens@ == old(self).screens@ && final(self).pending == old(self).pending
                && quiet(o),
            ev matches Event::Resize(w, h) ==> {
                &&& final(self).pending == old(self).pending
                &&& quiet(o)
                &&& final(self).screens@ == old(self).screens@.drop_last().push(
                    Screen { size: (w, h), ..old(self).screens@.last() },
                )
            },
            ev matches Event::Key(k) ==> key_done(
                old(self).screens@,
                old(self).pending,
                final(self).screens@,
                final(self).pending,
                o,
                k,
                size,
                *editor,
            ),
    {
        let o = match ev {
            Event::Other => Self::outcome(None, false, None, false),
            Event::Resize(w, h) => {
                let ghost before = self.screens@;
                let mut top = match self.screens.pop() {
                    Some(s) => s,
                    None => return Self::outcome(None, false, None, true),
                };
                assert(screen_ok(before[before.len() - 1]));
                top.size = (w, h);
                self.screens.push(top);
                proof {
                    lemma_top_replaced(before, top);
                }
                Self::outcome(None, false, None, false)
            },
            Event::Key(k) => {
                let ghost before = self.screens@;
                let mut top = match self.screens.pop() {
                    Some(s) => s,
                    None => return Self::outcome(None, false, None, true),
                };
                assert(screen_ok(before[before.len() - 1]));
                top.clear_finished_command();
                self.screens.push(top);
                proof {
                    lemma_top_replaced(before, top);
                }
                match action_of_key(self.pending, k) {
                    Dispatch::Run(op) => self.apply_op(op, size, editor),
                    Dispatch::Cancel => {
                        self.pending = None;
                        Self::outcome(None, false, None, false)
                    },
                    Dispatch::Nothing => Self::outcome(None, false, None, false),
                }
            },
        };
        self.clamp_top();
        o
    }

    /// Pins the cursor of the active screen, if there is one.
    pub fn clamp_top(&mut self)
        requires
            old(self).wf(),
        ensures
            final(self).screens@ == old(self).screens@,
            final(self).pending == old(self).pending,
    {
        let ghost before = self.screens@;
        let mut top = match self.screens.pop() {
            Some(s) => s,
            None => return,
        };
        assert(screen_ok(before[before.len() - 1]));
        top.clamp_cursor();
        self.screens.push(top);
        assert(self.screens@ =~= before);
    }

    /// Hands the active screen its freshly collected sections and items (see
    /// [`Screen::refresh_items`]).
    pub fn refresh_top(&mut self, sections: Vec<Section>, items: Vec<Item>) -> (r: bool)
        requires
            old(self).wf(),
            old(self).screens@.len() > 0,
        ensures
            final(self).wf(),
            final(self).pending == old(self).pending,
            final(self).screens@.len() == old(self).screens@.len(),
            final(self).screens@.drop_last() == old(self).screens@.drop_last(),
            r == items_fit(items@, sections@.len()),
            !r ==> final(self).screens@ == old(self).screens@,
            r ==> final(self).screens@.last().items@ == items@,
            r ==> final(self).screens@.last().sections@.len() == sections@.len(),
            r ==> forall|j: int| 0 <= j < sections@.len() ==> (#[trigger] final(self).screens@.last().sections@[j]).name
                == sections@[j].name && final(self).screens@.last().sections@[j].collapsed == carried_flag(
                old(self).screens@.last().sections@,
                sections@[j].name@,
                sections@[j].collapsed,
            ),
            final(self).screens@.last().kind == old(self).screens@.last().kind,
            final(self).screens@.last().size == old(self).screens@.last().size,
            final(self).screens@.last().command == old(self).screens@.last().command,
    {
        let ghost before = self.screens@;
        let mut top = match self.screens.pop() {
            Some(s) => s,
            None => return false,
        };
        assert(screen_ok(before[before.len() - 1]));
        let r = top.refresh_items(sections, items);
        self.screens.push(top);
        proof {
            lemma_top_replaced(before, top);
            assert(self.screens@.drop_last() =~= before.drop_last());
            if !r {
                assert(self.screens@ =~= before);
            }
        }
        r
    }

    /// Appends output of the active screen's running command.
    pub fn record_output(&mut self, chunk: &Vec<u8>)
        requires
            old(self).wf(),
            old(self).screens@.len() > 0,
        ensures
            final(self).wf(),
            final(self).pending == old(self).pending,
            final(self).screens@.len() == old(self).screens@.len(),
            final(self).screens@.drop_last() == old(self).screens@.drop_last(),
            busy(old(self).screens@.last().command) ==> (final(self).screens@.last().command matches Some(c)
                && c == IssuedCommand { output: c.output, ..old(self).screens@.last().command->Some_0 }
                && c.output@ == old(self).screens@.last().command->Some_0.output@ + chunk@),
            !busy(old(self).screens@.last().command) ==> final(self).screens@ == old(self).screens@,
    {
        let ghost before = self.screens@;
        let mut top = match self.screens.pop() {
            Some(s) => s,
            None => return,
        };
        assert(screen_ok(before[before.len() - 1]));
        top.record_output(chunk);
        self.screens.push(top);
        proof {
            lemma_top_replaced(before, top);
            assert(self.screens@.drop_last() =~= before.drop_last());
            if !busy(before.last().command) {
                assert(self.screens@ =~= before);
            }
        }
    }

    /// Records that the active screen's command exited; true only on the
    /// first such observation.
    pub fn record_exit(&mut self) -> (r: bool)
        requires
            old(self).wf(),
            old(self).screens@.len() > 0,
        ensures
            final(self).wf(),
            final(self).pending == old(self).pending,
            r == busy(old(self).screens@.last().command),
            r ==> final(self).screens@ == old(self).screens@.drop_last().push(
                Screen {
                    command: Some(IssuedCommand { finished: true, ..old(self).screens@.last().command->Some_0 }),
                    ..old(self).screens@.last()
                },
            ),
            !r ==> final(self).screens@ == old(self).screens@,
    {
        let ghost before = self.screens@;
        let mut top = match self.screens.pop() {
            Some(s) => s,
            None => return false,
        };
        assert(screen_ok(before[before.len() - 1]));
        let r = top.record_exit();
        self.screens.push(top);
        proof {
            lemma_top_replaced(before, top);
            if !r {
                assert(self.screens@ =~= before);
            }
        }
        r
    }

    /// Marks the active screen's finished command output as shown, so that
    /// the next key press dismisses it.
    pub fn acknowledge_finish(&mut self)
        requires
            old(self).wf(),
            old(self).screens@.len() > 0,
        ensures
            final(self).wf(),
            final(self).pending == old(self).pending,
            (old(self).screens@.last().command matches Some(c) && c.finished) ==> final(self).screens@
                == old(self).screens@.drop_last().push(
                Screen {
                    command: Some(IssuedCommand { finish_acked: true, ..old(self).screens@.last().command->Some_0 }),
                    ..old(self).screens@.last()
                },
            ),
            !(old(self).screens@.last().command matches Some(c) && c.finished) ==> final(self).screens@
                == old(self).screens@,
    {
        let ghost before = self.screens@;
        let mut top = match self.screens.pop() {
            Some(s) => s,
            None => return,
        };
        assert(screen_ok(before[before.len() - 1]));
        top.acknowledge_finish();
        self.screens.push(top);
        proof {
            lemma_top_replaced(before, top);
            assert(self.screens@ =~= self.screens@.drop_last().push(top));
            if !(before.last().command matches Some(c) && c.finished) {
                assert(self.screens@ =~= before);
            }
        }
    }

    /// Issues a background command from the top screen.
    fn issue(&mut self, call: ProcessCall, refresh: bool) -> (o: Outcome)
        requires
            old(self).wf(),
            old(self).screens@.len() > 0,
            call.mode == Mode::Background,
        ensures
            final(self).wf(),
            final(self).pending == old(self).pending,
            issued(old(self).screens@, final(self).screens@, o, call.program@, words(call.args@), call.input@, refresh),
    {
        let text = call.display();
        let ghost before = self.screens@;
        let mut top = match self.screens.pop() {
            Some(s) => s,
            None => return Self::outcome(None, false, None, false),
        };
        assert(screen_ok(before[before.len() - 1]));
        let ok = top.issue_command(text);
        self.screens.push(top);
        if ok {
            proof {
                assert(self.screens@.drop_last() =~= before.drop_last());
                assert forall|i: int| 0 <= i < self.screens@.len() implies screen_ok(#[trigger] self.screens@[i]) by {
                    if i < self.screens@.len() - 1 {
                        assert(self.screens@[i] == before[i]);
                    }
                }
            }
            Self::outcome(Some(call), refresh, None, false)
        } else {
            assert(self.screens@ =~= before);
            Self::outcome(None, false, Some(EngineError::Busy), false)
        }
    }
}


/// A cursor left by any sequence of events is a valid index into the active
/// screen's visible items, or 0 when there are none: `handle_event` keeps
/// `wf`, and `wf` pins every screen's cursor.
pub proof fn law_cursor_in_bounds(e: Engine)
    requires
        e.wf(),
        e.screens@.len() > 0,
    ensures
        e.screens@.last().visible().len() == 0 ==> e.screens@.last().cursor == 0,
        e.screens@.last().visible().len() > 0 ==> e.screens@.last().cursor < e.screens@.last().visible().len(),
{
    assert(screen_ok(e.screens@[e.screens@.len() - 1]));
}

/// Showing the selected reference and then quitting returns to exactly the
/// stack from before, and asks for the screen now on top to be refreshed.
pub proof fn law_show_then_quit(
    s0: Seq<Screen>,
    s1: Seq<Screen>,
    s2: Seq<Screen>,
    pend_show: Option<TransientOp>,
    pend_quit: Option<TransientOp>,
    o1: Outcome,
    o2: Outcome,
    reference: Vec<u8>,
    size: (u16, u16),
    editor: Option<Vec<u8>>,
)
    requires
        s0.len() > 0,
        selected(s0.last()) == Some(Actionable::Ref(reference)),
        op_done(s0, s1, pend_show, o1, Op::Target(TargetOp::ShowOrEdit), size, editor),
        op_done(s1, s2, pend_quit, o2, Op::Quit, size, editor),
    ensures
        s1.len() == s0.len() + 1,
        shows(s1.last().kind, reference@),
        s2 == s0,
        o2.refresh,
        !o2.exit,
{
}

/// A key bound to nothing in the current context runs nothing and leaves
/// the stack and the open submenu as they were, but for the dismissal of a
/// finished command's output that every key press does.
pub proof fn law_unknown_key(
    old_s: Seq<Screen>,
    old_p: Option<TransientOp>,
    new_s: Seq<Screen>,
    new_p: Option<TransientOp>,
    o: Outcome,
    k: KeyChord,
    size: (u16, u16),
    editor: Option<Vec<u8>>,
)
    requires
        dispatch(old_p, k) == Dispatch::Nothing,
        key_done(old_s, old_p, new_s, new_p, o, k, size, editor),
    ensures
        quiet(o),
        new_p == old_p,
        new_s == old_s.drop_last().push(dismissed(old_s.last())),
{
}

/// Issuing a background command while the last one still runs is refused:
/// the stack, and so that command's output, is left as it was.
pub proof fn law_single_command(
    old_s: Seq<Screen>,
    new_s: Seq<Screen>,
    o: Outcome,
    program: Seq<u8>,
    args: Seq<Seq<u8>>,
    input: Seq<u8>,
    refresh: bool,
)
    requires
        busy(old_s.last().command),
        issued(old_s, new_s, o, program, args, input, refresh),
    ensures
        new_s == old_s,
        o.run is None,
        o.error == Some(EngineError::Busy),
{
}

} // verus!
