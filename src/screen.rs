use vstd::prelude::*;
use crate::bytes::bytes_eq;
use crate::items::Item;

verus! {

/// Which collector fills a screen on refresh.
#[derive(Clone, Debug)]
pub enum ScreenKind {
    Status,
    Log(Vec<Vec<u8>>),
    Show(Vec<Vec<u8>>),
}

/// A named, collapsible run of items.
#[derive(Clone, Debug)]
pub struct Section {
    pub name: Vec<u8>,
    pub collapsed: bool,
}

/// A background command issued from a screen and its output so far.
#[derive(Clone, Debug)]
pub struct IssuedCommand {
    pub args: Vec<u8>,
    pub output: Vec<u8>,
    pub finished: bool,
    pub finish_acked: bool,
}

/// A navigable view: sections of items, a cursor into the visible items,
/// and at most one background command.
#[derive(Debug)]
pub struct Screen {
    pub kind: ScreenKind,
    pub size: (u16, u16),
    pub sections: Vec<Section>,
    pub items: Vec<Item>,
    pub cursor: usize,
    pub command: Option<IssuedCommand>,
}

pub open spec fn item_visible(it: Item, secs: Seq<Section>) -> bool {
    it.header || !(it.section < secs.len() && secs[it.section as int].collapsed)
}

/// The items that are shown, in order.
pub open spec fn visible_rows(items: Seq<Item>, secs: Seq<Section>) -> Seq<Item>
    decreases items.len(),
{
    if items.len() == 0 {
        Seq::empty()
    } else {
        visible_rows(items.drop_last(), secs) + if item_visible(items.last(), secs) {
            seq![items.last()]
        } else {
            Seq::empty()
        }
    }
}

/// The cursor position `c` pinned into a list of `n` rows.
pub open spec fn clamped(c: int, n: int) -> int {
    if n <= 0 {
        0
    } else if c < 0 {
        0
    } else if c > n - 1 {
        n - 1
    } else {
        c
    }
}

/// The collapse flag that a section named `name` takes on refresh: that of
/// the last earlier section of the same name, else `dflt`.
pub open spec fn carried_flag(prior: Seq<Section>, name: Seq<u8>, dflt: bool) -> bool
    decreases prior.len(),
{
    if prior.len() == 0 {
        dflt
    } else if prior.last().name@ == name {
        prior.last().collapsed
    } else {
        carried_flag(prior.drop_last(), name, dflt)
    }
}

/// Every item names a section among the first `n`.
pub open spec fn items_fit(items: Seq<Item>, n: nat) -> bool {
    forall|i: int| 0 <= i < items.len() ==> #[trigger] items[i].section < n
}

/// The screen after a key press: a finished command whose output was shown
/// is gone, all else stays.
pub open spec fn dismissed(s: Screen) -> Screen {
    if s.command matches Some(c) && c.finished && c.finish_acked {
        Screen { command: None, ..s }
    } else {
        s
    }
}

/// Whether a command is running and not yet seen to finish.
pub open spec fn busy(cmd: Option<IssuedCommand>) -> bool {
    cmd is Some && !cmd->Some_0.finished
}

pub proof fn lemma_visible_rows_append(a: Seq<Item>, b: Seq<Item>, secs: Seq<Section>)
    ensures
        visible_rows(a + b, secs) == visible_rows(a, secs) + visible_rows(b, secs),
    decreases b.len(),
{
    if b.len() == 0 {
        assert(a + b =~= a);
        assert(visible_rows(a, secs) + visible_rows(b, secs) =~= visible_rows(a, secs));
    } else {
        lemma_visible_rows_append(a, b.drop_last(), secs);
        assert((a + b).drop_last() =~= a + b.drop_last());
        assert((a + b).last() == b.last());
        assert(visible_rows(a + b, secs) =~= visible_rows(a, secs) + visible_rows(b, secs));
    }
}

impl Screen {
    pub open spec fn wf(&self) -> bool {
        forall|i: int| 0 <= i < self.items@.len() ==> #[trigger] self.items@[i].section < self.sections@.len()
    }

    pub open spec fn visible(&self) -> Seq<Item> {
        visible_rows(self.items@, self.sections@)
    }

    /// The cursor is a valid index into the visible items, or 0 when none is.
    pub open spec fn cursor_ok(&self) -> bool {
        self.cursor == clamped(self.cursor as int, self.visible().len() as int)
    }

    /// `new` is this screen with the cursor moved to `c`, pinned.
    pub open spec fn moved(&self, new: &Screen, c: int) -> bool {
        &&& new.same_but_cursor(self)
        &&& new.cursor == clamped(c, self.visible().len() as int)
    }

    /// `new` is this screen with the section of the selected item flipped
    /// (if an item is selected) and the cursor pinned.
    pub open spec fn toggled(&self, new: &Screen) -> bool {
        &&& new.wf()
        &&& new.kind == self.kind
        &&& new.size == self.size
        &&& new.items == self.items
        &&& new.command == self.command
        &&& self.cursor < self.visible().len() ==> {
            let sec = self.visible()[self.cursor as int].section as int;
            new.sections@ == self.sections@.update(
                sec,
                Section { collapsed: !self.sections@[sec].collapsed, ..self.sections@[sec] },
            )
        }
        &&& self.cursor >= self.visible().len() ==> new.sections == self.sections
        &&& new.cursor == clamped(self.cursor as int, new.visible().len() as int)
    }

    /// The same screen but for the cursor.
    pub open spec fn same_but_cursor(&self, other: &Screen) -> bool {
        &&& self.kind == other.kind
        &&& self.size == other.size
        &&& self.sections == other.sections
        &&& self.items == other.items
        &&& self.command == other.command
    }

    /// An empty screen of the given kind; the caller fills it by a refresh.
    pub fn new(kind: ScreenKind, size: (u16, u16)) -> (r: Screen)
        ensures
            r.wf(),
            r.kind == kind,
            r.size == size,
            r.sections@.len() == 0,
            r.items@.len() == 0,
            r.cursor == 0,
            r.command is None,
    {
        Screen { kind, size, sections: Vec::new(), items: Vec::new(), cursor: 0, command: None }
    }

    /// The number of visible items.
    pub fn visible_count(&self) -> (r: usize)
        ensures
            r == self.visible().len(),
    {
        let mut n: usize = 0;
        let mut i: usize = 0;
        while i < self.items.len()
            invariant
                i <= self.items@.len(),
                n == visible_rows(self.items@.subrange(0, i as int), self.sections@).len(),
                n <= i,
            decreases self.items@.len() - i,
        {
            let ghost s = self.items@.subrange(0, i as int + 1);
            assert(s.drop_last() =~= self.items@.subrange(0, i as int));
            if self.row_visible(i) {
                n = n + 1;
            }
            i = i + 1;
        }
        assert(self.items@.subrange(0, self.items@.len() as int) =~= self.items@);
        n
    }

    fn row_visible(&self, i: usize) -> (r: bool)
        requires
            i < self.items@.len(),
        ensures
            r == item_visible(self.items@[i as int], self.sections@),
    {
        let it = &self.items[i];
        if it.header {
            true
        } else if it.section < self.sections.len() {
            !self.sections[it.section].collapsed
        } else {
            true
        }
    }

    /// The index in `items` of the item under the cursor, if the cursor is on one.
    pub fn selected_index(&self) -> (r: Option<usize>)
        ensures
            r is Some <==> self.cursor < self.visible().len(),
            r matches Some(i) ==> i < self.items@.len() && self.items@[i as int] == self.visible()[self.cursor as int],
    {
        let mut n: usize = 0;
        let mut i: usize = 0;
        while i < self.items.len()
            invariant
                i <= self.items@.len(),
                n == visible_rows(self.items@.subrange(0, i as int), self.sections@).len(),
                n <= self.cursor,
            decreases self.items@.len() - i,
        {
            let ghost pre = self.items@.subrange(0, i as int);
            let ghost s = self.items@.subrange(0, i as int + 1);
            assert(s.drop_last() =~= pre);
            if self.row_visible(i) {
                if n == self.cursor {
                    proof {
                        let rest = self.items@.subrange(i as int + 1, self.items@.len() as int);
                        assert(self.items@ =~= s + rest);
                        lemma_visible_rows_append(s, rest, self.sections@);
                        assert(visible_rows(s, self.sections@) == visible_rows(pre, self.sections@).push(self.items@[i as int]));
                    }
                    return Some(i);
                }
                n = n + 1;
            }
            i = i + 1;
        }
        assert(self.items@.subrange(0, self.items@.len() as int) =~= self.items@);
        None
    }

    /// Pins the cursor into the visible items.
    pub fn clamp_cursor(&mut self)
        ensures
            old(self).moved(&*final(self), old(self).cursor as int),
    {
        let n = self.visible_count();
        self.cursor = pin(self.cursor, n);
    }

    pub fn select_next(&mut self)
        ensures
            old(self).moved(&*final(self), old(self).cursor + 1),
    {
        let n = self.visible_count();
        let c = if self.cursor < n { self.cursor + 1 } else { self.cursor };
        self.cursor = pin(c, n);
    }

    pub fn select_previous(&mut self)
        ensures
            old(self).moved(&*final(self), old(self).cursor - 1),
    {
        let n = self.visible_count();
        let c = if self.cursor > 0 { self.cursor - 1 } else { 0 };
        self.cursor = pin(c, n);
    }

    /// Half of the screen's height, in rows.
    pub open spec fn half_page(&self) -> int {
        self.size.1 as int / 2
    }

    pub fn scroll_half_page_down(&mut self)
        ensures
            old(self).moved(&*final(self), old(self).cursor + old(self).half_page()),
    {
        let n = self.visible_count();
        let half = (self.size.1 / 2) as usize;
        let c = if self.cursor < n { if n - self.cursor > half { self.cursor + half } else { n } } else { self.cursor };
        self.cursor = pin(c, n);
    }

    pub fn scroll_half_page_up(&mut self)
        ensures
            old(self).moved(&*final(self), old(self).cursor - old(self).half_page()),
    {
        let n = self.visible_count();
        let half = (self.size.1 / 2) as usize;
        let c = if self.cursor > half { self.cursor - half } else { 0 };
        self.cursor = pin(c, n);
    }

    /// Flips the collapse flag of the section of the selected item, then
    /// pins the cursor.
    pub fn toggle_section(&mut self)
        requires
            old(self).wf(),
        ensures
            old(self).toggled(&*final(self)),
    {
        if let Some(i) = self.selected_index() {
            let s = self.items[i].section;
            let flag = !self.sections[s].collapsed;
            let mut sec = self.sections.remove(s);
            sec.collapsed = flag;
            self.sections.insert(s, sec);
            assert(self.sections@ =~= old(self).sections@.update(
                s as int,
                Section { collapsed: !old(self).sections@[s as int].collapsed, ..old(self).sections@[s as int] },
            ));
        }
        assert(self.wf());
        let ghost mid = *self;
        self.clamp_cursor();
        assert(final(self).sections == mid.sections);
    }

    /// Replaces all sections and items with freshly collected ones, keeping
    /// the collapse flag of each section whose name was already there, then
    /// pins the cursor. Items that name a missing section make the whole
    /// batch malformed: it is dropped and the screen left as it was.
    pub fn refresh_items(&mut self, sections: Vec<Section>, items: Vec<Item>) -> (r: bool)
        requires
            old(self).wf(),
        ensures
            final(self).wf(),
            r == items_fit(items@, sections@.len()),
            !r ==> *final(self) == *old(self),
            r ==> final(self).items@ == items@,
            r ==> final(self).sections@.len() == sections@.len(),
            r ==> forall|j: int| 0 <= j < sections@.len() ==> (#[trigger] final(self).sections@[j]).name
                == sections@[j].name && final(self).sections@[j].collapsed == carried_flag(
                old(self).sections@,
                sections@[j].name@,
                sections@[j].collapsed,
            ),
            r ==> final(self).cursor == clamped(old(self).cursor as int, final(self).visible().len() as int),
            final(self).kind == old(self).kind,
            final(self).size == old(self).size,
            final(self).command == old(self).command,
    {
        let mut i: usize = 0;
        while i < items.len()
            invariant
                i <= items@.len(),
                self.wf(),
                *self == *old(self),
                forall|j: int| 0 <= j < i ==> #[trigger] items@[j].section < sections@.len(),
            decreases items@.len() - i,
        {
            if items[i].section >= sections.len() {
                return false;
            }
            i = i + 1;
        }
        let mut fresh = sections;
        let ghost given = fresh@;
        let mut j: usize = 0;
        while j < fresh.len()
            invariant
                fresh@.len() == given.len(),
                j <= fresh@.len(),
                forall|k: int| 0 <= k < given.len() ==> (#[trigger] fresh@[k]).name == given[k].name,
                forall|k: int| 0 <= k < j ==> (#[trigger] fresh@[k]).collapsed == carried_flag(
                    self.sections@, given[k].name@, given[k].collapsed),
                forall|k: int| j <= k < given.len() ==> (#[trigger] fresh@[k]).collapsed == given[k].collapsed,
            decreases given.len() - j,
        {
            let flag = self.carried(&fresh[j].name, fresh[j].collapsed);
            let mut sec = fresh.remove(j);
            sec.collapsed = flag;
            fresh.insert(j, sec);
            j = j + 1;
        }
        self.sections = fresh;
        self.items = items;
        self.clamp_cursor();
        true
    }

    fn carried(&self, name: &Vec<u8>, dflt: bool) -> (r: bool)
        ensures
            r == carried_flag(self.sections@, name@, dflt),
    {
        let mut k: usize = self.sections.len();
        assert(self.sections@.subrange(0, k as int) =~= self.sections@);
        while k > 0
            invariant
                k <= self.sections@.len(),
                carried_flag(self.sections@, name@, dflt) == carried_flag(
                    self.sections@.subrange(0, k as int), name@, dflt),
            decreases k,
        {
            let ghost s = self.sections@.subrange(0, k as int);
            assert(s.drop_last() =~= self.sections@.subrange(0, k as int - 1));
            if bytes_eq(&self.sections[k - 1].name, name) {
                return self.sections[k - 1].collapsed;
            }
            k = k - 1;
        }
        assert(self.sections@.subrange(0, 0) =~= Seq::<Section>::empty());
        dflt
    }

    /// Whether a command issued here is still running.
    pub fn is_busy(&self) -> (r: bool)
        ensures
            r == busy(self.command),
    {
        match &self.command {
            Some(c) => !c.finished,
            None => false,
        }
    }

    /// Records a new background command, shown as `args`. Refused, with the
    /// screen left as it was, while an earlier one is still running.
    pub fn issue_command(&mut self, args: Vec<u8>) -> (r: bool)
        ensures
            r == !busy(old(self).command),
            r ==> (final(self).command matches Some(c) && c.args == args && c.output@.len() == 0
                && !c.finished && !c.finish_acked),
            !r ==> final(self).command == old(self).command,
            final(self).kind == old(self).kind,
            final(self).size == old(self).size,
            final(self).sections == old(self).sections,
            final(self).items == old(self).items,
            final(self).cursor == old(self).cursor,
    {
        if self.is_busy() {
            return false;
        }
        self.command = Some(IssuedCommand { args, output: Vec::new(), finished: false, finish_acked: false });
        true
    }

    /// Appends output of the running command. Output of a finished command,
    /// or with no command, is dropped.
    pub fn record_output(&mut self, chunk: &Vec<u8>)
        ensures
            busy(old(self).command) ==> final(self).command == Some(
                IssuedCommand { output: final(self).command->Some_0.output, ..old(self).command->Some_0 },
            ) && final(self).command->Some_0.output@ == old(self).command->Some_0.output@ + chunk@,
            !busy(old(self).command) ==> final(self).command == old(self).command,
            final(self).kind == old(self).kind,
            final(self).size == old(self).size,
            final(self).sections == old(self).sections,
            final(self).items == old(self).items,
            final(self).cursor == old(self).cursor,
    {
        if let Some(c) = &mut self.command {
            if !c.finished {
                crate::bytes::append(&mut c.output, chunk);
            }
        }
    }

    /// Records that the running command has exited. Returns whether this
    /// call observed the exit (it does so once per command).
    pub fn record_exit(&mut self) -> (r: bool)
        ensures
            r == busy(old(self).command),
            r ==> final(self).command == Some(IssuedCommand { finished: true, ..old(self).command->Some_0 }),
            !r ==> final(self).command == old(self).command,
            final(self).kind == old(self).kind,
            final(self).size == old(self).size,
            final(self).sections == old(self).sections,
            final(self).items == old(self).items,
            final(self).cursor == old(self).cursor,
    {
        if let Some(c) = &mut self.command {
            if !c.finished {
                c.finished = true;
                return true;
            }
        }
        false
    }

    /// Marks a finished command's output as shown once.
    pub fn acknowledge_finish(&mut self)
        ensures
            (old(self).command matches Some(c) && c.finished) ==> final(self).command == Some(
                IssuedCommand { finish_acked: true, ..old(self).command->Some_0 },
            ),
            !(old(self).command matches Some(c) && c.finished) ==> final(self).command == old(self).command,
            final(self).kind == old(self).kind,
            final(self).size == old(self).size,
            final(self).sections == old(self).sections,
            final(self).items == old(self).items,
            final(self).cursor == old(self).cursor,
    {
        if let Some(c) = &mut self.command {
            if c.finished {
                c.finish_acked = true;
            }
        }
    }

    /// On a key press: dismisses a finished command whose output was shown.
    pub fn clear_finished_command(&mut self)
        ensures
            *final(self) == dismissed(*old(self)),
    {
        let done = match &self.command {
            Some(c) => c.finished && c.finish_acked,
            None => false,
        };
        if done {
            self.command = None;
        }
    }
}

/// `c` pinned into `[0, n - 1]`, or 0 when `n` is 0.
pub fn pin(c: usize, n: usize) -> (r: usize)
    ensures
        r == clamped(c as int, n as int),
{
    if n == 0 {
        0
    } else if c > n - 1 {
        n - 1
    } else {
        c
    }
}

} // verus!
