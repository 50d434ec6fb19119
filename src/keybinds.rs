use vstd::prelude::*;

verus! {

/// A key as the dispatcher sees it.
#[derive(Clone, Copy, Debug, PartialEq, Eq, Structural)]
pub enum KeyCode {
    Char(char),
    Tab,
    Enter,
    Esc,
    Up,
    Down,
    Other,
}

/// A key together with the state of the control modifier.
#[derive(Clone, Copy, Debug, PartialEq, Eq, Structural)]
pub struct KeyChord {
    pub code: KeyCode,
    pub ctrl: bool,
}

/// The submenus that a prefix key opens.
#[derive(Clone, Copy, Debug, PartialEq, Eq, Structural)]
pub enum TransientOp {
    Fetch,
    Pull,
    Push,
    Commit,
    Log,
}

/// Operations that act on the selected item.
#[derive(Clone, Copy, Debug, PartialEq, Eq, Structural)]
pub enum TargetOp {
    ShowOrEdit,
    Stage,
    Unstage,
}

/// The logical operations that keys are bound to.
#[derive(Clone, Copy, Debug, PartialEq, Eq, Structural)]
pub enum Op {
    Quit,
    Refresh,
    ToggleSection,
    SelectPrevious,
    SelectNext,
    HalfPageUp,
    HalfPageDown,
    Log,
    Fetch,
    Commit,
    Push,
    Pull,
    Target(TargetOp),
    Transient(TransientOp),
}

/// What a key press resolves to in a given menu context.
#[derive(Clone, Copy, Debug, PartialEq, Eq, Structural)]
pub enum Dispatch {
    /// Run an operation (which may itself open a submenu).
    Run(Op),
    /// Close the open submenu.
    Cancel,
    /// The key is bound to nothing here.
    Nothing,
}

pub open spec fn plain(k: KeyChord, c: char) -> bool {
    k.code == KeyCode::Char(c) && !k.ctrl
}

/// The binds that are active while no submenu is open.
pub open spec fn global_bind(k: KeyChord) -> Option<Op> {
    if plain(k, 'q') {
        Some(Op::Quit)
    } else if plain(k, 'g') {
        Some(Op::Refresh)
    } else if k.code == KeyCode::Tab && !k.ctrl {
        Some(Op::ToggleSection)
    } else if plain(k, 'k') || (k.code == KeyCode::Up && !k.ctrl) {
        Some(Op::SelectPrevious)
    } else if plain(k, 'j') || (k.code == KeyCode::Down && !k.ctrl) {
        Some(Op::SelectNext)
    } else if k.code == KeyCode::Char('u') && k.ctrl {
        Some(Op::HalfPageUp)
    } else if k.code == KeyCode::Char('d') && k.ctrl {
        Some(Op::HalfPageDown)
    } else if k.code == KeyCode::Enter && !k.ctrl {
        Some(Op::Target(TargetOp::ShowOrEdit))
    } else if plain(k, 's') {
        Some(Op::Target(TargetOp::Stage))
    } else if plain(k, 'u') {
        Some(Op::Target(TargetOp::Unstage))
    } else if plain(k, 'f') {
        Some(Op::Transient(TransientOp::Fetch))
    } else if plain(k, 'F') {
        Some(Op::Transient(TransientOp::Pull))
    } else if plain(k, 'P') {
        Some(Op::Transient(TransientOp::Push))
    } else if plain(k, 'c') {
        Some(Op::Transient(TransientOp::Commit))
    } else if plain(k, 'l') {
        Some(Op::Transient(TransientOp::Log))
    } else {
        None
    }
}

/// The binds of one submenu.
pub open spec fn transient_bind(t: TransientOp, k: KeyChord) -> Option<Op> {
    match t {
        TransientOp::Fetch => if plain(k, 'a') { Some(Op::Fetch) } else { None },
        TransientOp::Pull => if plain(k, 'p') { Some(Op::Pull) } else { None },
        TransientOp::Push => if plain(k, 'p') { Some(Op::Push) } else { None },
        TransientOp::Commit => if plain(k, 'c') { Some(Op::Commit) } else { None },
        TransientOp::Log => if plain(k, 'l') { Some(Op::Log) } else { None },
    }
}

pub open spec fn is_cancel(k: KeyChord) -> bool {
    k.code == KeyCode::Esc && !k.ctrl
}

/// Resolution: with a submenu open only its binds and the cancel key count,
/// otherwise only the global binds.
pub open spec fn dispatch(pending: Option<TransientOp>, k: KeyChord) -> Dispatch {
    match pending {
        Some(t) => match transient_bind(t, k) {
            Some(op) => Dispatch::Run(op),
            None => if is_cancel(k) { Dispatch::Cancel } else { Dispatch::Nothing },
        },
        None => match global_bind(k) {
            Some(op) => Dispatch::Run(op),
            None => Dispatch::Nothing,
        },
    }
}

fn is_plain(k: KeyChord, c: char) -> (r: bool)
    ensures
        r == plain(k, c),
{
    !k.ctrl && match k.code {
        KeyCode::Char(x) => x == c,
        _ => false,
    }
}

fn is_code(k: KeyChord, code: KeyCode, ctrl: bool) -> (r: bool)
    ensures
        r == (k.code == code && k.ctrl == ctrl),
{
    k.ctrl == ctrl && match (k.code, code) {
        (KeyCode::Char(a), KeyCode::Char(b)) => a == b,
        (KeyCode::Tab, KeyCode::Tab) => true,
        (KeyCode::Enter, KeyCode::Enter) => true,
        (KeyCode::Esc, KeyCode::Esc) => true,
        (KeyCode::Up, KeyCode::Up) => true,
        (KeyCode::Down, KeyCode::Down) => true,
        (KeyCode::Other, KeyCode::Other) => true,
        _ => false,
    }
}

/// Looks a key up among the global binds.
pub fn global_op(k: KeyChord) -> (r: Option<Op>)
    ensures
        r == global_bind(k),
{
    if is_plain(k, 'q') {
        Some(Op::Quit)
    } else if is_plain(k, 'g') {
        Some(Op::Refresh)
    } else if is_code(k, KeyCode::Tab, false) {
        Some(Op::ToggleSection)
    } else if is_plain(k, 'k') || is_code(k, KeyCode::Up, false) {
        Some(Op::SelectPrevious)
    } else if is_plain(k, 'j') || is_code(k, KeyCode::Down, false) {
        Some(Op::SelectNext)
    } else if is_code(k, KeyCode::Char('u'), true) {
        Some(Op::HalfPageUp)
    } else if is_code(k, KeyCode::Char('d'), true) {
        Some(Op::HalfPageDown)
    } else if is_code(k, KeyCode::Enter, false) {
        Some(Op::Target(TargetOp::ShowOrEdit))
    } else if is_plain(k, 's') {
        Some(Op::Target(TargetOp::Stage))
    } else if is_plain(k, 'u') {
        Some(Op::Target(TargetOp::Unstage))
    } else if is_plain(k, 'f') {
        Some(Op::Transient(TransientOp::Fetch))
    } else if is_plain(k, 'F') {
        Some(Op::Transient(TransientOp::Pull))
    } else if is_plain(k, 'P') {
        Some(Op::Transient(TransientOp::Push))
    } else if is_plain(k, 'c') {
        Some(Op::Transient(TransientOp::Commit))
    } else if is_plain(k, 'l') {
        Some(Op::Transient(TransientOp::Log))
    } else {
        None
    }
}

/// The key, and the operation it runs, of each bind of a submenu.
pub fn list_transient_binds(t: TransientOp) -> (r: Vec<(KeyChord, Op)>)
    ensures
        r@.len() == 1,
        transient_bind(t, r@[0].0) == Some(r@[0].1),
        forall|k: KeyChord| #[trigger] transient_bind(t, k) is Some ==> k == r@[0].0,
{
    let (c, op) = match t {
        TransientOp::Fetch => ('a', Op::Fetch),
        TransientOp::Pull => ('p', Op::Pull),
        TransientOp::Push => ('p', Op::Push),
        TransientOp::Commit => ('c', Op::Commit),
        TransientOp::Log => ('l', Op::Log),
    };
    vec![(KeyChord { code: KeyCode::Char(c), ctrl: false }, op)]
}

/// Resolves a key press in the given menu context.
pub fn action_of_key(pending: Option<TransientOp>, k: KeyChord) -> (r: Dispatch)
    ensures
        r == dispatch(pending, k),
{
    match pending {
        Some(t) => {
            let bound = match t {
                TransientOp::Fetch => if is_plain(k, 'a') { Some(Op::Fetch) } else { None },
                TransientOp::Pull => if is_plain(k, 'p') { Some(Op::Pull) } else { None },
                TransientOp::Push => if is_plain(k, 'p') { Some(Op::Push) } else { None },
                TransientOp::Commit => if is_plain(k, 'c') { Some(Op::Commit) } else { None },
                TransientOp::Log => if is_plain(k, 'l') { Some(Op::Log) } else { None },
            };
            match bound {
                Some(op) => Dispatch::Run(op),
                None => if is_code(k, KeyCode::Esc, false) {
                    Dispatch::Cancel
                } else {
                    Dispatch::Nothing
                },
            }
        },
        None => match global_op(k) {
            Some(op) => Dispatch::Run(op),
            None => Dispatch::Nothing,
        },
    }
}

} // verus!
