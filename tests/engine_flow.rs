use gitu_core::diff::{Delta, DeltaStatus, DiffLine, Hunk, Origin};
use gitu_core::engine::{Engine, EngineError, Event, Outcome};
use gitu_core::items::{Actionable, Item};
use gitu_core::keybinds::{KeyChord, KeyCode, Op};
use gitu_core::process::{editor_cmd, EditorError, Mode, ProcessCall};
use gitu_core::screen::{ScreenKind, Section};

fn key(c: char) -> Event {
    Event::Key(KeyChord { code: KeyCode::Char(c), ctrl: false })
}

fn enter() -> Event {
    Event::Key(KeyChord { code: KeyCode::Enter, ctrl: false })
}

fn text(v: &[u8]) -> String {
    String::from_utf8(v.to_vec()).unwrap()
}

fn args(c: &ProcessCall) -> Vec<String> {
    c.args.iter().map(|a| text(a)).collect()
}

fn hunk() -> Hunk {
    Hunk {
        old_file: b"a.txt".to_vec(),
        new_file: b"a.txt".to_vec(),
        old_start: 9,
        old_count: 0,
        new_start: 10,
        new_count: 2,
        lines: vec![
            DiffLine { origin: Origin::Addition, text: b"x".to_vec() },
            DiffLine { origin: Origin::Addition, text: b"y".to_vec() },
        ],
    }
}

fn item(act: Option<Actionable>, section: usize, header: bool) -> Item {
    Item { display: b"line".to_vec(), act, section, header }
}

fn section(name: &str) -> Section {
    Section { name: name.as_bytes().to_vec(), collapsed: false }
}

/// A status screen whose second row carries `act`.
fn engine_with(act: Actionable) -> Engine {
    let mut e = Engine::new(ScreenKind::Status, (80, 24));
    assert!(e.refresh_top(vec![section("Unstaged changes")], vec![item(None, 0, true), item(Some(act), 0, false)]));
    let o = e.handle_event(key('j'), (80, 24), &None);
    assert!(quiet(&o));
    assert_eq!(e.screens.last().unwrap().cursor, 1);
    e
}

fn quiet(o: &Outcome) -> bool {
    o.run.is_none() && !o.refresh && o.error.is_none() && !o.exit
}

#[test]
fn staging_a_hunk_sends_its_patch() {
    let mut e = engine_with(Actionable::Hunk(hunk()));
    let o = e.handle_event(key('s'), (80, 24), &None);
    let call = o.run.expect("a command");
    assert_eq!(text(&call.program), "git");
    assert_eq!(args(&call), vec!["apply", "--cached"]);
    assert_eq!(call.mode, Mode::Background);
    assert!(text(&call.input).starts_with("--- a/a.txt\n+++ b/a.txt\n@@ -9,0 +10,2 @@\n"));
    assert!(o.refresh);
    let top = e.screens.last().unwrap();
    assert_eq!(text(&top.command.as_ref().unwrap().args), "git apply --cached");

    // the refresh after success lists the hunk under the staged section only
    assert!(e.refresh_top(
        vec![section("Staged changes")],
        vec![item(None, 0, true), item(Some(Actionable::Hunk(hunk())), 0, false)],
    ));
    let top = e.screens.last().unwrap();
    assert_eq!(top.sections.len(), 1);
    assert_eq!(text(&top.sections[0].name), "Staged changes");
    assert!(matches!(top.items[1].act, Some(Actionable::Hunk(_))));
}

#[test]
fn unstaging_a_hunk_reverses_the_same_patch() {
    let mut e = engine_with(Actionable::Hunk(hunk()));
    let o = e.handle_event(key('u'), (80, 24), &None);
    let call = o.run.expect("a command");
    assert_eq!(args(&call), vec!["apply", "--cached", "--reverse"]);
    assert_eq!(call.input, hunk().format_patch());
}

#[test]
fn staging_and_unstaging_files() {
    let mut e = engine_with(Actionable::Untracked(b"new.txt".to_vec()));
    let o = e.handle_event(key('s'), (80, 24), &None);
    assert_eq!(args(&o.run.unwrap()), vec!["add", "new.txt"]);

    let delta = Delta { old_file: b"m.rs".to_vec(), new_file: b"m.rs".to_vec(), status: DeltaStatus::Modified, hunks: vec![] };
    let mut e = engine_with(Actionable::Delta(delta));
    let o = e.handle_event(key('u'), (80, 24), &None);
    assert_eq!(args(&o.run.unwrap()), vec!["restore", "--staged", "m.rs"]);
}

#[test]
fn unsupported_pairs_do_nothing() {
    let mut e = engine_with(Actionable::Untracked(b"new.txt".to_vec()));
    let o = e.handle_event(key('u'), (80, 24), &None);
    assert!(quiet(&o));
    assert!(e.screens.last().unwrap().command.is_none());

    let mut e = engine_with(Actionable::Ref(b"main".to_vec()));
    let o = e.handle_event(key('s'), (80, 24), &None);
    assert!(quiet(&o));
}

#[test]
fn second_command_while_busy_is_refused() {
    let mut e = engine_with(Actionable::Hunk(hunk()));
    e.handle_event(key('s'), (80, 24), &None);
    e.record_output(&b"partial".to_vec());
    let o = e.handle_event(key('s'), (80, 24), &None);
    assert!(o.run.is_none());
    assert_eq!(o.error, Some(EngineError::Busy));
    let c = e.screens.last().unwrap().command.as_ref().unwrap();
    assert_eq!(c.output, b"partial".to_vec());
    assert!(e.record_exit());
    assert!(!e.record_exit());
}

#[test]
fn commit_hands_over_the_terminal() {
    let mut e = engine_with(Actionable::Hunk(hunk()));
    let o = e.handle_event(key('c'), (80, 24), &None);
    assert!(quiet(&o));
    assert!(e.pending.is_some());
    let o = e.handle_event(key('c'), (80, 24), &None);
    assert!(e.pending.is_none());
    let call = o.run.expect("a command");
    assert_eq!(call.mode, Mode::Foreground);
    assert_eq!(args(&call), vec!["commit"]);
    assert!(o.refresh);
    assert!(e.screens.last().unwrap().command.is_none());
}

#[test]
fn edit_without_editor_is_an_error() {
    let mut e = engine_with(Actionable::Untracked(b"new.txt".to_vec()));
    let o = e.handle_event(enter(), (80, 24), &None);
    assert!(o.run.is_none());
    assert!(!o.refresh);
    assert_eq!(o.error, Some(EngineError::EditorNotSet));
}

#[test]
fn edit_opens_hunk_line() {
    let mut e = engine_with(Actionable::Hunk(hunk()));
    let o = e.handle_event(enter(), (80, 24), &Some(b"vim".to_vec()));
    let call = o.run.unwrap();
    assert_eq!(text(&call.program), "vim");
    assert_eq!(args(&call), vec!["+10", "a.txt"]);
    assert_eq!(call.mode, Mode::Foreground);

    let c = editor_cmd(&Some(b"code".to_vec()), &b"a.txt".to_vec(), Some(10)).unwrap();
    assert_eq!(args(&c), vec!["a.txt:10"]);
    let c = editor_cmd(&Some(b"nano".to_vec()), &b"a.txt".to_vec(), None).unwrap();
    assert_eq!(args(&c), vec!["a.txt"]);
    assert_eq!(editor_cmd(&None, &b"a.txt".to_vec(), Some(1)).err(), Some(EditorError::EditorNotSet));
}

#[test]
fn show_then_quit_returns_to_previous_screen() {
    let mut e = engine_with(Actionable::Ref(b"main".to_vec()));
    let o = e.handle_event(enter(), (100, 30), &None);
    assert!(o.refresh && o.run.is_none());
    assert_eq!(e.screens.len(), 2);
    match &e.screens[1].kind {
        ScreenKind::Show(a) => assert_eq!(a, &vec![b"main".to_vec()]),
        _ => panic!("expected a show screen"),
    }
    assert_eq!(e.screens[1].size, (100, 30));
    let o = e.handle_event(key('q'), (100, 30), &None);
    assert!(o.refresh);
    assert!(!o.exit);
    assert_eq!(e.screens.len(), 1);
    assert_eq!(e.screens[0].cursor, 1);
    let o = e.handle_event(key('q'), (100, 30), &None);
    assert!(o.exit);
    assert!(!e.is_running());
}

#[test]
fn log_keeps_only_the_root() {
    let mut e = engine_with(Actionable::Ref(b"main".to_vec()));
    e.handle_event(enter(), (80, 24), &None);
    e.handle_event(key('l'), (80, 24), &None);
    let o = e.handle_event(key('l'), (80, 24), &None);
    assert!(o.refresh);
    assert_eq!(e.screens.len(), 2);
    assert!(matches!(e.screens[0].kind, ScreenKind::Status));
    assert!(matches!(&e.screens[1].kind, ScreenKind::Log(a) if a.is_empty()));
}

#[test]
fn fetch_push_pull_commands() {
    let mut e = Engine::new(ScreenKind::Status, (80, 24));
    let o = e.apply_op(Op::Fetch, (80, 24), &None);
    assert_eq!(args(&o.run.unwrap()), vec!["fetch", "--all"]);
    assert!(o.refresh);
    e.record_exit();
    let o = e.apply_op(Op::Push, (80, 24), &None);
    assert_eq!(args(&o.run.unwrap()), vec!["push"]);
    assert!(!o.refresh);
    e.record_exit();
    let o = e.apply_op(Op::Pull, (80, 24), &None);
    assert_eq!(args(&o.run.unwrap()), vec!["pull"]);
}

#[test]
fn unknown_key_changes_nothing() {
    let mut e = engine_with(Actionable::Ref(b"main".to_vec()));
    let o = e.handle_event(key('z'), (80, 24), &None);
    assert!(quiet(&o));
    assert_eq!(e.screens.len(), 1);
    assert_eq!(e.screens[0].cursor, 1);
    assert!(e.pending.is_none());
}

#[test]
fn cancel_closes_the_menu() {
    let mut e = Engine::new(ScreenKind::Status, (80, 24));
    e.handle_event(key('f'), (80, 24), &None);
    assert!(e.pending.is_some());
    let o = e.handle_event(key('z'), (80, 24), &None);
    assert!(quiet(&o) && e.pending.is_some());
    e.handle_event(Event::Key(KeyChord { code: KeyCode::Esc, ctrl: false }), (80, 24), &None);
    assert!(e.pending.is_none());
}

#[test]
fn key_press_dismisses_shown_output() {
    let mut e = Engine::new(ScreenKind::Status, (80, 24));
    e.apply_op(Op::Push, (80, 24), &None);
    e.record_exit();
    e.acknowledge_finish();
    e.handle_event(key('z'), (80, 24), &None);
    assert!(e.screens[0].command.is_none());
}

#[test]
fn resize_changes_size_only() {
    let mut e = engine_with(Actionable::Ref(b"main".to_vec()));
    let o = e.handle_event(Event::Resize(120, 40), (80, 24), &None);
    assert!(quiet(&o));
    assert_eq!(e.screens[0].size, (120, 40));
    assert_eq!(e.screens[0].cursor, 1);
    let o = e.handle_event(Event::Other, (80, 24), &None);
    assert!(quiet(&o));
}
