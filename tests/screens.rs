use gitu_core::items::{actionable_of, Actionable, Item};
use gitu_core::screen::{pin, Screen, ScreenKind, Section};

fn section(name: &str) -> Section {
    Section { name: name.as_bytes().to_vec(), collapsed: false }
}

fn header(name: &str, sec: usize) -> Item {
    Item { display: name.as_bytes().to_vec(), act: None, section: sec, header: true }
}

fn file(path: &str, sec: usize) -> Item {
    Item {
        display: path.as_bytes().to_vec(),
        act: Some(Actionable::Untracked(path.as_bytes().to_vec())),
        section: sec,
        header: false,
    }
}

fn status_screen() -> Screen {
    let mut s = Screen::new(ScreenKind::Status, (80, 10));
    let ok = s.refresh_items(
        vec![section("Untracked files"), section("Unstaged changes")],
        vec![header("Untracked files", 0), file("a", 0), file("b", 0), header("Unstaged changes", 1), file("c", 1)],
    );
    assert!(ok);
    s
}

#[test]
fn clamp_on_empty_list_gives_zero() {
    let mut s = Screen::new(ScreenKind::Status, (80, 24));
    s.cursor = 5;
    s.clamp_cursor();
    assert_eq!(s.cursor, 0);
    s.select_next();
    assert_eq!(s.cursor, 0);
    s.select_previous();
    assert_eq!(s.cursor, 0);
    assert_eq!(pin(3, 0), 0);
    assert_eq!(pin(3, 2), 1);
}

#[test]
fn navigation_stays_in_bounds() {
    let mut s = status_screen();
    assert_eq!(s.visible_count(), 5);
    s.select_previous();
    assert_eq!(s.cursor, 0);
    for _ in 0..10 {
        s.select_next();
    }
    assert_eq!(s.cursor, 4);
    s.scroll_half_page_up();
    assert_eq!(s.cursor, 0);
    s.scroll_half_page_down();
    assert_eq!(s.cursor, 4);
    s.cursor = 100;
    s.clamp_cursor();
    assert_eq!(s.cursor, 4);
}

#[test]
fn toggling_a_section_hides_its_items() {
    let mut s = status_screen();
    s.select_next();
    assert_eq!(s.selected_index(), Some(1));
    s.toggle_section();
    assert!(s.sections[0].collapsed);
    assert_eq!(s.visible_count(), 3);
    s.cursor = 2;
    assert_eq!(s.selected_index(), Some(4));
    match actionable_of(&s.items[4]) {
        Some(Actionable::Untracked(p)) => assert_eq!(p, &b"c".to_vec()),
        _ => panic!("expected an untracked file"),
    }
    s.cursor = 0;
    s.toggle_section();
    assert!(!s.sections[0].collapsed);
    assert_eq!(s.visible_count(), 5);
}

#[test]
fn collapse_survives_refresh_by_name() {
    let mut s = status_screen();
    s.toggle_section();
    assert!(s.sections[0].collapsed);
    let ok = s.refresh_items(
        vec![section("Staged changes"), section("Untracked files")],
        vec![header("Staged changes", 0), file("x", 0), header("Untracked files", 1), file("a", 1)],
    );
    assert!(ok);
    assert!(!s.sections[0].collapsed);
    assert!(s.sections[1].collapsed);
    assert_eq!(s.visible_count(), 3);
}

#[test]
fn refresh_shrinking_list_clamps_cursor() {
    let mut s = status_screen();
    s.cursor = 4;
    assert!(s.refresh_items(vec![section("Untracked files")], vec![header("Untracked files", 0)]));
    assert_eq!(s.cursor, 0);
}

#[test]
fn malformed_refresh_is_dropped() {
    let mut s = status_screen();
    let ok = s.refresh_items(vec![section("Untracked files")], vec![file("a", 3)]);
    assert!(!ok);
    assert_eq!(s.items.len(), 5);
    assert_eq!(s.sections.len(), 2);
}

#[test]
fn one_background_command_at_a_time() {
    let mut s = status_screen();
    assert!(s.issue_command(b"git push".to_vec()));
    s.record_output(&b"Everything ".to_vec());
    assert!(!s.issue_command(b"git pull".to_vec()));
    let c = s.command.as_ref().unwrap();
    assert_eq!(c.args, b"git push".to_vec());
    assert_eq!(c.output, b"Everything ".to_vec());
    s.record_output(&b"up-to-date".to_vec());
    assert!(s.record_exit());
    assert!(!s.record_exit());
    s.record_output(&b"late".to_vec());
    let c = s.command.as_ref().unwrap();
    assert!(c.finished);
    assert_eq!(c.output, b"Everything up-to-date".to_vec());
    s.clear_finished_command();
    assert!(s.command.is_some());
    s.acknowledge_finish();
    s.clear_finished_command();
    assert!(s.command.is_none());
}

#[test]
fn finished_command_can_be_replaced() {
    let mut s = status_screen();
    assert!(s.issue_command(b"git push".to_vec()));
    assert!(s.is_busy());
    s.record_exit();
    assert!(!s.is_busy());
    assert!(s.issue_command(b"git pull".to_vec()));
    assert_eq!(s.command.as_ref().unwrap().args, b"git pull".to_vec());
}
