use gitu_core::keybinds::{action_of_key, global_op, list_transient_binds, Dispatch, KeyChord, KeyCode, Op, TargetOp, TransientOp};

fn ch(c: char) -> KeyChord {
    KeyChord { code: KeyCode::Char(c), ctrl: false }
}

fn ctrl(c: char) -> KeyChord {
    KeyChord { code: KeyCode::Char(c), ctrl: true }
}

#[test]
fn global_binds_resolve() {
    assert_eq!(action_of_key(None, ch('q')), Dispatch::Run(Op::Quit));
    assert_eq!(action_of_key(None, ch('j')), Dispatch::Run(Op::SelectNext));
    assert_eq!(action_of_key(None, KeyChord { code: KeyCode::Up, ctrl: false }), Dispatch::Run(Op::SelectPrevious));
    assert_eq!(action_of_key(None, ctrl('d')), Dispatch::Run(Op::HalfPageDown));
    assert_eq!(action_of_key(None, ctrl('u')), Dispatch::Run(Op::HalfPageUp));
    assert_eq!(action_of_key(None, ch('s')), Dispatch::Run(Op::Target(TargetOp::Stage)));
    assert_eq!(action_of_key(None, ch('u')), Dispatch::Run(Op::Target(TargetOp::Unstage)));
    assert_eq!(
        action_of_key(None, KeyChord { code: KeyCode::Enter, ctrl: false }),
        Dispatch::Run(Op::Target(TargetOp::ShowOrEdit))
    );
    assert_eq!(action_of_key(None, ch('c')), Dispatch::Run(Op::Transient(TransientOp::Commit)));
}

#[test]
fn unknown_keys_resolve_to_nothing() {
    assert_eq!(action_of_key(None, ch('z')), Dispatch::Nothing);
    assert_eq!(action_of_key(None, ctrl('q')), Dispatch::Nothing);
    assert_eq!(action_of_key(None, KeyChord { code: KeyCode::Esc, ctrl: false }), Dispatch::Nothing);
    assert_eq!(global_op(KeyChord { code: KeyCode::Other, ctrl: false }), None);
}

#[test]
fn transient_menu_only_sees_its_binds() {
    let open = Some(TransientOp::Fetch);
    assert_eq!(action_of_key(open, ch('a')), Dispatch::Run(Op::Fetch));
    assert_eq!(action_of_key(open, ch('q')), Dispatch::Nothing);
    assert_eq!(action_of_key(open, KeyChord { code: KeyCode::Esc, ctrl: false }), Dispatch::Cancel);
    assert_eq!(action_of_key(Some(TransientOp::Pull), ch('p')), Dispatch::Run(Op::Pull));
    assert_eq!(action_of_key(Some(TransientOp::Push), ch('p')), Dispatch::Run(Op::Push));
    assert_eq!(action_of_key(Some(TransientOp::Log), ch('l')), Dispatch::Run(Op::Log));
}

#[test]
fn transient_bind_listing() {
    let binds = list_transient_binds(TransientOp::Commit);
    assert_eq!(binds, vec![(ch('c'), Op::Commit)]);
}
