use noisimation::render::{session_transcript, Action, Event, Phase, RenderSession, TerminalOp};

#[test]
fn empty_sequence_only_reserves() {
    let ops = session_transcript(40, &Vec::new());
    assert_eq!(ops, vec![TerminalOp::ScrollDown(40)]);
}

#[test]
fn single_frame_is_drawn_without_rewind() {
    let ops = session_transcript(24, &vec![17]);
    assert_eq!(ops, vec![TerminalOp::ScrollDown(24), TerminalOp::Draw(0)]);
}

#[test]
fn frames_rewind_by_preceding_printed_height() {
    let ops = session_transcript(50, &vec![12, 9, 30]);
    assert_eq!(
        ops,
        vec![
            TerminalOp::ScrollDown(50),
            TerminalOp::Draw(0),
            TerminalOp::MoveUp(12),
            TerminalOp::Draw(1),
            TerminalOp::MoveUp(9),
            TerminalOp::Draw(2),
        ]
    );
    let draws = ops.iter().filter(|op| matches!(op, TerminalOp::Draw(_))).count();
    let rewinds = ops.iter().filter(|op| matches!(op, TerminalOp::MoveUp(_))).count();
    assert_eq!((draws, rewinds), (3, 2));
}

#[test]
fn rewind_is_by_the_full_printed_height() {
    let ops = session_transcript(1, &vec![u16::MAX, 5]);
    assert_eq!(ops[2], TerminalOp::MoveUp(u16::MAX));
    let mut session = RenderSession::new();
    session.step(Event::Started { rows: 10 });
    assert_eq!(
        session.step(Event::Drawn { printed_height: 40000, more: true }),
        Some(Action::MoveUp(40000))
    );
}

#[test]
fn session_steps_through_phases() {
    let mut session = RenderSession::new();
    assert_eq!(session.phase, Phase::Idle);
    assert_eq!(session.step(Event::Drawn { printed_height: 4, more: true }), None);
    assert_eq!(session.phase, Phase::Idle);
    assert_eq!(session.step(Event::Started { rows: 30 }), Some(Action::ScrollDown(30)));
    assert_eq!(session.phase, Phase::Drawing);
    assert_eq!(session.viewport_rows, 30);
    assert_eq!(session.step(Event::Started { rows: 31 }), None);
    assert_eq!(session.viewport_rows, 30);
    assert_eq!(
        session.step(Event::Drawn { printed_height: 8, more: true }),
        Some(Action::MoveUp(8))
    );
    assert_eq!(session.last_printed_height, 8);
    assert_eq!(session.step(Event::Drawn { printed_height: 6, more: false }), None);
    assert_eq!(session.phase, Phase::Finished);
    assert_eq!(session.last_printed_height, 6);
    assert_eq!(session.step(Event::Drawn { printed_height: 2, more: true }), None);
}
