//! The frame protocol that shows a sequence of rasters in one terminal region:
//! reserve the viewport once, then draw each frame and move the cursor back up
//! over it whenever another frame follows.
use vstd::prelude::*;

verus! {

/// Where a render session stands.
#[derive(Clone, Copy, PartialEq, Eq, Debug, Structural)]
pub enum Phase {
    /// Nothing has been done yet.
    Idle,
    /// The viewport is reserved; frames are being drawn.
    Drawing,
    /// The last frame has been drawn; the cursor stays below it.
    Finished,
}

/// What the terminal side reports to the session.
#[derive(Clone, Copy, PartialEq, Eq, Debug, Structural)]
pub enum Event {
    /// The session begins on a viewport `rows` high.
    Started { rows: u16 },
    /// A frame was drawn and took `printed_height` rows; `more` tells whether
    /// another frame follows it.
    Drawn { printed_height: u16, more: bool },
}

/// A terminal command the session asks for.
#[derive(Clone, Copy, PartialEq, Eq, Debug, Structural)]
pub enum Action {
    /// Scroll the terminal down by this many rows.
    ScrollDown(u16),
    /// Move the cursor up by this many rows.
    MoveUp(u16),
}

/// One render session: the viewport height it reserved and the height of the
/// frame it saw drawn last.
#[derive(Clone, Copy, PartialEq, Eq, Debug, Structural)]
pub struct RenderSession {
    pub phase: Phase,
    pub viewport_rows: u16,
    pub last_printed_height: u16,
}

/// The session after `event`, and the command it asks for.
pub open spec fn next_state(s: RenderSession, event: Event) -> (RenderSession, Option<Action>) {
    match (s.phase, event) {
        (Phase::Idle, Event::Started { rows }) => (
            RenderSession { phase: Phase::Drawing, viewport_rows: rows, last_printed_height: 0 },
            Some(Action::ScrollDown(rows)),
        ),
        (Phase::Drawing, Event::Drawn { printed_height, more }) => if more {
            (
                RenderSession { last_printed_height: printed_height, ..s },
                Some(Action::MoveUp(printed_height)),
            )
        } else {
            (
                RenderSession { phase: Phase::Finished, last_printed_height: printed_height, ..s },
                None,
            )
        },
        _ => (s, None),
    }
}

impl RenderSession {
    /// A session that has not started.
    pub fn new() -> (r: RenderSession)
        ensures
            r.phase == Phase::Idle,
            r.viewport_rows == 0,
            r.last_printed_height == 0,
    {
        RenderSession { phase: Phase::Idle, viewport_rows: 0, last_printed_height: 0 }
    }

    /// Takes in one event and returns the terminal command it calls for, if any.
    /// An event that does not fit the phase changes nothing.
    pub fn step(&mut self, event: Event) -> (r: Option<Action>)
        ensures
            (*final(self), r) == next_state(*old(self), event),
    {
        match (self.phase, event) {
            (Phase::Idle, Event::Started { rows }) => {
                self.phase = Phase::Drawing;
                self.viewport_rows = rows;
                self.last_printed_height = 0;
                Some(Action::ScrollDown(rows))
            },
            (Phase::Drawing, Event::Drawn { printed_height, more }) => {
                self.last_printed_height = printed_height;
                if more {
                    Some(Action::MoveUp(printed_height))
                } else {
                    self.phase = Phase::Finished;
                    None
                }
            },
            _ => None,
        }
    }
}

/// One terminal operation of a session, as it happens.
#[derive(Clone, Copy, PartialEq, Eq, Debug, Structural)]
pub enum TerminalOp {
    /// The viewport reservation: scroll down by this many rows.
    ScrollDown(u16),
    /// Frame number `i` (counting from zero) is drawn.
    Draw(usize),
    /// The cursor moves up by this many rows.
    MoveUp(u16),
}

/// What happens for frame `i` of a sequence whose draws took `printed` rows
/// each: it is drawn, then the cursor is rewound over it when a frame follows.
pub open spec fn frame_ops(printed: Seq<u16>, i: nat) -> Seq<TerminalOp> {
    if i + 1 < printed.len() {
        seq![TerminalOp::Draw(i as usize), TerminalOp::MoveUp(printed[i as int])]
    } else {
        seq![TerminalOp::Draw(i as usize)]
    }
}

/// The operations for the first `n` frames.
pub open spec fn frames_ops(printed: Seq<u16>, n: nat) -> Seq<TerminalOp>
    decreases n,
{
    if n == 0 {
        seq![]
    } else {
        frames_ops(printed, (n - 1) as nat) + frame_ops(printed, (n - 1) as nat)
    }
}

/// The whole session for a viewport `rows` high and frames whose draws took
/// `printed` rows each.
pub open spec fn session_ops(rows: u16, printed: Seq<u16>) -> Seq<TerminalOp> {
    seq![TerminalOp::ScrollDown(rows)] + frames_ops(printed, printed.len())
}

/// The operations that a session performs for a sequence of frames whose
/// draws report the heights `printed`, on a viewport `rows` high.
pub fn session_transcript(rows: u16, printed: &Vec<u16>) -> (r: Vec<TerminalOp>)
    ensures
        r@ == session_ops(rows, printed@),
{
    let mut ops: Vec<TerminalOp> = Vec::new();
    let mut session = RenderSession::new();
    if let Some(Action::ScrollDown(n)) = session.step(Event::Started { rows }) {
        ops.push(TerminalOp::ScrollDown(n));
    }
    let n = printed.len();
    let mut i: usize = 0;
    while i < n
        invariant
            n == printed@.len(),
            i <= n,
            i < n ==> session.phase == Phase::Drawing,
            ops@ == seq![TerminalOp::ScrollDown(rows)] + frames_ops(printed@, i as nat),
        decreases n - i,
    {
        ops.push(TerminalOp::Draw(i));
        let more = i + 1 < n;
        let action = session.step(Event::Drawn { printed_height: printed[i], more });
        if let Some(Action::MoveUp(up)) = action {
            ops.push(TerminalOp::MoveUp(up));
        }
        proof {
            assert(ops@ =~= seq![TerminalOp::ScrollDown(rows)] + frames_ops(printed@, (i + 1) as nat));
        }
        i = i + 1;
    }
    ops
}

pub open spec fn is_scroll(op: TerminalOp) -> bool {
    op is ScrollDown
}

pub open spec fn is_draw(op: TerminalOp) -> bool {
    op is Draw
}

pub open spec fn is_rewind(op: TerminalOp) -> bool {
    op is MoveUp
}

/// How many of `ops` satisfy `pred`.
pub open spec fn count_ops(ops: Seq<TerminalOp>, pred: spec_fn(TerminalOp) -> bool) -> nat
    decreases ops.len(),
{
    if ops.len() == 0 {
        0
    } else {
        count_ops(ops.drop_last(), pred) + if pred(ops.last()) {
            1nat
        } else {
            0nat
        }
    }
}

proof fn lemma_count_concat(a: Seq<TerminalOp>, b: Seq<TerminalOp>, pred: spec_fn(TerminalOp) -> bool)
    ensures
        count_ops(a + b, pred) == count_ops(a, pred) + count_ops(b, pred),
    decreases b.len(),
{
    if b.len() == 0 {
        assert(a + b =~= a);
    } else {
        lemma_count_concat(a, b.drop_last(), pred);
        assert((a + b).drop_last() =~= a + b.drop_last());
    }
}

proof fn lemma_count_one(op: TerminalOp, pred: spec_fn(TerminalOp) -> bool)
    ensures
        count_ops(seq![op], pred) == if pred(op) { 1nat } else { 0nat },
{
    assert(seq![op].drop_last() =~= Seq::<TerminalOp>::empty());
    assert(count_ops(Seq::<TerminalOp>::empty(), pred) == 0);
    assert(seq![op].last() == op);
}

proof fn lemma_count_two(a: TerminalOp, b: TerminalOp, pred: spec_fn(TerminalOp) -> bool)
    ensures
        count_ops(seq![a, b], pred) == (if pred(a) { 1nat } else { 0nat }) + (if pred(b) { 1nat } else { 0nat }),
{
    assert(seq![a, b] =~= seq![a] + seq![b]);
    lemma_count_concat(seq![a], seq![b], pred);
    lemma_count_one(a, pred);
    lemma_count_one(b, pred);
}

/// Over the first `n` frames there is one draw per frame, one rewind per frame
/// that another follows, and no reservation.
proof fn lemma_frames_counts(printed: Seq<u16>, n: nat)
    requires
        n <= printed.len(),
    ensures
        count_ops(frames_ops(printed, n), |op: TerminalOp| is_draw(op)) == n,
        count_ops(frames_ops(printed, n), |op: TerminalOp| is_rewind(op))
            == if n == printed.len() && n > 0 { (n - 1) as nat } else { n },
        count_ops(frames_ops(printed, n), |op: TerminalOp| is_scroll(op)) == 0,
    decreases n,
{
    let fd = |op: TerminalOp| is_draw(op);
    let fr = |op: TerminalOp| is_rewind(op);
    let fs = |op: TerminalOp| is_scroll(op);
    if n == 0 {
    } else {
        let m = (n - 1) as nat;
        lemma_frames_counts(printed, m);
        lemma_count_concat(frames_ops(printed, m), frame_ops(printed, m), fd);
        lemma_count_concat(frames_ops(printed, m), frame_ops(printed, m), fr);
        lemma_count_concat(frames_ops(printed, m), frame_ops(printed, m), fs);
        if m + 1 < printed.len() {
            let a = TerminalOp::Draw(m as usize);
            let b = TerminalOp::MoveUp(printed[m as int]);
            lemma_count_two(a, b, fd);
            lemma_count_two(a, b, fr);
            lemma_count_two(a, b, fs);
        } else {
            let a = TerminalOp::Draw(m as usize);
            lemma_count_one(a, fd);
            lemma_count_one(a, fr);
            lemma_count_one(a, fs);
        }
    }
}

/// Before the last frame, frame `i` is drawn at position `2 i` and the cursor is
/// rewound by its printed height at position `2 i + 1`.
proof fn lemma_frames_layout(printed: Seq<u16>, n: nat)
    requires
        n < printed.len(),
    ensures
        frames_ops(printed, n).len() == 2 * n,
        forall|i: int|
            0 <= i < n ==> {
                &&& #[trigger] frames_ops(printed, n)[2 * i] == TerminalOp::Draw(i as usize)
                &&& frames_ops(printed, n)[2 * i + 1] == TerminalOp::MoveUp(printed[i])
            },
    decreases n,
{
    if n > 0 {
        lemma_frames_layout(printed, (n - 1) as nat);
    }
}

/// A session always begins with one reservation of the whole viewport, and
/// reserves nothing more.
pub proof fn law_session_reserves_once(rows: u16, printed: Seq<u16>)
    ensures
        session_ops(rows, printed)[0] == TerminalOp::ScrollDown(rows),
        count_ops(session_ops(rows, printed), |op: TerminalOp| is_scroll(op)) == 1,
{
    let fs = |op: TerminalOp| is_scroll(op);
    lemma_frames_counts(printed, printed.len());
    lemma_count_concat(seq![TerminalOp::ScrollDown(rows)], frames_ops(printed, printed.len()), fs);
    lemma_count_one(TerminalOp::ScrollDown(rows), fs);
}

/// An empty sequence of frames gives the reservation and nothing else: no draw
/// and no rewind.
pub proof fn law_empty_session(rows: u16, printed: Seq<u16>)
    requires
        printed.len() == 0,
    ensures
        session_ops(rows, printed) == seq![TerminalOp::ScrollDown(rows)],
        count_ops(session_ops(rows, printed), |op: TerminalOp| is_draw(op)) == 0,
        count_ops(session_ops(rows, printed), |op: TerminalOp| is_rewind(op)) == 0,
{
    assert(session_ops(rows, printed) =~= seq![TerminalOp::ScrollDown(rows)]);
    lemma_count_one(TerminalOp::ScrollDown(rows), |op: TerminalOp| is_draw(op));
    lemma_count_one(TerminalOp::ScrollDown(rows), |op: TerminalOp| is_rewind(op));
}

/// A single frame is drawn once and the cursor is never rewound.
pub proof fn law_single_frame_session(rows: u16, printed: Seq<u16>)
    requires
        printed.len() == 1,
    ensures
        session_ops(rows, printed) == seq![TerminalOp::ScrollDown(rows), TerminalOp::Draw(0)],
        count_ops(session_ops(rows, printed), |op: TerminalOp| is_draw(op)) == 1,
        count_ops(session_ops(rows, printed), |op: TerminalOp| is_rewind(op)) == 0,
{
    assert(frames_ops(printed, 0) == Seq::<TerminalOp>::empty());
    assert(frames_ops(printed, 1) =~= seq![TerminalOp::Draw(0)]);
    assert(session_ops(rows, printed) =~= seq![TerminalOp::ScrollDown(rows), TerminalOp::Draw(0)]);
    lemma_count_two(TerminalOp::ScrollDown(rows), TerminalOp::Draw(0), |op: TerminalOp| is_draw(op));
    lemma_count_two(TerminalOp::ScrollDown(rows), TerminalOp::Draw(0), |op: TerminalOp| is_rewind(op));
}

/// `k > 1` frames are drawn `k` times in order, with `k - 1` rewinds; each
/// rewind moves up by the height that the draw just before it reported.
pub proof fn law_multi_frame_session(rows: u16, printed: Seq<u16>)
    requires
        printed.len() > 1,
    ensures
        count_ops(session_ops(rows, printed), |op: TerminalOp| is_draw(op)) == printed.len(),
        count_ops(session_ops(rows, printed), |op: TerminalOp| is_rewind(op)) == printed.len() - 1,
        session_ops(rows, printed).len() == 2 * printed.len(),
        forall|i: int|
            0 <= i < printed.len() - 1 ==> {
                &&& #[trigger] session_ops(rows, printed)[2 * i + 1] == TerminalOp::Draw(i as usize)
                &&& session_ops(rows, printed)[2 * i + 2] == TerminalOp::MoveUp(printed[i])
            },
        session_ops(rows, printed).last() == TerminalOp::Draw((printed.len() - 1) as usize),
{
    let k = printed.len();
    let head = seq![TerminalOp::ScrollDown(rows)];
    let fd = |op: TerminalOp| is_draw(op);
    let fr = |op: TerminalOp| is_rewind(op);
    lemma_frames_counts(printed, k);
    lemma_count_concat(head, frames_ops(printed, k), fd);
    lemma_count_concat(head, frames_ops(printed, k), fr);
    lemma_count_one(TerminalOp::ScrollDown(rows), fd);
    lemma_count_one(TerminalOp::ScrollDown(rows), fr);
    lemma_frames_layout(printed, (k - 1) as nat);
    let body = frames_ops(printed, (k - 1) as nat);
    assert(frames_ops(printed, k) == body + seq![TerminalOp::Draw((k - 1) as usize)]);
    assert forall|i: int| 0 <= i < printed.len() - 1 implies {
        &&& #[trigger] session_ops(rows, printed)[2 * i + 1] == TerminalOp::Draw(i as usize)
        &&& session_ops(rows, printed)[2 * i + 2] == TerminalOp::MoveUp(printed[i])
    } by {
        assert(body[2 * i] == TerminalOp::Draw(i as usize));
        assert(session_ops(rows, printed)[2 * i + 1] == body[2 * i]);
        assert(session_ops(rows, printed)[2 * i + 2] == body[2 * i + 1]);
    }
}

} // verus!
