//! Recording state for one pointer stroke: a two-state machine (idle or
//! recording) with the downsampling filter that bounds how fast the
//! trajectory grows, and the release hand-off that moves the whole
//! trajectory out for analysis.
//!
//! The host's input hook drives one process-wide session from its callback:
//! a primary-button press starts a recording, pointer moves append filtered
//! points, and the release takes the snapshot that the analyzer runs on.

use vstd::prelude::*;

use crate::analyzer::{analyze_spec, MIN_POINTS};
use crate::geometry::{dist_sq, dist_sq_exec, Point};

verus! {

/// Mathematical model of the recording state: whether a stroke is being
/// recorded, and the trajectory kept so far.
#[verifier::ext_equal]
pub ghost struct SessionModel {
    pub recording: bool,
    pub points: Seq<Point>,
}

/// The state a session starts in: idle, with no points.
pub open spec fn initial_session() -> SessionModel {
    SessionModel { recording: false, points: Seq::empty() }
}

/// The downsampling policy: a move is kept only when the session holds no
/// point yet, or the new point lies at least 5 pixels — squared distance
/// 25 — from the last kept one.  This bounds memory and work for long,
/// slow drags without losing the stroke's shape.
pub open spec fn keeps(points: Seq<Point>, p: Point) -> bool {
    points.len() == 0 || dist_sq(points.last(), p) >= 25
}

/// A primary-button press: stale points are dropped, recording starts.
pub open spec fn press_step(m: SessionModel) -> SessionModel {
    SessionModel { recording: true, points: Seq::empty() }
}

/// A pointer move: ignored while idle; while recording, the point is
/// appended exactly when the downsampling policy keeps it.
pub open spec fn move_step(m: SessionModel, p: Point) -> SessionModel {
    if !m.recording {
        m
    } else if keeps(m.points, p) {
        SessionModel { recording: true, points: m.points.push(p) }
    } else {
        m
    }
}

/// A primary-button release: while recording, the whole trajectory is
/// handed off and the session returns to idle with no points; a spurious
/// release while idle is a no-op that hands off nothing.
pub open spec fn release_step(m: SessionModel) -> (SessionModel, Option<Seq<Point>>) {
    if m.recording {
        (SessionModel { recording: false, points: Seq::empty() }, Some(m.points))
    } else {
        (m, None)
    }
}

/// The per-stroke recording state.  One live instance serves the whole
/// process; the host guards it with a mutual-exclusion primitive, since the
/// input-hook callback is the only writer but runs concurrently with the
/// analysis hand-off.
pub struct GestureSession {
    recording: bool,
    points: Vec<Point>,
}

impl View for GestureSession {
    type V = SessionModel;

    closed spec fn view(&self) -> SessionModel {
        SessionModel { recording: self.recording, points: self.points@ }
    }
}

impl GestureSession {
    /// A fresh session: idle, with no recorded points.
    pub fn new() -> (s: Self)
        ensures
            s@ == initial_session(),
    {
        GestureSession { recording: false, points: Vec::new() }
    }

    /// True while a stroke is being recorded.
    pub fn is_recording(&self) -> (b: bool)
        ensures
            b == self@.recording,
    {
        self.recording
    }

    /// How many trajectory points the session holds.
    pub fn len(&self) -> (l: usize)
        ensures
            l == self@.points.len(),
    {
        self.points.len()
    }

    /// The press transition.
    pub fn on_press(&mut self)
        ensures
            final(self)@ == press_step(old(self)@),
    {
        self.recording = true;
        self.points.clear();
    }

    /// The move transition, downsampling included.
    pub fn on_move(&mut self, p: Point)
        ensures
            final(self)@ == move_step(old(self)@, p),
    {
        if !self.recording {
            return ;
        }
        let keep = if self.points.len() == 0 {
            true
        } else {
            let last = self.points[self.points.len() - 1];
            dist_sq_exec(last, p) >= 25
        };
        if keep {
            self.points.push(p);
        }
    }

    /// The release transition: returns the full trajectory snapshot when a
    /// recording was live, leaving the session idle and empty.
    pub fn on_release(&mut self) -> (snapshot: Option<Vec<Point>>)
        ensures
            final(self)@ == release_step(old(self)@).0,
            snapshot is Some <==> old(self)@.recording,
            snapshot is Some ==> snapshot.unwrap()@ == old(self)@.points,
    {
        if self.recording {
            self.recording = false;
            let mut taken: Vec<Point> = Vec::new();
            core::mem::swap(&mut taken, &mut self.points);
            Some(taken)
        } else {
            None
        }
    }
}

impl Default for GestureSession {
    /// Same state as `GestureSession::new`.
    fn default() -> (s: Self)
        ensures
            s@ == initial_session(),
    {
        GestureSession::new()
    }
}

/// The session state after a sequence of move events.
pub open spec fn run_moves(m: SessionModel, moves: Seq<Point>) -> SessionModel
    decreases moves.len(),
{
    if moves.len() == 0 {
        m
    } else {
        run_moves(move_step(m, moves.first()), moves.drop_first())
    }
}

/// Downsampling law, inner step: while recording with a single kept point,
/// a run of moves that all stay within 5 pixels (squared distance below 25)
/// of that point changes nothing, however long the run is.
pub proof fn lemma_downsample_dense_moves(m: SessionModel, p: Point, moves: Seq<Point>)
    requires
        m.recording,
        m.points == seq![p],
        forall|i: int| 0 <= i < moves.len() ==> dist_sq(p, moves[i]) < 25,
    ensures
        run_moves(m, moves) == m,
    decreases moves.len(),
{
    if moves.len() > 0 {
        assert(m.points.last() == p);
        assert(dist_sq(p, moves[0]) < 25);
        assert(move_step(m, moves.first()) == m);
        assert(forall|i: int|
            0 <= i < moves.drop_first().len() ==> dist_sq(p, moves.drop_first()[i]) < 25);
        lemma_downsample_dense_moves(m, p, moves.drop_first());
    }
}

/// Downsampling law: a press followed by any dense run of moves — each
/// within 5 pixels of the first — leaves the session recording exactly one
/// kept point, regardless of how many moves arrived.
pub proof fn lemma_dense_run_keeps_one(m: SessionModel, moves: Seq<Point>)
    requires
        moves.len() >= 1,
        forall|i: int| 0 <= i < moves.len() ==> dist_sq(moves[0], moves[i]) < 25,
    ensures
        run_moves(press_step(m), moves) == (SessionModel {
            recording: true,
            points: seq![moves[0]],
        }),
{
    let m1 = press_step(m);
    let p = moves.first();
    assert(keeps(m1.points, p));
    let m2 = move_step(m1, p);
    assert(m2.points =~= seq![p]);
    assert(forall|i: int|
        0 <= i < moves.drop_first().len() ==> dist_sq(p, moves.drop_first()[i]) < 25);
    lemma_downsample_dense_moves(m2, p, moves.drop_first());
}

/// Empty-stroke law: a press followed immediately by a release hands the
/// analyzer an empty snapshot, and the analyzer rejects it for want of
/// points.
pub proof fn lemma_empty_stroke_rejected(m: SessionModel)
    ensures
        (release_step(press_step(m)).1 == Some(Seq::<Point>::empty())),
        analyze_spec(release_step(press_step(m)).1.unwrap()) is None,
        release_step(press_step(m)).0 == initial_session(),
{
    assert(Seq::<Point>::empty().len() < MIN_POINTS);
}

} // verus!
