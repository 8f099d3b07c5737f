//! The incremental render loop: one scanline per frame, with the quit check
//! at each frame's start.

use crate::color::{banded, colorize_discrete, Color};
use crate::error::ConfigError;
use crate::escape::{escape_outcome, evaluate, EscapeOutcome, EscapeResult};
use crate::gradient::{colorize_continuous, continuous, Smooth};
use crate::session::{SessionConfiguration, NANOS_PER_SECOND};
use crate::viewport::{map_pixel, plane_point_of};
use num::ToPrimitive;
use vstd::prelude::*;

verus! {

/// A key of the keyboard, as far as the loop tells keys apart.
#[derive(Clone, Copy, PartialEq, Eq, Structural, Debug)]
pub enum Key {
    Escape,
    Other,
}

/// An input event, as far as the loop tells events apart.
#[derive(Clone, Copy, PartialEq, Eq, Structural, Debug)]
pub enum InputEvent {
    /// The window was asked to close.
    WindowClose,
    /// A key went down.
    KeyDown { key: Key },
    /// Anything else.
    Other,
}

/// A window-close event and an escape key-down are quit signals; nothing else
/// is.
pub open spec fn is_quit(event: InputEvent) -> bool {
    event == InputEvent::WindowClose || event == (InputEvent::KeyDown { key: Key::Escape })
}

/// Some event of the batch is a quit signal.
pub open spec fn has_quit(events: Seq<InputEvent>) -> bool {
    exists|i: int| 0 <= i < events.len() && is_quit(#[trigger] events[i])
}

/// Whether one event is a quit signal.
pub fn is_quit_signal(event: &InputEvent) -> (quit: bool)
    ensures
        quit == is_quit(*event),
{
    match event {
        InputEvent::WindowClose => true,
        InputEvent::KeyDown { key: Key::Escape } => true,
        _ => false,
    }
}

/// Whether the events polled for one frame hold a quit signal.
pub fn quit_requested(events: &Vec<InputEvent>) -> (quit: bool)
    ensures
        quit == has_quit(events@),
{
    let mut i: usize = 0;
    while i < events.len()
        invariant
            i <= events.len(),
            forall|k: int| 0 <= k < i ==> !is_quit(#[trigger] events@[k]),
        decreases events.len() - i,
    {
        if is_quit_signal(&events[i]) {
            return true;
        }
        i = i + 1;
    }
    false
}

/// Where a session stands.
#[derive(Clone, Copy, PartialEq, Eq, Structural, Debug)]
pub enum RenderState {
    /// No frame has been ticked yet.
    Idle,
    /// Some rows are drawn, some are left.
    Rendering,
    /// Every row is drawn; frames are still presented.
    Complete,
    /// A quit signal was seen. Terminal.
    Quitting,
}

/// The next row to draw.
#[derive(Clone, Copy, PartialEq, Eq, Structural, Debug)]
pub struct RenderCursor {
    pub current_row: u32,
}

/// What the caller has to do for one frame.
#[derive(Clone, Copy, PartialEq, Eq, Structural, Debug)]
pub enum FrameAction {
    /// Leave the loop: nothing is drawn or presented any more.
    Stop,
    /// Draw the given row, present, and wait for `pause_nanos`.
    DrawRow { row: u32, pause_nanos: u32 },
    /// Present what is there, and wait for `pause_nanos`.
    Present { pause_nanos: u32 },
}

/// One pixel to set on the display surface.
#[derive(Clone, Copy, PartialEq, Eq, Structural, Debug)]
pub struct PixelWrite {
    pub x: i32,
    pub y: i32,
    pub color: Color,
}

/// A render session: its configuration, its cursor and its state.
#[derive(Clone, Copy, PartialEq, Eq, Structural, Debug)]
pub struct RenderSession {
    pub config: SessionConfiguration,
    pub cursor: RenderCursor,
    pub state: RenderState,
}

impl RenderSession {
    /// The cursor never passes the last row, and the state agrees with it.
    pub open spec fn wf(&self) -> bool {
        &&& self.config.wf()
        &&& self.cursor.current_row <= self.config.dims.height
        &&& self.state == RenderState::Idle ==> self.cursor.current_row == 0
        &&& self.state == RenderState::Rendering ==> 0 < self.cursor.current_row
            < self.config.dims.height
        &&& self.state == RenderState::Complete ==> self.cursor.current_row
            == self.config.dims.height
    }

    /// The session before its first frame.
    pub open spec fn initial(config: SessionConfiguration) -> RenderSession {
        RenderSession {
            config,
            cursor: RenderCursor { current_row: 0 },
            state: RenderState::Idle,
        }
    }

    /// The pause that ends every frame that is presented.
    pub open spec fn pause(&self) -> u32 {
        NANOS_PER_SECOND / self.config.target_frame_rate
    }

    /// What one frame asks of the caller, given whether a quit signal was
    /// seen at its start.
    pub open spec fn action(&self, quit: bool) -> FrameAction {
        if quit || self.state == RenderState::Quitting {
            FrameAction::Stop
        } else if self.cursor.current_row < self.config.dims.height {
            FrameAction::DrawRow { row: self.cursor.current_row, pause_nanos: self.pause() }
        } else {
            FrameAction::Present { pause_nanos: self.pause() }
        }
    }

    /// The session after one frame.
    pub open spec fn after_tick(&self, quit: bool) -> RenderSession {
        if quit || self.state == RenderState::Quitting {
            RenderSession { state: RenderState::Quitting, ..*self }
        } else if self.cursor.current_row < self.config.dims.height {
            RenderSession {
                config: self.config,
                cursor: RenderCursor { current_row: (self.cursor.current_row + 1) as u32 },
                state: if self.cursor.current_row + 1 == self.config.dims.height {
                    RenderState::Complete
                } else {
                    RenderState::Rendering
                },
            }
        } else {
            RenderSession { state: RenderState::Complete, ..*self }
        }
    }

    /// The session after `frames` frames in which no quit signal was seen.
    pub open spec fn after_quiet_ticks(&self, frames: nat) -> RenderSession
        decreases frames,
    {
        if frames == 0 {
            *self
        } else {
            self.after_quiet_ticks((frames - 1) as nat).after_tick(false)
        }
    }

    /// Starts a session: checks the configuration, and refuses it with its
    /// first fault before anything is rendered.
    pub fn new(config: SessionConfiguration) -> (res: Result<RenderSession, ConfigError>)
        ensures
            res == match config.fault() {
                Some(e) => Err::<RenderSession, ConfigError>(e),
                None => Ok::<RenderSession, ConfigError>(Self::initial(config)),
            },
            res matches Ok(session) ==> session.wf(),
    {
        match config.validate() {
            Ok(()) => Ok(
                RenderSession {
                    config,
                    cursor: RenderCursor { current_row: 0 },
                    state: RenderState::Idle,
                },
            ),
            Err(e) => Err(e),
        }
    }

    /// Runs the decisions of one frame: looks for a quit signal among the
    /// events polled, and else moves the cursor past the row that is to be
    /// drawn.
    pub fn tick(&mut self, events: &Vec<InputEvent>) -> (action: FrameAction)
        requires
            old(self).wf(),
        ensures
            *final(self) == old(self).after_tick(has_quit(events@)),
            action == old(self).action(has_quit(events@)),
            final(self).wf(),
    {
        let quit: bool = quit_requested(events);
        if quit || self.state == RenderState::Quitting {
            self.state = RenderState::Quitting;
            return FrameAction::Stop;
        }
        let pause_nanos: u32 = self.config.frame_interval_nanos();
        let row: u32 = self.cursor.current_row;
        if row < self.config.dims.height {
            self.cursor.current_row = row + 1;
            if row + 1 == self.config.dims.height {
                self.state = RenderState::Complete;
            } else {
                self.state = RenderState::Rendering;
            }
            FrameAction::DrawRow { row, pause_nanos }
        } else {
            self.state = RenderState::Complete;
            FrameAction::Present { pause_nanos }
        }
    }
}

/// A frame keeps a well-formed session well-formed, and never touches its
/// configuration.
pub proof fn lemma_tick_keeps_wf(session: RenderSession, quit: bool)
    requires
        session.wf(),
    ensures
        session.after_tick(quit).wf(),
        session.after_tick(quit).config == session.config,
{
}

/// A quit signal ends the session at once, whatever its state: the frame asks
/// for nothing but to stop, and the cursor stays where it was.
pub proof fn lemma_quit_stops(session: RenderSession)
    ensures
        session.action(true) == FrameAction::Stop,
        session.after_tick(true).state == RenderState::Quitting,
        session.after_tick(true).cursor == session.cursor,
{
}

/// `Quitting` is terminal: no later frame leaves it or asks for anything but
/// to stop.
pub proof fn lemma_quitting_is_terminal(session: RenderSession, quit: bool)
    requires
        session.state == RenderState::Quitting,
    ensures
        session.after_tick(quit) == session,
        session.action(quit) == FrameAction::Stop,
{
}

/// Without a quit signal, frame `n` (counted from 0) draws row `n` as long as
/// rows are left and only presents afterwards; after `n` frames the cursor
/// stands at row `n`, or at the height once all rows are drawn, which is when
/// the session is `Complete`.
pub proof fn lemma_quiet_frames(config: SessionConfiguration, frames: nat)
    requires
        config.wf(),
    ensures
        ({
            let session = RenderSession::initial(config).after_quiet_ticks(frames);
            let height = config.dims.height as nat;
            &&& session.wf()
            &&& session.config == config
            &&& session.cursor.current_row == if frames < height {
                frames
            } else {
                height
            }
            &&& session.state == if frames == 0 {
                RenderState::Idle
            } else if frames < height {
                RenderState::Rendering
            } else {
                RenderState::Complete
            }
            &&& session.action(false) == if frames < height {
                FrameAction::DrawRow { row: frames as u32, pause_nanos: session.pause() }
            } else {
                FrameAction::Present { pause_nanos: session.pause() }
            }
        }),
    decreases frames,
{
    if frames > 0 {
        lemma_quiet_frames(config, (frames - 1) as nat);
    }
}

/// The pixel write for column `x` of row `y`: the banded color of the
/// evaluation of the pixel's point.
pub open spec fn pixel_write(config: SessionConfiguration, x: int, y: int) -> PixelWrite {
    PixelWrite {
        x: x as i32,
        y: y as i32,
        color: banded(
            escape_outcome(
                plane_point_of(x, y, config.dims, config.region),
                config.iteration_budget as nat,
                config.escape_radius@,
            ),
        ),
    }
}

/// The writes of one row: one for each column, from left to right.
pub open spec fn row_writes(config: SessionConfiguration, row: int) -> Seq<PixelWrite> {
    Seq::new(config.dims.width as nat, |x: int| pixel_write(config, x, row))
}

/// A row's writes set each pixel of the row once: the write of index `x` goes
/// to column `x` of that row.
pub proof fn lemma_row_writes_cover_row(config: SessionConfiguration, row: int)
    requires
        config.wf(),
        0 <= row < config.dims.height,
    ensures
        row_writes(config, row).len() == config.dims.width,
        forall|x: int|
            0 <= x < config.dims.width ==> {
                &&& (#[trigger] row_writes(config, row)[x]).x == x
                &&& row_writes(config, row)[x].y == row
            },
{
}

/// The writes of frame `frame` (counted from 0) of a session that sees no quit
/// signal: those of the row that the frame draws, and none once all rows are
/// drawn.
pub open spec fn quiet_frame_writes(config: SessionConfiguration, frame: nat) -> Seq<PixelWrite> {
    match RenderSession::initial(config).after_quiet_ticks(frame).action(false) {
        FrameAction::DrawRow { row, .. } => row_writes(config, row as int),
        _ => Seq::empty(),
    }
}

/// A session that sees no quit signal writes every pixel of the viewport
/// exactly once: the pixel of column `x` and row `y` by the write of index `x`
/// of frame `y`, and by no other write of any frame.
pub proof fn lemma_each_pixel_is_written_once(config: SessionConfiguration, x: int, y: int)
    requires
        config.wf(),
        0 <= x < config.dims.width,
        0 <= y < config.dims.height,
    ensures
        quiet_frame_writes(config, y as nat).len() == config.dims.width,
        quiet_frame_writes(config, y as nat)[x].x == x,
        quiet_frame_writes(config, y as nat)[x].y == y,
        forall|frame: nat, k: int|
            #![trigger quiet_frame_writes(config, frame)[k]]
            0 <= k < quiet_frame_writes(config, frame).len() && quiet_frame_writes(
                config,
                frame,
            )[k].x == x && quiet_frame_writes(config, frame)[k].y == y ==> frame == y && k == x,
{
    lemma_quiet_frames(config, y as nat);
    lemma_row_writes_cover_row(config, y);
    assert forall|frame: nat, k: int|
        #![trigger quiet_frame_writes(config, frame)[k]]
        0 <= k < quiet_frame_writes(config, frame).len() && quiet_frame_writes(
            config,
            frame,
        )[k].x == x && quiet_frame_writes(config, frame)[k].y == y implies frame == y && k
        == x by {
        lemma_quiet_frames(config, frame);
        if frame < config.dims.height {
            lemma_row_writes_cover_row(config, frame as int);
        }
    }
}

/// `num::ToPrimitive::to_i32` on a `u32`: the same number as an `i32` where it
/// is at most `i32::MAX`, and nothing where it is larger.
#[verifier::external_body]
fn coordinate(value: u32) -> (res: Option<i32>)
    ensures
        res == if value <= i32::MAX {
            Some(value as i32)
        } else {
            None::<i32>
        },
{
    value.to_i32()
}

/// Evaluates every pixel of one row and colors it with the banded palette.
pub fn render_row_discrete(config: &SessionConfiguration, row: u32) -> (writes: Vec<PixelWrite>)
    requires
        config.wf(),
        row < config.dims.height,
    ensures
        writes@ == row_writes(*config, row as int),
{
    let mut writes: Vec<PixelWrite> = Vec::new();
    let width: u32 = config.dims.width;
    let mut column: u32 = 0;
    while column < width
        invariant
            config.wf(),
            row < config.dims.height,
            width == config.dims.width,
            column <= width,
            writes@.len() == column,
            forall|k: int| 0 <= k < column ==> writes@[k] == pixel_write(*config, k, row as int),
        decreases width - column,
    {
        let c = map_pixel(column, row, &config.dims, &config.region);
        let result: EscapeResult = evaluate(c, config.iteration_budget, config.escape_radius);
        let color: Color = colorize_discrete(&result);
        let x: i32 = match coordinate(column) {
            Some(x) => x,
            None => vstd::pervasive::unreached(),
        };
        let y: i32 = match coordinate(row) {
            Some(y) => y,
            None => vstd::pervasive::unreached(),
        };
        writes.push(PixelWrite { x, y, color });
        column = column + 1;
    }
    assert(writes@ =~= row_writes(*config, row as int));
    writes
}

/// The evaluations of one row: one for each column, from left to right.
pub open spec fn row_outcomes(config: SessionConfiguration, row: int) -> Seq<EscapeOutcome> {
    Seq::new(
        config.dims.width as nat,
        |x: int|
            escape_outcome(
                plane_point_of(x, row, config.dims, config.region),
                config.iteration_budget as nat,
                config.escape_radius@,
            ),
    )
}

/// Evaluates every pixel of one row, without coloring it.
pub fn evaluate_row(config: &SessionConfiguration, row: u32) -> (results: Vec<EscapeResult>)
    requires
        config.wf(),
        row < config.dims.height,
    ensures
        results@.map_values(|r: EscapeResult| r@) == row_outcomes(*config, row as int),
{
    let mut results: Vec<EscapeResult> = Vec::new();
    let width: u32 = config.dims.width;
    let mut column: u32 = 0;
    while column < width
        invariant
            config.wf(),
            row < config.dims.height,
            width == config.dims.width,
            column <= width,
            results@.len() == column,
            forall|k: int|
                0 <= k < column ==> (#[trigger] results@[k])@ == row_outcomes(
                    *config,
                    row as int,
                )[k],
        decreases width - column,
    {
        let c = map_pixel(column, row, &config.dims, &config.region);
        let result: EscapeResult = evaluate(c, config.iteration_budget, config.escape_radius);
        results.push(result);
        column = column + 1;
    }
    assert(results@.map_values(|r: EscapeResult| r@) =~= row_outcomes(*config, row as int));
    results
}

/// The writes of one row in the continuous mode, given the smoothed value of
/// each of its pixels.
pub open spec fn row_writes_continuous(
    config: SessionConfiguration,
    row: int,
    smooth: Seq<Option<Smooth>>,
) -> Seq<PixelWrite> {
    Seq::new(
        config.dims.width as nat,
        |x: int| PixelWrite { x: x as i32, y: row as i32, color: continuous(smooth[x]) },
    )
}

/// Colors one row with the gradient. `smooth` holds, for each column from left
/// to right, the smoothed value of the pixel, or `None` where the point is
/// bounded.
pub fn render_row_continuous(
    config: &SessionConfiguration,
    row: u32,
    smooth: &Vec<Option<Smooth>>,
) -> (writes: Vec<PixelWrite>)
    requires
        config.wf(),
        row < config.dims.height,
        smooth@.len() == config.dims.width,
    ensures
        writes@ == row_writes_continuous(*config, row as int, smooth@),
{
    let mut writes: Vec<PixelWrite> = Vec::new();
    let width: u32 = config.dims.width;
    let mut column: u32 = 0;
    while column < width
        invariant
            config.wf(),
            row < config.dims.height,
            width == config.dims.width,
            smooth@.len() == width,
            column <= width,
            writes@.len() == column,
            forall|k: int|
                0 <= k < column ==> writes@[k] == row_writes_continuous(
                    *config,
                    row as int,
                    smooth@,
                )[k],
        decreases width - column,
    {
        let color: Color = colorize_continuous(smooth[column as usize]);
        let x: i32 = match coordinate(column) {
            Some(x) => x,
            None => vstd::pervasive::unreached(),
        };
        let y: i32 = match coordinate(row) {
            Some(y) => y,
            None => vstd::pervasive::unreached(),
        };
        writes.push(PixelWrite { x, y, color });
        column = column + 1;
    }
    assert(writes@ =~= row_writes_continuous(*config, row as int, smooth@));
    writes
}

} // verus!
