use vstd::prelude::*;

verus! {

/// A coordinate axis of the mesh's space.
#[derive(Clone, Copy, Debug, PartialEq, Eq)]
pub enum Axis {
    X,
    Y,
    Z,
}

/// The sense of one fixed rotation step about an axis.
#[derive(Clone, Copy, Debug, PartialEq, Eq)]
pub enum Turn {
    Clockwise,
    Counterclockwise,
}

/// What a bound key asks for.
#[derive(Clone, Copy, Debug, PartialEq, Eq)]
pub enum Command {
    /// Rotate the mesh one step about its centroid.
    Rotate(Axis, Turn),
    /// Enlarge the picture by one scale step.
    ScaleUp,
    /// Shrink the picture by one scale step.
    ScaleDown,
}

/// What the event loop observed during one iteration.
#[derive(Clone, Copy, Debug, PartialEq, Eq)]
pub enum Event {
    /// A character key was pressed.
    Key(char),
    /// The escape key was pressed.
    Escape,
    /// The terminal now has this many columns and rows.
    Resize { columns: u16, rows: u16 },
    /// No event arrived before the poll timed out, or one of no interest.
    Idle,
}

/// What the event loop does before drawing the next frame.
#[derive(Clone, Copy, Debug, PartialEq, Eq)]
pub enum Action {
    /// Rotate the mesh one step about its centroid, then draw.
    Rotate(Axis, Turn),
    /// Draw the frame as things stand.
    Redraw,
    /// Rebuild the projection for the new terminal size, then draw.
    Reproject,
    /// Leave the loop.
    Quit,
}

/// The scale factor is kept in tenths: one scale key changes it by 0.1.
pub const DEFAULT_SCALE_TENTHS: u32 = 10;

/// The smallest scale, 0.1: shrinking stops here, so the picture never
/// collapses to a point or turns upside down.
pub const MIN_SCALE_TENTHS: u32 = 1;

/// The key bindings: `a`/`e` roll about Z, `q`/`d` turn about Y, `r`/`f`
/// tilt about X, `z` enlarges and `s` shrinks.
pub open spec fn command_of(key: char) -> Option<Command> {
    if key == 'a' {
        Some(Command::Rotate(Axis::Z, Turn::Counterclockwise))
    } else if key == 'e' {
        Some(Command::Rotate(Axis::Z, Turn::Clockwise))
    } else if key == 'q' {
        Some(Command::Rotate(Axis::Y, Turn::Clockwise))
    } else if key == 'd' {
        Some(Command::Rotate(Axis::Y, Turn::Counterclockwise))
    } else if key == 'r' {
        Some(Command::Rotate(Axis::X, Turn::Clockwise))
    } else if key == 'f' {
        Some(Command::Rotate(Axis::X, Turn::Counterclockwise))
    } else if key == 'z' {
        Some(Command::ScaleUp)
    } else if key == 's' {
        Some(Command::ScaleDown)
    } else {
        None
    }
}

/// The command bound to a key, if any.
pub fn command_for_key(key: char) -> (command: Option<Command>)
    ensures
        command == command_of(key),
{
    match key {
        'a' => Some(Command::Rotate(Axis::Z, Turn::Counterclockwise)),
        'e' => Some(Command::Rotate(Axis::Z, Turn::Clockwise)),
        'q' => Some(Command::Rotate(Axis::Y, Turn::Clockwise)),
        'd' => Some(Command::Rotate(Axis::Y, Turn::Counterclockwise)),
        'r' => Some(Command::Rotate(Axis::X, Turn::Clockwise)),
        'f' => Some(Command::Rotate(Axis::X, Turn::Counterclockwise)),
        'z' => Some(Command::ScaleUp),
        's' => Some(Command::ScaleDown),
        _ => None,
    }
}

/// The state of the interactive viewer, as mathematical values.
pub struct ViewerState {
    pub scale_tenths: u32,
    pub columns: u16,
    pub rows: u16,
    pub running: bool,
}

pub open spec fn scale_in_range(scale_tenths: u32) -> bool {
    MIN_SCALE_TENTHS <= scale_tenths
}

/// The scale after one enlarging step: one tenth more, as far as a `u32`
/// holds.
pub open spec fn scaled_up(scale_tenths: u32) -> u32 {
    if scale_tenths < u32::MAX {
        (scale_tenths + 1) as u32
    } else {
        scale_tenths
    }
}

/// The scale after one shrinking step.
pub open spec fn scaled_down(scale_tenths: u32) -> u32 {
    if scale_tenths > MIN_SCALE_TENTHS {
        (scale_tenths - 1) as u32
    } else {
        MIN_SCALE_TENTHS
    }
}

/// One transition of the viewer: the state after `event` and the action
/// that the loop performs. A stopped viewer stays stopped and quits again.
/// Every resize records the new size and asks for a new projection.
pub open spec fn next(s: ViewerState, event: Event) -> (ViewerState, Action) {
    if !s.running {
        (s, Action::Quit)
    } else {
        match event {
            Event::Escape => (ViewerState { running: false, ..s }, Action::Quit),
            Event::Resize { columns, rows } => (
                ViewerState { columns, rows, ..s },
                Action::Reproject,
            ),
            Event::Idle => (s, Action::Redraw),
            Event::Key(key) => match command_of(key) {
                Some(Command::Rotate(axis, turn)) => (s, Action::Rotate(axis, turn)),
                Some(Command::ScaleUp) => (
                    ViewerState { scale_tenths: scaled_up(s.scale_tenths), ..s },
                    Action::Redraw,
                ),
                Some(Command::ScaleDown) => (
                    ViewerState { scale_tenths: scaled_down(s.scale_tenths), ..s },
                    Action::Redraw,
                ),
                None => (s, Action::Redraw),
            },
        }
    }
}

/// The state after the events of `events`, in order.
pub open spec fn run(s: ViewerState, events: Seq<Event>) -> ViewerState
    decreases events.len(),
{
    if events.len() == 0 {
        s
    } else {
        next(run(s, events.drop_last()), events.last()).0
    }
}

/// The interactive viewer: scale factor, terminal size, and whether the
/// loop still runs.
#[derive(Debug)]
pub struct Viewer {
    scale_tenths: u32,
    columns: u16,
    rows: u16,
    running: bool,
}

impl View for Viewer {
    type V = ViewerState;

    closed spec fn view(&self) -> ViewerState {
        ViewerState {
            scale_tenths: self.scale_tenths,
            columns: self.columns,
            rows: self.rows,
            running: self.running,
        }
    }
}

impl Viewer {
    #[verifier::type_invariant]
    spec fn scale_kept(&self) -> bool {
        scale_in_range(self.scale_tenths)
    }

    /// A running viewer at scale 1.0 for a terminal of the given size.
    pub fn new(columns: u16, rows: u16) -> (v: Viewer)
        ensures
            v@ == (ViewerState {
                scale_tenths: DEFAULT_SCALE_TENTHS,
                columns,
                rows,
                running: true,
            }),
    {
        Viewer { scale_tenths: DEFAULT_SCALE_TENTHS, columns, rows, running: true }
    }

    /// The scale factor, in tenths.
    pub fn scale_tenths(&self) -> (r: u32)
        ensures
            r == self@.scale_tenths,
            scale_in_range(r),
    {
        proof {
            use_type_invariant(self);
        }
        self.scale_tenths
    }

    /// The terminal's width, in columns.
    pub fn columns(&self) -> (r: u16)
        ensures
            r == self@.columns,
    {
        self.columns
    }

    /// The terminal's height, in rows.
    pub fn rows(&self) -> (r: u16)
        ensures
            r == self@.rows,
    {
        self.rows
    }

    /// Whether the loop still runs.
    pub fn is_running(&self) -> (r: bool)
        ensures
            r == self@.running,
    {
        self.running
    }

    /// Takes one event: updates the state and says what the loop does
    /// before it draws.
    pub fn handle(&mut self, event: Event) -> (action: Action)
        ensures
            (final(self)@, action) == next(old(self)@, event),
            scale_in_range(final(self)@.scale_tenths),
    {
        proof {
            use_type_invariant(&*self);
        }
        if !self.running {
            return Action::Quit;
        }
        match event {
            Event::Escape => {
                self.running = false;
                Action::Quit
            },
            Event::Resize { columns, rows } => {
                self.columns = columns;
                self.rows = rows;
                Action::Reproject
            },
            Event::Idle => Action::Redraw,
            Event::Key(key) => match command_for_key(key) {
                Some(Command::Rotate(axis, turn)) => Action::Rotate(axis, turn),
                Some(Command::ScaleUp) => {
                    if self.scale_tenths < u32::MAX {
                        self.scale_tenths = self.scale_tenths + 1;
                    }
                    Action::Redraw
                },
                Some(Command::ScaleDown) => {
                    if self.scale_tenths > MIN_SCALE_TENTHS {
                        self.scale_tenths = self.scale_tenths - 1;
                    }
                    Action::Redraw
                },
                None => Action::Redraw,
            },
        }
    }
}

/// Whatever events arrive, a scale in range stays in range: repeated
/// shrinking stops at the floor, so the scale never reaches zero or turns
/// negative.
pub proof fn lemma_scale_stays_in_range(s: ViewerState, events: Seq<Event>)
    requires
        scale_in_range(s.scale_tenths),
    ensures
        scale_in_range(run(s, events).scale_tenths),
        run(s, events).scale_tenths > 0,
    decreases events.len(),
{
    if events.len() > 0 {
        lemma_scale_stays_in_range(s, events.drop_last());
    }
}

/// `n` presses of the shrink key, `s`, on a running viewer.
pub open spec fn shrink_presses(n: nat) -> Seq<Event> {
    Seq::new(n, |i: int| Event::Key('s'))
}

/// Pressing the shrink key `n` times on a running viewer lowers the scale
/// by `n` tenths, clamped at the floor, and leaves it running.
pub proof fn lemma_repeated_shrink(s: ViewerState, n: nat)
    requires
        s.running,
        scale_in_range(s.scale_tenths),
    ensures
        run(s, shrink_presses(n)).scale_tenths == if s.scale_tenths - n >= MIN_SCALE_TENTHS {
            s.scale_tenths - n
        } else {
            MIN_SCALE_TENTHS as int
        },
        run(s, shrink_presses(n)).running,
    decreases n,
{
    if n > 0 {
        let m = (n - 1) as nat;
        assert(shrink_presses(n).drop_last() =~= shrink_presses(m));
        lemma_repeated_shrink(s, m);
        assert(command_of('s') == Some(Command::ScaleDown));
    }
}

} // verus!
