use console_renderer::viewer::{command_for_key, MIN_SCALE_TENTHS};
use console_renderer::{Action, Axis, Command, Event, Turn, Viewer};

#[test]
fn new_viewer_runs_at_scale_one() {
    let v = Viewer::new(120, 40);
    assert_eq!(v.scale_tenths(), 10);
    assert_eq!((v.columns(), v.rows()), (120, 40));
    assert!(v.is_running());
}

#[test]
fn key_bindings() {
    let cases = [
        ('a', Command::Rotate(Axis::Z, Turn::Counterclockwise)),
        ('e', Command::Rotate(Axis::Z, Turn::Clockwise)),
        ('q', Command::Rotate(Axis::Y, Turn::Clockwise)),
        ('d', Command::Rotate(Axis::Y, Turn::Counterclockwise)),
        ('r', Command::Rotate(Axis::X, Turn::Clockwise)),
        ('f', Command::Rotate(Axis::X, Turn::Counterclockwise)),
        ('z', Command::ScaleUp),
        ('s', Command::ScaleDown),
    ];
    for (key, command) in cases {
        assert_eq!(command_for_key(key), Some(command));
    }
    assert_eq!(command_for_key('x'), None);
    assert_eq!(command_for_key('A'), None);
}

#[test]
fn rotation_keys_ask_for_a_rotation() {
    let mut v = Viewer::new(80, 24);
    assert_eq!(v.handle(Event::Key('a')), Action::Rotate(Axis::Z, Turn::Counterclockwise));
    assert_eq!(v.handle(Event::Key('r')), Action::Rotate(Axis::X, Turn::Clockwise));
    assert_eq!(v.scale_tenths(), 10);
}

#[test]
fn scale_keys_step_by_a_tenth() {
    let mut v = Viewer::new(80, 24);
    assert_eq!(v.handle(Event::Key('z')), Action::Redraw);
    assert_eq!(v.scale_tenths(), 11);
    v.handle(Event::Key('s'));
    v.handle(Event::Key('s'));
    assert_eq!(v.scale_tenths(), 9);
}

#[test]
fn repeated_shrinking_clamps_at_the_floor() {
    let mut v = Viewer::new(80, 24);
    for _ in 0..25 {
        assert_eq!(v.handle(Event::Key('s')), Action::Redraw);
        assert!(v.scale_tenths() >= MIN_SCALE_TENTHS);
    }
    assert_eq!(v.scale_tenths(), 1);
    v.handle(Event::Key('z'));
    assert_eq!(v.scale_tenths(), 2);
}

#[test]
fn repeated_enlarging_steps_by_a_tenth_each_time() {
    let mut v = Viewer::new(80, 24);
    for _ in 0..1200 {
        assert_eq!(v.handle(Event::Key('z')), Action::Redraw);
    }
    assert_eq!(v.scale_tenths(), 1210);
}

#[test]
fn escape_quits_for_good() {
    let mut v = Viewer::new(80, 24);
    assert_eq!(v.handle(Event::Escape), Action::Quit);
    assert!(!v.is_running());
    assert_eq!(v.handle(Event::Key('z')), Action::Quit);
    assert_eq!(v.scale_tenths(), 10);
}

#[test]
fn resize_asks_for_a_new_projection() {
    let mut v = Viewer::new(80, 24);
    assert_eq!(v.handle(Event::Resize { columns: 100, rows: 30 }), Action::Reproject);
    assert_eq!((v.columns(), v.rows()), (100, 30));
}

#[test]
fn resize_to_an_empty_terminal_is_recorded() {
    let mut v = Viewer::new(80, 24);
    assert_eq!(v.handle(Event::Resize { columns: 0, rows: 30 }), Action::Reproject);
    assert_eq!((v.columns(), v.rows()), (0, 30));
}

#[test]
fn idle_and_unbound_keys_redraw() {
    let mut v = Viewer::new(80, 24);
    assert_eq!(v.handle(Event::Idle), Action::Redraw);
    assert_eq!(v.handle(Event::Key('p')), Action::Redraw);
    assert!(v.is_running());
}
