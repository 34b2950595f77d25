use term3d::input::{Control, Drag, Event, MouseButton, MouseState, Reaction};

fn act(control: Option<Control>, drag: Option<Drag>) -> Reaction {
    Reaction::Act { control, drag }
}

#[test]
fn mouse_starts_at_rest() {
    let mouse = MouseState::new();
    assert!(!mouse.left());
    assert!(!mouse.right());
    assert_eq!(mouse.position(), (0, 0));
    assert_eq!(mouse.movement(), (0, 0));
}

#[test]
fn quit_leaves_the_state_alone() {
    let mut mouse = MouseState::new();
    mouse.step(Event::Press(MouseButton::Left, 4, 5));
    assert_eq!(mouse.step(Event::Quit), Reaction::Quit);
    assert!(mouse.left());
    assert_eq!(mouse.position(), (4, 5));
}

#[test]
fn left_drag_grabs() {
    let mut mouse = MouseState::new();
    assert_eq!(
        mouse.step(Event::Press(MouseButton::Left, 10, 10)),
        act(None, Some(Drag::Grab(0, 0)))
    );
    assert_eq!(mouse.step(Event::Hold(13, 8)), act(None, Some(Drag::Grab(3, -2))));
    assert_eq!(mouse.position(), (13, 8));
    assert_eq!(mouse.movement(), (3, -2));
    assert_eq!(mouse.step(Event::Hold(13, 8)), act(None, None));
    assert_eq!(mouse.movement(), (0, 0));
    assert_eq!(mouse.step(Event::Release(14, 8)), act(None, None));
    assert!(!mouse.left());
    assert_eq!(mouse.movement(), (1, 0));
}

#[test]
fn both_buttons_pan() {
    let mut mouse = MouseState::new();
    mouse.step(Event::Press(MouseButton::Left, 1, 1));
    assert_eq!(
        mouse.step(Event::Press(MouseButton::Right, 2, 2)),
        act(None, Some(Drag::Pan(0, 0)))
    );
    assert_eq!(mouse.step(Event::Hold(0, 5)), act(None, Some(Drag::Pan(-2, 3))));
}

#[test]
fn right_button_alone_drags_nothing() {
    let mut mouse = MouseState::new();
    assert_eq!(mouse.step(Event::Press(MouseButton::Right, 2, 2)), act(None, None));
    assert_eq!(mouse.step(Event::Hold(9, 9)), act(None, None));
    assert!(mouse.right());
    assert_eq!(mouse.step(Event::Press(MouseButton::Middle, 3, 3)), act(None, None));
    assert_eq!(mouse.position(), (3, 3));
}

#[test]
fn wheel_zooms_and_keeps_the_mouse_where_it_was() {
    let mut mouse = MouseState::new();
    assert_eq!(
        mouse.step(Event::Press(MouseButton::WheelUp, 7, 7)),
        act(Some(Control::ZoomIn), None)
    );
    assert_eq!(mouse.position(), (0, 0));
    mouse.step(Event::Press(MouseButton::Left, 1, 1));
    mouse.step(Event::Hold(2, 3));
    assert_eq!(
        mouse.step(Event::Press(MouseButton::WheelDown, 7, 7)),
        act(Some(Control::ZoomOut), Some(Drag::Grab(1, 2)))
    );
}

#[test]
fn arrow_keys_roll() {
    let mut mouse = MouseState::new();
    assert_eq!(mouse.step(Event::KeyLeft), act(Some(Control::RollLeft), None));
    assert_eq!(mouse.step(Event::KeyRight), act(Some(Control::RollRight), None));
    assert_eq!(mouse.step(Event::Other), act(None, None));
}

#[test]
fn a_frame_starts_without_movement() {
    let mut mouse = MouseState::new();
    mouse.step(Event::Press(MouseButton::Left, 1, 1));
    mouse.step(Event::Hold(5, 5));
    mouse.begin_frame();
    assert_eq!(mouse.movement(), (0, 0));
    assert_eq!(mouse.position(), (5, 5));
    assert_eq!(mouse.step(Event::Other), act(None, Some(Drag::Grab(0, 0))));
}

#[test]
fn movement_spans_the_whole_terminal() {
    let mut mouse = MouseState::new();
    mouse.step(Event::Press(MouseButton::Left, u16::MAX, 0));
    assert_eq!(
        mouse.step(Event::Hold(0, u16::MAX)),
        act(None, Some(Drag::Grab(-65535, 65535)))
    );
}
