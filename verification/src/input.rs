//! From the events of keyboard and mouse to the gestures that move the camera.

use vstd::prelude::*;

verus! {

/// A button of the mouse.
#[derive(Debug, Clone, Copy, PartialEq, Eq, Structural)]
pub enum MouseButton {
    Left,
    Right,
    Middle,
    WheelUp,
    WheelDown,
    WheelLeft,
    WheelRight,
}

/// An event of keyboard or mouse. The places of the mouse are a column and a
/// row of the terminal, both counted from zero.
#[derive(Debug, Clone, Copy, PartialEq, Eq, Structural)]
pub enum Event {
    /// The key to leave with.
    Quit,
    /// The arrow key to the left.
    KeyLeft,
    /// The arrow key to the right.
    KeyRight,
    Press(MouseButton, u16, u16),
    Release(u16, u16),
    Hold(u16, u16),
    /// Any other event.
    Other,
}

/// A move of the camera that needs no drag of the mouse.
#[derive(Debug, Clone, Copy, PartialEq, Eq, Structural)]
pub enum Control {
    ZoomIn,
    ZoomOut,
    RollLeft,
    RollRight,
}

/// A drag of the mouse, by the columns and rows that it went.
#[derive(Debug, Clone, Copy, PartialEq, Eq, Structural)]
pub enum Drag {
    /// Turn the camera round the point that it looks at.
    Grab(isize, isize),
    /// Shift the camera and the point that it looks at.
    Pan(isize, isize),
}

/// What is to be done after an event: leave, or first `control` and then
/// `drag`, as far as each is there.
#[derive(Debug, Clone, Copy, PartialEq, Eq, Structural)]
pub enum Reaction {
    Quit,
    Act { control: Option<Control>, drag: Option<Drag> },
}

/// What is known of the mouse, as a mathematical value.
pub struct MouseModel {
    pub left: bool,
    pub right: bool,
    pub pos: (int, int),
    pub movement: (int, int),
}

/// What is known of the mouse: which buttons are held, where it was last
/// seen, and how far it went with the last event.
#[derive(Debug, Clone, Copy)]
pub struct MouseState {
    left: bool,
    right: bool,
    pos: (usize, usize),
    movement: (isize, isize),
}

impl View for MouseState {
    type V = MouseModel;

    closed spec fn view(&self) -> MouseModel {
        MouseModel {
            left: self.left,
            right: self.right,
            pos: (self.pos.0 as int, self.pos.1 as int),
            movement: (self.movement.0 as int, self.movement.1 as int),
        }
    }
}

/// What is known of the mouse after an event.
pub open spec fn next_mouse(mouse: MouseModel, event: Event) -> MouseModel {
    match event {
        Event::Press(button, x, y) => if button == MouseButton::WheelUp || button
            == MouseButton::WheelDown {
            mouse
        } else {
            MouseModel {
                left: mouse.left || button == MouseButton::Left,
                right: mouse.right || button == MouseButton::Right,
                pos: (x as int, y as int),
                movement: (0, 0),
            }
        },
        Event::Release(x, y) => MouseModel {
            left: false,
            right: false,
            pos: (x as int, y as int),
            movement: (x - mouse.pos.0, y - mouse.pos.1),
        },
        Event::Hold(x, y) => MouseModel {
            pos: (x as int, y as int),
            movement: (x - mouse.pos.0, y - mouse.pos.1),
            ..mouse
        },
        _ => mouse,
    }
}

/// The move that an event asks for by itself.
pub open spec fn control_of(event: Event) -> Option<Control> {
    match event {
        Event::Press(MouseButton::WheelUp, _, _) => Some(Control::ZoomIn),
        Event::Press(MouseButton::WheelDown, _, _) => Some(Control::ZoomOut),
        Event::KeyLeft => Some(Control::RollLeft),
        Event::KeyRight => Some(Control::RollRight),
        _ => None,
    }
}

/// The drag that follows an event, where `mouse` is what is known after it:
/// with the left button held, the mouse grabs, and with the right one held
/// too, it pans. A hold that went nowhere drags nothing.
pub open spec fn drag_of(mouse: MouseModel, event: Event) -> Option<Drag> {
    if !mouse.left || (event is Hold && mouse.movement == (0int, 0int)) {
        None
    } else if !mouse.right {
        Some(Drag::Grab(mouse.movement.0 as isize, mouse.movement.1 as isize))
    } else {
        Some(Drag::Pan(mouse.movement.0 as isize, mouse.movement.1 as isize))
    }
}

/// What is to be done after an event, where `mouse` is what was known before it.
pub open spec fn reaction_of(mouse: MouseModel, event: Event) -> Reaction {
    if event is Quit {
        Reaction::Quit
    } else {
        Reaction::Act {
            control: control_of(event),
            drag: drag_of(next_mouse(mouse, event), event),
        }
    }
}

impl MouseState {
    #[verifier::type_invariant]
    pub closed spec fn inv(self) -> bool {
        &&& self.pos.0 <= u16::MAX
        &&& self.pos.1 <= u16::MAX
        &&& -(u16::MAX as int) <= self.movement.0 <= u16::MAX
        &&& -(u16::MAX as int) <= self.movement.1 <= u16::MAX
    }

    /// No button is held, and the mouse rests in the upper left corner.
    pub fn new() -> (mouse: Self)
        ensures
            mouse@ == (MouseModel { left: false, right: false, pos: (0, 0), movement: (0, 0) }),
    {
        Self { left: false, right: false, pos: (0, 0), movement: (0, 0) }
    }

    pub fn left(&self) -> (held: bool)
        ensures
            held == self@.left,
    {
        self.left
    }

    pub fn right(&self) -> (held: bool)
        ensures
            held == self@.right,
    {
        self.right
    }

    pub fn position(&self) -> (pos: (usize, usize))
        ensures
            pos.0 == self@.pos.0,
            pos.1 == self@.pos.1,
    {
        self.pos
    }

    pub fn movement(&self) -> (movement: (isize, isize))
        ensures
            movement.0 == self@.movement.0,
            movement.1 == self@.movement.1,
    {
        self.movement
    }

    /// Starts a frame: the mouse has not moved in it yet.
    pub fn begin_frame(&mut self)
        ensures
            final(self)@ == (MouseModel { movement: (0, 0), ..old(self)@ }),
    {
        proof {
            use_type_invariant(&*self);
        }
        self.movement = (0, 0);
    }

    /// Takes note of an event and tells what is to be done after it. Unless
    /// the reaction is to leave, the state is the one after the event.
    pub fn step(&mut self, event: Event) -> (reaction: Reaction)
        ensures
            reaction == reaction_of(old(self)@, event),
            final(self)@ == if event is Quit {
                old(self)@
            } else {
                next_mouse(old(self)@, event)
            },
    {
        proof {
            use_type_invariant(&*self);
        }
        let mut control: Option<Control> = None;
        let mut still = false;
        match event {
            Event::Quit => {
                return Reaction::Quit;
            },
            Event::Press(button, x, y) => match button {
                MouseButton::WheelUp => {
                    control = Some(Control::ZoomIn);
                },
                MouseButton::WheelDown => {
                    control = Some(Control::ZoomOut);
                },
                _ => {
                    let left = self.left || button == MouseButton::Left;
                    let right = self.right || button == MouseButton::Right;
                    *self = Self {
                        left,
                        right,
                        pos: (x as usize, y as usize),
                        movement: (0, 0),
                    };
                },
            },
            Event::Release(x, y) => {
                let movement = (
                    x as isize - self.pos.0 as isize,
                    y as isize - self.pos.1 as isize,
                );
                *self = Self {
                    left: false,
                    right: false,
                    pos: (x as usize, y as usize),
                    movement,
                };
            },
            Event::Hold(x, y) => {
                let movement = (
                    x as isize - self.pos.0 as isize,
                    y as isize - self.pos.1 as isize,
                );
                *self = Self {
                    left: self.left,
                    right: self.right,
                    pos: (x as usize, y as usize),
                    movement,
                };
                still = movement.0 == 0 && movement.1 == 0;
            },
            Event::KeyLeft => {
                control = Some(Control::RollLeft);
            },
            Event::KeyRight => {
                control = Some(Control::RollRight);
            },
            Event::Other => {},
        }
        let drag = if !self.left || still {
            None
        } else if !self.right {
            Some(Drag::Grab(self.movement.0, self.movement.1))
        } else {
            Some(Drag::Pan(self.movement.0, self.movement.1))
        };
        Reaction::Act { control, drag }
    }
}

} // verus!
