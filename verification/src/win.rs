//! What the window's event loop does with each event.
use vstd::prelude::*;

verus! {

/// The window events that the loop tells apart.
#[derive(Clone, Copy, Debug, PartialEq, Eq, Structural)]
pub enum WindowEvent {
    Resized,
    RedrawRequested,
    CloseRequested,
    Other,
}

/// The loop events that the loop tells apart.
#[derive(Clone, Copy, Debug, PartialEq, Eq, Structural)]
pub enum Event {
    WindowEvent(WindowEvent),
    EventsCleared,
    Other,
}

/// Whether the loop waits for the next event or ends.
#[derive(Clone, Copy, Debug, PartialEq, Eq, Structural)]
pub enum ControlFlow {
    Wait,
    Exit,
}

/// What the loop does for an event.
#[derive(Clone, Copy, Debug, PartialEq, Eq, Structural)]
pub enum WinAction {
    /// Hand the new size to the callback's `resize`.
    Resize,
    /// Call the callback's `call_update`.
    Update,
    /// Ask the window for a redraw.
    RequestRedraw,
    Nothing,
}

/// The loop's answer to one event: a resize goes to `resize`, a redraw
/// request to `call_update`, a close request ends the loop, and when the
/// event queue is drained a redraw is asked for; the loop otherwise waits.
pub fn handle_event(event: Event) -> (r: (WinAction, ControlFlow))
    ensures
        r == (match event {
            Event::WindowEvent(WindowEvent::Resized) => (WinAction::Resize, ControlFlow::Wait),
            Event::WindowEvent(WindowEvent::RedrawRequested) => (WinAction::Update, ControlFlow::Wait),
            Event::WindowEvent(WindowEvent::CloseRequested) => (WinAction::Nothing, ControlFlow::Exit),
            Event::EventsCleared => (WinAction::RequestRedraw, ControlFlow::Wait),
            _ => (WinAction::Nothing, ControlFlow::Wait),
        }),
{
    let mut control_flow = ControlFlow::Wait;
    let mut action = WinAction::Nothing;
    match event {
        Event::WindowEvent(e) => {
            match e {
                WindowEvent::Resized => {
                    action = WinAction::Resize;
                },
                WindowEvent::RedrawRequested => {
                    action = WinAction::Update;
                },
                WindowEvent::CloseRequested => {
                    control_flow = ControlFlow::Exit;
                },
                WindowEvent::Other => {},
            }
        },
        Event::EventsCleared => {
            action = WinAction::RequestRedraw;
        },
        Event::Other => {},
    }
    (action, control_flow)
}

} // verus!
