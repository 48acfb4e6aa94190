//! The engine-side face of a display frame.  A frame runs on its own
//! thread behind a pair of channels; the engine talks to it only through
//! `FrameProxy`, sending commands and listening for user events.  The
//! rendering loop itself lives with the host, outside the engine.

use vstd::prelude::*;

use crate::keymap::UserEvent;

verus! {

/// What a frame shows: the text of the buffer, as characters.
#[derive(Debug)]
pub struct Content {
    pub text: Vec<char>,
}

impl Content {
    /// Empty content.
    pub fn new() -> (r: Content)
        ensures
            r.text@ == Seq::<char>::empty(),
    {
        Content { text: Vec::new() }
    }
}

/// A command for the frame: show the window, redraw with new content, or
/// shut down.
#[derive(Debug)]
pub enum FrameCmd {
    Show,
    Update(Content),
    Quit,
}

/// An OS window that can run its event loop.
pub trait Frame {
    /// Run the frame's main loop until it quits.
    fn start(&mut self);
}

#[verifier::external_type_specification]
#[verifier::external_body]
#[verifier::reject_recursive_types(T)]
pub struct ExSender<T>(std::sync::mpsc::Sender<T>);

#[verifier::external_type_specification]
#[verifier::external_body]
#[verifier::reject_recursive_types(T)]
pub struct ExReceiver<T>(std::sync::mpsc::Receiver<T>);

#[verifier::external_type_specification]
#[verifier::external_body]
#[verifier::reject_recursive_types(T)]
pub struct ExSendError<T>(std::sync::mpsc::SendError<T>);

#[verifier::external_type_specification]
#[verifier::external_body]
pub struct ExRecvError(std::sync::mpsc::RecvError);

/// Relies on std::sync::mpsc::Sender::send: hands the command to the
/// receiving end, failing only when that end is gone; the command itself
/// is never altered.
#[verifier::external_body]
fn send_cmd(s: &std::sync::mpsc::Sender<FrameCmd>, cmd: FrameCmd) -> (r: Result<
    (),
    std::sync::mpsc::SendError<FrameCmd>,
>) {
    s.send(cmd)
}

/// Relies on std::sync::mpsc::Receiver::recv: blocks for the next event,
/// failing only when the sending end is gone and the queue is drained.
#[verifier::external_body]
fn recv_event(r: &std::sync::mpsc::Receiver<UserEvent>) -> (res: Result<
    UserEvent,
    std::sync::mpsc::RecvError,
>) {
    r.recv()
}

/// The engine's handle on a frame running elsewhere: commands go out on
/// one channel, user events come back on the other.
pub struct FrameProxy {
    pub recv: std::sync::mpsc::Receiver<UserEvent>,
    pub send: std::sync::mpsc::Sender<FrameCmd>,
}

impl FrameProxy {
    /// A proxy from the engine's ends of the two channels.
    pub fn new(
        send: std::sync::mpsc::Sender<FrameCmd>,
        recv: std::sync::mpsc::Receiver<UserEvent>,
    ) -> FrameProxy {
        FrameProxy { recv, send }
    }

    /// Ask the frame to show itself.
    pub fn show(&self) -> Result<(), std::sync::mpsc::SendError<FrameCmd>> {
        send_cmd(&self.send, FrameCmd::Show)
    }

    /// Ask the frame to redraw with new content.
    pub fn update(&self, cont: Content) -> Result<(), std::sync::mpsc::SendError<FrameCmd>> {
        send_cmd(&self.send, FrameCmd::Update(cont))
    }

    /// Ask the frame to shut down.
    pub fn quit(&self) -> Result<(), std::sync::mpsc::SendError<FrameCmd>> {
        send_cmd(&self.send, FrameCmd::Quit)
    }

    /// Wait for the next user event from the frame.
    pub fn listen(&self) -> Result<UserEvent, std::sync::mpsc::RecvError> {
        recv_event(&self.recv)
    }
}

} // verus!
