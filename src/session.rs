use crate::canvas::{blank_cell, default_style, diff_of, Canvas, Cell, RenderBuffer};
use crate::term::renders;
use crate::world::{RoomEvent, UserInput};
use vstd::prelude::*;

verus! {

/// The action that one frame of client input stands for: `ESC` quits,
/// `w`, `a`, `s` and `d` move; anything else stands for nothing.
pub open spec fn input_of(b: Seq<u8>) -> Option<UserInput> {
    if b == seq![0x1bu8] {
        Some(UserInput::Quit)
    } else if b == seq![0x77u8] {
        Some(UserInput::MoveUp)
    } else if b == seq![0x61u8] {
        Some(UserInput::MoveLeft)
    } else if b == seq![0x64u8] {
        Some(UserInput::MoveRight)
    } else if b == seq![0x73u8] {
        Some(UserInput::MoveDown)
    } else {
        None
    }
}

pub fn parse_input(input: &[u8]) -> (r: Option<UserInput>)
    ensures
        r == input_of(input@),
{
    if input.len() != 1 {
        proof {
            assert(input@ != seq![0x1bu8]);
            assert(input@ != seq![0x77u8]);
            assert(input@ != seq![0x61u8]);
            assert(input@ != seq![0x64u8]);
            assert(input@ != seq![0x73u8]);
        }
        return None;
    }
    let b = input[0];
    proof {
        assert(input@ =~= seq![b]);
    }
    if b == 0x1b {
        Some(UserInput::Quit)
    } else if b == 0x77 {
        Some(UserInput::MoveUp)
    } else if b == 0x61 {
        Some(UserInput::MoveLeft)
    } else if b == 0x64 {
        Some(UserInput::MoveRight)
    } else if b == 0x73 {
        Some(UserInput::MoveDown)
    } else {
        proof {
            assert(seq![b] != seq![0x1bu8]);
            assert(seq![b] != seq![0x77u8]);
            assert(seq![b] != seq![0x61u8]);
            assert(seq![b] != seq![0x64u8]);
            assert(seq![b] != seq![0x73u8]);
        }
        None
    }
}

/// What a session does after one read from its connection.
#[derive(Clone, Copy, Debug, PartialEq, Eq, Structural)]
pub enum SessionAction {
    /// Deregister from the world, restore the screen and stop.
    Leave,
    /// Apply the action to the world on this peer's behalf.
    Act(UserInput),
    /// Wait for the next input or event.
    Ignore,
}

pub open spec fn action_of(read: Option<Seq<u8>>) -> SessionAction {
    match read {
        None => SessionAction::Leave,
        Some(b) => match input_of(b) {
            Some(UserInput::Quit) => SessionAction::Leave,
            Some(m) => SessionAction::Act(m),
            None => SessionAction::Ignore,
        },
    }
}

/// Decides on one read: `None` stands for a connection that closed or
/// failed, which ends the session like a quit does; unknown input is ignored.
pub fn next_action(read: Option<&[u8]>) -> (r: SessionAction)
    ensures
        r == action_of(
            match read {
                Some(b) => Some(b@),
                None => None,
            },
        ),
{
    match read {
        None => SessionAction::Leave,
        Some(b) => match parse_input(b) {
            Some(UserInput::Quit) => SessionAction::Leave,
            Some(m) => SessionAction::Act(m),
            None => SessionAction::Ignore,
        },
    }
}

/// The glyph that marks a peer.
pub open spec fn peer_cell() -> Cell {
    Cell { ch: '@', style: default_style() }
}

/// What the room shows at `(x, y)`: a peer's mark where some peer stands.
pub open spec fn room_cell(positions: Seq<(usize, usize)>, x: int, y: int) -> Cell {
    if positions.contains((x as usize, y as usize)) {
        peer_cell()
    } else {
        blank_cell()
    }
}

/// Every position lies on a canvas of the given size.
pub open spec fn all_within(positions: Seq<(usize, usize)>, w: nat, h: nat) -> bool {
    forall|k: int| 0 <= k < positions.len() ==> #[trigger] positions[k].0 < w && positions[k].1 < h
}

/// Draws the room that `ev` describes on a cleared frame and returns the
/// bytes that bring the client's screen from the last frame to it.
pub fn handle_event(ev: &RoomEvent, canvas: &mut Canvas) -> (r: Vec<u8>)
    requires
        old(canvas).wf(),
        all_within(ev.positions(), old(canvas).snapshot().w(), old(canvas).snapshot().h()),
    ensures
        final(canvas).wf(),
        final(canvas).snapshot().same_shape(&old(canvas).snapshot()),
        forall|x: int, y: int|
            #![trigger final(canvas).snapshot().at(x, y)]
            old(canvas).snapshot().in_bounds(x, y) ==> final(canvas).snapshot().at(x, y)
                == room_cell(ev.positions(), x, y),
        renders(r@, diff_of(&final(canvas).snapshot(), &old(canvas).snapshot())),
{
    let RoomEvent::PeerMoved(positions) = ev;
    let w = canvas.width();
    let h = canvas.height();
    let mut frame = RenderBuffer::new(w, h);
    proof {
        assert forall|a: int, b: int|
            #![trigger frame.at(a, b)]
            frame.in_bounds(a, b) implies frame.at(a, b) == room_cell(positions@.take(0), a, b) by {
            crate::canvas::lemma_index_in_grid(a, b, w as int, h as int);
        }
    }
    let mut k: usize = 0;
    while k < positions.len()
        invariant
            frame.wf(),
            frame.w() == w,
            frame.h() == h,
            w == canvas.snapshot().w(),
            h == canvas.snapshot().h(),
            canvas.wf(),
            positions@ == ev.positions(),
            all_within(positions@, w as nat, h as nat),
            k <= positions@.len(),
            forall|a: int, b: int|
                #![trigger frame.at(a, b)]
                frame.in_bounds(a, b) ==> frame.at(a, b) == room_cell(positions@.take(k as int), a, b),
        decreases positions@.len() - k,
    {
        let (px, py) = positions[k];
        assert(positions@[k as int].0 < w && positions@[k as int].1 < h);
        let ghost before = frame;
        frame.set_char('@', None, px, py);
        proof {
            let done = positions@.take(k as int);
            let next = positions@.take(k + 1);
            assert(next =~= done.push((px, py)));
            assert forall|a: int, b: int|
                #![trigger frame.at(a, b)]
                frame.in_bounds(a, b) implies frame.at(a, b) == room_cell(next, a, b) by {
                if a == px && b == py {
                    assert(next[k as int] == (a as usize, b as usize));
                } else {
                    assert(frame.at(a, b) == before.at(a, b));
                    if done.contains((a as usize, b as usize)) {
                        let j = choose|j: int| 0 <= j < done.len() && done[j] == (a as usize, b as usize);
                        assert(next[j] == done[j]);
                    }
                    if next.contains((a as usize, b as usize)) {
                        let j = choose|j: int| 0 <= j < next.len() && next[j] == (a as usize, b as usize);
                        if j < k {
                            assert(done[j] == next[j]);
                        }
                    }
                }
            }
        }
        k = k + 1;
    }
    proof {
        assert(positions@.take(positions@.len() as int) =~= positions@);
    }
    let mut out: Vec<u8> = Vec::new();
    let ghost shown = canvas.snapshot();
    canvas.redraw(&mut out, frame);
    proof {
        assert(out@.subrange(0, out@.len() as int) =~= out@);
    }
    out
}

} // verus!
