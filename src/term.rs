use crate::canvas::{BufferChange, Color};
use crossterm::QueueableCommand;
use vstd::prelude::*;

verus! {

/// `ESC [` followed by `body`: a control sequence.
pub open spec fn csi(body: Seq<u8>) -> Seq<u8> {
    seq![0x1bu8, 0x5bu8] + body
}

/// The decimal digits of `n`, most significant first.
pub open spec fn decimal(n: nat) -> Seq<u8>
    decreases n,
{
    if n < 10 {
        seq![(48 + n) as u8]
    } else {
        decimal(n / 10).push((48 + n % 10) as u8)
    }
}

/// Moves the cursor to column `x`, row `y` (both from 0); the terminal counts from 1.
pub open spec fn move_to_bytes(x: nat, y: nat) -> Seq<u8> {
    csi(decimal(y + 1) + seq![0x3bu8] + decimal(x + 1) + seq![0x48u8])
}

/// The parameters that select a colour after the `38;` or `48;` prefix.
pub open spec fn color_params(c: Color) -> Seq<u8> {
    match c {
        Color::Ansi(n) => seq![0x35u8, 0x3bu8] + decimal(n as nat),
        Color::Rgb { r, g, b } => seq![0x32u8, 0x3bu8] + decimal(r as nat) + seq![0x3bu8]
            + decimal(g as nat) + seq![0x3bu8] + decimal(b as nat),
    }
}

/// Selects a foreground (`layer` 3) or background (`layer` 4) colour, or
/// resets it. With colour output switched off the parameters are left out.
pub open spec fn color_bytes(layer: u8, c: Option<Color>, colors_on: bool) -> Seq<u8> {
    let params = if !colors_on {
        seq![]
    } else {
        match c {
            None => seq![(48 + layer) as u8, 0x39u8],
            Some(col) => seq![(48 + layer) as u8, 0x38u8, 0x3bu8] + color_params(col),
        }
    };
    csi(params + seq![0x6du8])
}

/// Bold (`1`) or normal intensity (`22`).
pub open spec fn intensity_bytes(bold: bool) -> Seq<u8> {
    if bold {
        csi(seq![0x31u8, 0x6du8])
    } else {
        csi(seq![0x32u8, 0x32u8, 0x6du8])
    }
}

/// The UTF-8 encoding of `c`.
pub open spec fn utf8(c: char) -> Seq<u8> {
    let v = c as u32;
    if v < 0x80 {
        seq![v as u8]
    } else if v < 0x800 {
        seq![(0xc0 | (v >> 6)) as u8, (0x80 | (v & 0x3f)) as u8]
    } else if v < 0x10000 {
        seq![
            (0xe0 | (v >> 12)) as u8,
            (0x80 | ((v >> 6) & 0x3f)) as u8,
            (0x80 | (v & 0x3f)) as u8,
        ]
    } else {
        seq![
            (0xf0 | (v >> 18)) as u8,
            (0x80 | ((v >> 12) & 0x3f)) as u8,
            (0x80 | ((v >> 6) & 0x3f)) as u8,
            (0x80 | (v & 0x3f)) as u8,
        ]
    }
}

/// What one change puts on the wire: cursor, colours, intensity, character.
/// `on` says whether colour output was on for the foreground and the background.
pub open spec fn change_bytes(c: BufferChange, on: (bool, bool)) -> Seq<u8> {
    move_to_bytes(c.x as nat, c.y as nat) + color_bytes(3, c.cell.style.fg, on.0) + color_bytes(
        4,
        c.cell.style.bg,
        on.1,
    ) + intensity_bytes(c.cell.style.bold) + utf8(c.cell.ch)
}

/// The bytes of all `changes` in order, with colour output as `on` gives it.
pub open spec fn frame_bytes(changes: Seq<BufferChange>, on: Seq<(bool, bool)>) -> Seq<u8>
    decreases changes.len(),
{
    if changes.len() == 0 {
        seq![]
    } else {
        frame_bytes(changes.drop_last(), on.drop_last()) + change_bytes(
            changes.last(),
            on.last(),
        )
    }
}

/// `bytes` is what `changes` put on the wire, whether or not colour output is on.
pub open spec fn renders(bytes: Seq<u8>, changes: Seq<BufferChange>) -> bool {
    exists|on: Seq<(bool, bool)>|
        on.len() == changes.len() && bytes == #[trigger] frame_bytes(changes, on)
}

/// Every change lies where the cursor can be moved.
pub open spec fn addressable(changes: Seq<BufferChange>) -> bool {
    forall|k: int| 0 <= k < changes.len() ==> changes[k].x < 65535 && changes[k].y < 65535
}

pub open spec fn enter_alternate_screen_bytes() -> Seq<u8> {
    csi(seq![0x3fu8, 0x31u8, 0x30u8, 0x34u8, 0x39u8, 0x68u8])
}

pub open spec fn leave_alternate_screen_bytes() -> Seq<u8> {
    csi(seq![0x3fu8, 0x31u8, 0x30u8, 0x34u8, 0x39u8, 0x6cu8])
}

pub open spec fn hide_cursor_bytes() -> Seq<u8> {
    csi(seq![0x3fu8, 0x32u8, 0x35u8, 0x6cu8])
}

pub open spec fn show_cursor_bytes() -> Seq<u8> {
    csi(seq![0x3fu8, 0x32u8, 0x35u8, 0x68u8])
}

/// Relies on crossterm's `MoveTo` queued on a `Vec<u8>`: it appends
/// `ESC [ y+1 ; x+1 H`; writing into a `Vec` does not fail.
#[verifier::external_body]
fn queue_move_to(out: &mut Vec<u8>, x: u16, y: u16)
    requires
        x < 65535,
        y < 65535,
    ensures
        final(out)@ == old(out)@ + move_to_bytes(x as nat, y as nat),
{
    let _ = out.queue(crossterm::cursor::MoveTo(x, y));
}

/// Relies on crossterm's `SetForegroundColor` queued on a `Vec<u8>`: it
/// appends `ESC [ 38;5;n m`, `ESC [ 38;2;r;g;b m` or, for a reset, `ESC [ 39 m`;
/// where crossterm has colour output switched off (`NO_COLOR`), `ESC [ m`.
#[verifier::external_body]
fn queue_foreground(out: &mut Vec<u8>, c: Option<Color>)
    ensures
        final(out)@ == old(out)@ + color_bytes(3, c, true) || final(out)@ == old(out)@
            + color_bytes(3, c, false),
{
    let color = match c {
        None => crossterm::style::Color::Reset,
        Some(Color::Ansi(n)) => crossterm::style::Color::AnsiValue(n),
        Some(Color::Rgb { r, g, b }) => crossterm::style::Color::Rgb { r, g, b },
    };
    let _ = out.queue(crossterm::style::SetForegroundColor(color));
}

/// Relies on crossterm's `SetBackgroundColor` queued on a `Vec<u8>`: as the
/// foreground, with `48` and `49` in place of `38` and `39`.
#[verifier::external_body]
fn queue_background(out: &mut Vec<u8>, c: Option<Color>)
    ensures
        final(out)@ == old(out)@ + color_bytes(4, c, true) || final(out)@ == old(out)@
            + color_bytes(4, c, false),
{
    let color = match c {
        None => crossterm::style::Color::Reset,
        Some(Color::Ansi(n)) => crossterm::style::Color::AnsiValue(n),
        Some(Color::Rgb { r, g, b }) => crossterm::style::Color::Rgb { r, g, b },
    };
    let _ = out.queue(crossterm::style::SetBackgroundColor(color));
}

/// Relies on crossterm's `SetAttribute` with `Bold` (`ESC [ 1 m`) or
/// `NormalIntensity` (`ESC [ 22 m`), queued on a `Vec<u8>`.
#[verifier::external_body]
fn queue_intensity(out: &mut Vec<u8>, bold: bool)
    ensures
        final(out)@ == old(out)@ + intensity_bytes(bold),
{
    let attr = if bold {
        crossterm::style::Attribute::Bold
    } else {
        crossterm::style::Attribute::NormalIntensity
    };
    let _ = out.queue(crossterm::style::SetAttribute(attr));
}

/// Relies on crossterm's `Print` of a `char` queued on a `Vec<u8>`: it
/// appends the character's UTF-8 encoding.
#[verifier::external_body]
fn queue_print(out: &mut Vec<u8>, ch: char)
    ensures
        final(out)@ == old(out)@ + utf8(ch),
{
    let _ = out.queue(crossterm::style::Print(ch));
}

/// Relies on crossterm's `EnterAlternateScreen` (`ESC [ ?1049h`) queued on a `Vec<u8>`.
#[verifier::external_body]
fn queue_enter_alternate_screen(out: &mut Vec<u8>)
    ensures
        final(out)@ == old(out)@ + enter_alternate_screen_bytes(),
{
    let _ = out.queue(crossterm::terminal::EnterAlternateScreen);
}

/// Relies on crossterm's `LeaveAlternateScreen` (`ESC [ ?1049l`) queued on a `Vec<u8>`.
#[verifier::external_body]
fn queue_leave_alternate_screen(out: &mut Vec<u8>)
    ensures
        final(out)@ == old(out)@ + leave_alternate_screen_bytes(),
{
    let _ = out.queue(crossterm::terminal::LeaveAlternateScreen);
}

/// Relies on crossterm's cursor `Hide` (`ESC [ ?25l`) queued on a `Vec<u8>`.
#[verifier::external_body]
fn queue_hide_cursor(out: &mut Vec<u8>)
    ensures
        final(out)@ == old(out)@ + hide_cursor_bytes(),
{
    let _ = out.queue(crossterm::cursor::Hide);
}

/// Relies on crossterm's cursor `Show` (`ESC [ ?25h`) queued on a `Vec<u8>`.
#[verifier::external_body]
fn queue_show_cursor(out: &mut Vec<u8>)
    ensures
        final(out)@ == old(out)@ + show_cursor_bytes(),
{
    let _ = out.queue(crossterm::cursor::Show);
}

/// Appends the bytes of one change to `out`.
fn write_change(out: &mut Vec<u8>, c: &BufferChange) -> (on: Ghost<(bool, bool)>)
    requires
        c.x < 65535,
        c.y < 65535,
    ensures
        final(out)@ == old(out)@ + change_bytes(*c, on@),
{
    let ghost start = out@;
    queue_move_to(out, c.x as u16, c.y as u16);
    let ghost after_move = out@;
    queue_foreground(out, c.cell.style.fg);
    let ghost fg_on = out@ == after_move + color_bytes(3, c.cell.style.fg, true);
    let ghost after_fg = out@;
    queue_background(out, c.cell.style.bg);
    let ghost bg_on = out@ == after_fg + color_bytes(4, c.cell.style.bg, true);
    queue_intensity(out, c.cell.style.bold);
    queue_print(out, c.cell.ch);
    let ghost on = (fg_on, bg_on);
    assert(out@ =~= start + change_bytes(*c, on));
    Ghost(on)
}

/// Appends the bytes of every change, in order, to `out`.
pub fn write_changes(out: &mut Vec<u8>, changes: &Vec<BufferChange>)
    requires
        addressable(changes@),
    ensures
        final(out)@.len() >= old(out)@.len(),
        final(out)@ == old(out)@ + final(out)@.subrange(
            old(out)@.len() as int,
            final(out)@.len() as int,
        ),
        renders(final(out)@.subrange(old(out)@.len() as int, final(out)@.len() as int), changes@),
        changes@.len() == 0 ==> final(out)@ == old(out)@,
{
    let ghost start = out@;
    let ghost mut on: Seq<(bool, bool)> = seq![];
    let mut k: usize = 0;
    while k < changes.len()
        invariant
            addressable(changes@),
            k <= changes@.len(),
            on.len() == k,
            out@ == start + frame_bytes(changes@.take(k as int), on),
        decreases changes@.len() - k,
    {
        let flags = write_change(out, &changes[k]);
        proof {
            let prev = on;
            on = on.push(flags@);
            let taken = changes@.take(k + 1);
            assert(taken.drop_last() =~= changes@.take(k as int));
            assert(on.drop_last() =~= prev);
        }
        k = k + 1;
    }
    proof {
        assert(changes@.take(changes@.len() as int) =~= changes@);
        let tail = out@.subrange(start.len() as int, out@.len() as int);
        assert(tail =~= frame_bytes(changes@, on));
        assert(out@ =~= start + tail);
        if changes@.len() == 0 {
            assert(tail =~= Seq::<u8>::empty());
            assert(out@ =~= start);
        }
    }
}

/// The bytes that switch a terminal to the alternate screen, hide the cursor
/// and put it in the top-left corner.
pub fn clear_screen() -> (r: Vec<u8>)
    ensures
        r@ == enter_alternate_screen_bytes() + hide_cursor_bytes() + move_to_bytes(0, 0),
{
    let mut buf: Vec<u8> = Vec::new();
    queue_enter_alternate_screen(&mut buf);
    queue_hide_cursor(&mut buf);
    queue_move_to(&mut buf, 0, 0);
    assert(buf@ =~= enter_alternate_screen_bytes() + hide_cursor_bytes() + move_to_bytes(0, 0));
    buf
}

/// The bytes that leave the alternate screen and show the cursor again.
pub fn restore_screen() -> (r: Vec<u8>)
    ensures
        r@ == leave_alternate_screen_bytes() + show_cursor_bytes(),
{
    let mut buf: Vec<u8> = Vec::new();
    queue_leave_alternate_screen(&mut buf);
    queue_show_cursor(&mut buf);
    assert(buf@ =~= leave_alternate_screen_bytes() + show_cursor_bytes());
    buf
}

} // verus!
