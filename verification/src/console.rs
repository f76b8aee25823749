//! The console of the client: what its keys send, and the loop between the
//! user and the session.

use vstd::prelude::*;
use vstd::utf8::encode_utf8;
use crate::client::ClientDeadReason;
use crate::messages::{TerminalBufferView, TerminalInfoView};
use crate::packet::{clear_packet, Packet, PacketView};
use crate::session::{input_packet, terminal_info_packet, SessionEvent};
use crate::terminal_packet_type::{TERMINAL_BUFFER, TERMINAL_INFO};

verus! {

// ---------------------------------------------------------------------------
// Keys
// ---------------------------------------------------------------------------

/// A key.
#[derive(Debug, Clone, Copy, PartialEq, Eq, Structural)]
pub enum Key {
    Char(char),
    Enter,
    Backspace,
    Tab,
    BackTab,
    Esc,
    Left,
    Right,
    Up,
    Down,
    Home,
    End,
    PageUp,
    PageDown,
    Delete,
    Insert,
    /// A function key, by number.
    F(u8),
    /// Any other key.
    Other,
}

/// The upper case of an ASCII letter; any other character as it is.
pub open spec fn upper(c: char) -> char {
    if 'a' <= c <= 'z' {
        (c as u32 - 32) as char
    } else {
        c
    }
}

/// What a terminal sends for a character with the control key: for a letter or
/// a space the low five bits, for a question mark 0x1f, for anything else the
/// low eight bits.
pub open spec fn control_byte(c: char) -> u8 {
    if 'A' <= upper(c) <= 'Z' {
        (upper(c) as u32 - 64) as u8
    } else if c == ' ' {
        0
    } else if c == '?' {
        0x1f
    } else {
        (c as u32 % 256) as u8
    }
}

/// What a terminal sends for a function key.
pub open spec fn function_bytes(n: u8) -> Seq<u8> {
    if n == 1 {
        seq![0x1bu8, 79, 80]
    } else if n == 2 {
        seq![0x1bu8, 79, 81]
    } else if n == 3 {
        seq![0x1bu8, 79, 82]
    } else if n == 4 {
        seq![0x1bu8, 79, 83]
    } else if n == 5 {
        seq![0x1bu8, 91, 49, 53, 126]
    } else if n == 6 {
        seq![0x1bu8, 91, 49, 55, 126]
    } else if n == 7 {
        seq![0x1bu8, 91, 49, 56, 126]
    } else if n == 8 {
        seq![0x1bu8, 91, 49, 57, 126]
    } else if n == 9 {
        seq![0x1bu8, 91, 50, 48, 126]
    } else if n == 10 {
        seq![0x1bu8, 91, 50, 49, 126]
    } else if n == 11 {
        seq![0x1bu8, 91, 50, 51, 126]
    } else if n == 12 {
        seq![0x1bu8, 91, 50, 52, 126]
    } else {
        Seq::empty()
    }
}

/// What a terminal in raw mode sends for a key without the alt key.
pub open spec fn key_sequence(key: Key, ctrl: bool) -> Seq<u8> {
    match key {
        Key::Char(c) => if ctrl {
            seq![control_byte(c)]
        } else {
            encode_utf8(seq![c])
        },
        Key::Enter => seq![13u8],
        Key::Backspace => seq![0x7fu8],
        Key::Tab => seq![9u8],
        Key::BackTab => seq![0x1bu8, 91, 90],
        Key::Esc => seq![0x1bu8],
        Key::Left => seq![0x1bu8, 91, 68],
        Key::Right => seq![0x1bu8, 91, 67],
        Key::Up => seq![0x1bu8, 91, 65],
        Key::Down => seq![0x1bu8, 91, 66],
        Key::Home => seq![0x1bu8, 91, 72],
        Key::End => seq![0x1bu8, 91, 70],
        Key::PageUp => seq![0x1bu8, 91, 53, 126],
        Key::PageDown => seq![0x1bu8, 91, 54, 126],
        Key::Delete => seq![0x1bu8, 91, 51, 126],
        Key::Insert => seq![0x1bu8, 91, 50, 126],
        Key::F(n) => function_bytes(n),
        Key::Other => Seq::empty(),
    }
}

/// What a terminal in raw mode sends for a key: with the alt key an escape goes
/// first.
pub open spec fn key_bytes(key: Key, ctrl: bool, alt: bool) -> Seq<u8> {
    if alt {
        seq![0x1bu8] + key_sequence(key, ctrl)
    } else {
        key_sequence(key, ctrl)
    }
}

fn push3(out: &mut Vec<u8>, c: u8)
    ensures
        final(out)@ == old(out)@ + seq![0x1bu8, 91, c],
{
    out.push(0x1b);
    out.push(91);
    out.push(c);
    assert(out@ =~= old(out)@ + seq![0x1bu8, 91, c]);
}

fn push4(out: &mut Vec<u8>, c: u8)
    ensures
        final(out)@ == old(out)@ + seq![0x1bu8, 91, c, 126],
{
    push3(out, c);
    out.push(126);
    assert(out@ =~= old(out)@ + seq![0x1bu8, 91, c, 126]);
}

fn push5(out: &mut Vec<u8>, c: u8, d: u8)
    ensures
        final(out)@ == old(out)@ + seq![0x1bu8, 91, c, d, 126],
{
    push3(out, c);
    out.push(d);
    out.push(126);
    assert(out@ =~= old(out)@ + seq![0x1bu8, 91, c, d, 126]);
}

fn push_function(out: &mut Vec<u8>, n: u8)
    ensures
        final(out)@ == old(out)@ + function_bytes(n),
{
    match n {
        1 | 2 | 3 | 4 => {
            out.push(0x1b);
            out.push(79);
            out.push(79 + n);
        },
        5 => {
            push5(out, 49, 53);
        },
        6 => {
            push5(out, 49, 55);
        },
        7 => {
            push5(out, 49, 56);
        },
        8 => {
            push5(out, 49, 57);
        },
        9 => {
            push5(out, 50, 48);
        },
        10 => {
            push5(out, 50, 49);
        },
        11 => {
            push5(out, 50, 51);
        },
        12 => {
            push5(out, 50, 52);
        },
        _ => {},
    }
    assert(out@ =~= old(out)@ + function_bytes(n));
}

fn control_of(c: char) -> (res: u8)
    ensures
        res == control_byte(c),
{
    let n: u32 = c as u32;
    if 65 <= n && n <= 90 {
        (n - 64) as u8
    } else if 97 <= n && n <= 122 {
        (n - 96) as u8
    } else if c == ' ' {
        0
    } else if c == '?' {
        0x1f
    } else {
        (n % 256) as u8
    }
}

/// The bytes to send for a key; `None` where there are none.
pub fn key_to_bytes(key: Key, ctrl: bool, alt: bool) -> (res: Option<Vec<u8>>)
    ensures
        match res {
            Some(b) => b@ == key_bytes(key, ctrl, alt) && b@.len() > 0,
            None => key_bytes(key, ctrl, alt).len() == 0,
        },
{
    let mut out: Vec<u8> = Vec::new();
    if alt {
        out.push(0x1b);
    }
    let ghost head = out@;
    match key {
        Key::Char(c) => {
            if ctrl {
                out.push(control_of(c));
            } else {
                let mut s = String::new();
                s.push(c);
                assert(s@ =~= seq![c]);
                out.extend_from_slice(s.as_str().as_bytes());
            }
        },
        Key::Enter => {
            out.push(13);
        },
        Key::Backspace => {
            out.push(0x7f);
        },
        Key::Tab => {
            out.push(9);
        },
        Key::BackTab => {
            push3(&mut out, 90);
        },
        Key::Esc => {
            out.push(0x1b);
        },
        Key::Left => {
            push3(&mut out, 68);
        },
        Key::Right => {
            push3(&mut out, 67);
        },
        Key::Up => {
            push3(&mut out, 65);
        },
        Key::Down => {
            push3(&mut out, 66);
        },
        Key::Home => {
            push3(&mut out, 72);
        },
        Key::End => {
            push3(&mut out, 70);
        },
        Key::PageUp => {
            push4(&mut out, 53);
        },
        Key::PageDown => {
            push4(&mut out, 54);
        },
        Key::Delete => {
            push4(&mut out, 51);
        },
        Key::Insert => {
            push4(&mut out, 50);
        },
        Key::F(n) => {
            push_function(&mut out, n);
        },
        Key::Other => {},
    }
    assert(out@ =~= head + key_sequence(key, ctrl));
    assert(out@ =~= key_bytes(key, ctrl, alt));
    if out.len() == 0 {
        None
    } else {
        Some(out)
    }
}

// ---------------------------------------------------------------------------
// The loop
// ---------------------------------------------------------------------------

/// What happens at a console.
pub enum ConsoleEvent {
    /// The session put out an event, or has ended.
    Session(Option<SessionEvent>),
    /// The window was resized.
    Resize { columns: u16, rows: u16 },
    /// A key was pressed.
    Key { key: Key, ctrl: bool, alt: bool },
    /// Anything else that a terminal tells.
    Other,
    /// Bytes were read from input that is no terminal; none when it is gone.
    Input(Option<Vec<u8>>),
}

/// What is to be done.
pub enum ConsoleAction {
    /// Nothing.
    Nothing,
    /// Print bytes. If that fails, the client fails.
    Print(Vec<u8>),
    /// Write a packet to the session. If that fails, the client fails.
    Send(Packet),
    /// Write a packet to the session, whatever comes of it.
    Tell(Packet),
    /// The client is done; the session may have said why.
    Exit { reason: Option<ClientDeadReason> },
}

/// The packet that carries input to the shell.
pub open spec fn input_view(data: Seq<u8>) -> PacketView {
    clear_packet(TERMINAL_BUFFER, TerminalBufferView { buffer: Some(data) }.bytes())
}

/// The packet that tells the size of a window.
pub open spec fn size_view(columns: u16, rows: u16) -> PacketView {
    clear_packet(
        TERMINAL_INFO,
        TerminalInfoView {
            id: Some(Seq::empty()),
            row: Some(rows as i32),
            column: Some(columns as i32),
            width: Some(0),
            height: Some(0),
        }.bytes(),
    )
}

/// The packet that tells the size of a window.
pub fn size_packet(columns: u16, rows: u16) -> (res: Packet)
    ensures
        res@ == size_view(columns, rows),
{
    terminal_info_packet(rows as i32, columns as i32, 0, 0)
}

/// Whether `res` is what is to be done about what happened at a console: output
/// is printed, keys and input go to the shell, and the window's size is told.
/// Input that is gone leaves the output to be printed; the end of the session
/// ends the client.
pub open spec fn drives(event: ConsoleEvent, res: ConsoleAction) -> bool {
    match event {
        ConsoleEvent::Session(Some(SessionEvent::TerminalBuffer(b))) => res
            == ConsoleAction::Print(b),
        ConsoleEvent::Session(Some(SessionEvent::KeepAlive)) => res is Nothing,
        ConsoleEvent::Session(Some(SessionEvent::Other(_))) => res is Nothing,
        ConsoleEvent::Session(Some(SessionEvent::Dead(r))) => res == (ConsoleAction::Exit {
            reason: Some(r),
        }),
        ConsoleEvent::Session(None) => res == (ConsoleAction::Exit { reason: None }),
        ConsoleEvent::Resize { columns, rows } => res matches ConsoleAction::Tell(p) && p@
            == size_view(columns, rows),
        ConsoleEvent::Key { key, ctrl, alt } => if key_bytes(key, ctrl, alt).len() > 0 {
            res matches ConsoleAction::Send(p) && p@ == input_view(key_bytes(key, ctrl, alt))
        } else {
            res is Nothing
        },
        ConsoleEvent::Other => res is Nothing,
        ConsoleEvent::Input(None) => res is Nothing,
        ConsoleEvent::Input(Some(b)) => if b@.len() > 0 {
            res matches ConsoleAction::Send(p) && p@ == input_view(b@)
        } else {
            res is Nothing
        },
    }
}

/// What is to be done about what happened at a console.
pub fn drive(event: ConsoleEvent) -> (res: ConsoleAction)
    ensures
        drives(event, res),
{
    match event {
        ConsoleEvent::Session(Some(SessionEvent::TerminalBuffer(b))) => ConsoleAction::Print(b),
        ConsoleEvent::Session(Some(SessionEvent::KeepAlive)) => ConsoleAction::Nothing,
        ConsoleEvent::Session(Some(SessionEvent::Other(_))) => ConsoleAction::Nothing,
        ConsoleEvent::Session(Some(SessionEvent::Dead(r))) => ConsoleAction::Exit {
            reason: Some(r),
        },
        ConsoleEvent::Session(None) => ConsoleAction::Exit { reason: None },
        ConsoleEvent::Resize { columns, rows } => ConsoleAction::Tell(size_packet(columns, rows)),
        ConsoleEvent::Key { key, ctrl, alt } => match key_to_bytes(key, ctrl, alt) {
            Some(b) => ConsoleAction::Send(input_packet(b.as_slice())),
            None => ConsoleAction::Nothing,
        },
        ConsoleEvent::Other => ConsoleAction::Nothing,
        ConsoleEvent::Input(None) => ConsoleAction::Nothing,
        ConsoleEvent::Input(Some(b)) => {
            if b.len() > 0 {
                ConsoleAction::Send(input_packet(b.as_slice()))
            } else {
                ConsoleAction::Nothing
            }
        },
    }
}

// ---------------------------------------------------------------------------
// Laws
// ---------------------------------------------------------------------------

/// With the control key, a letter sends its place in the alphabet, in either
/// case; a space sends zero and a question mark 31; every other ASCII character
/// sends itself, and one beyond ASCII its low eight bits.
pub proof fn law_control_key(c: char)
    ensures
        ({
            let sent = key_bytes(Key::Char(c), true, false);
            let n = c as u32;
            &&& sent.len() == 1
            &&& 65 <= n <= 90 ==> sent[0] == n - 64
            &&& 97 <= n <= 122 ==> sent[0] == n - 96
            &&& n == 32 ==> sent[0] == 0
            &&& n == 63 ==> sent[0] == 31
            &&& !(65 <= n <= 90 || 97 <= n <= 122 || n == 32 || n == 63) ==> sent[0] == n % 256
            &&& n <= 127 && !(65 <= n <= 90 || 97 <= n <= 122 || n == 32 || n == 63) ==> sent[0]
                == n
        }),
{
}

/// A character without the control key is sent as its UTF-8 bytes.
pub proof fn law_characters_are_sent(c: char)
    ensures
        vstd::utf8::valid_utf8(key_bytes(Key::Char(c), false, false)),
        vstd::utf8::decode_utf8(key_bytes(Key::Char(c), false, false)) == seq![c],
{
    broadcast use vstd::utf8::group_utf8_lib;

    vstd::utf8::encode_utf8_valid_utf8(seq![c]);
    vstd::utf8::encode_utf8_decode_utf8(seq![c]);
}

/// The alt key puts an escape before what is sent without it. The control key
/// makes a difference for characters only.
pub proof fn law_modifiers(key: Key, ctrl: bool)
    ensures
        key_bytes(key, ctrl, true) == seq![0x1bu8] + key_bytes(key, ctrl, false),
        !(key is Char) ==> key_bytes(key, true, false) == key_bytes(key, false, false),
{
}

/// Function keys: the first four send an escape, an `O` and a letter from `P`
/// on; the next eight a control sequence with their number, which leaves out 16
/// and 22. Others send nothing.
pub proof fn law_function_keys(n: u8, ctrl: bool)
    ensures
        ({
            let sent = key_bytes(Key::F(n), ctrl, false);
            let code: int = if n == 5 {
                15
            } else if n <= 10 {
                n + 11
            } else {
                n + 12
            };
            &&& 1 <= n <= 4 ==> sent == seq![0x1bu8, 79u8, (79 + n) as u8]
            &&& 5 <= n <= 12 ==> sent == seq![
                0x1bu8,
                91u8,
                (48 + code / 10) as u8,
                (48 + code % 10) as u8,
                126u8,
            ]
            &&& n == 0 || n > 12 ==> sent.len() == 0
        }),
{
    let sent = key_bytes(Key::F(n), ctrl, false);
    if 1 <= n <= 4 {
        assert(sent =~= seq![0x1bu8, 79u8, (79 + n) as u8]);
    }
}

/// The keys that move send control sequences: the four arrows, home and end with
/// a letter, and the others with a number.
pub proof fn law_moving_keys(ctrl: bool)
    ensures
        key_bytes(Key::Up, ctrl, false) == seq![0x1bu8, 91u8, 65u8],
        key_bytes(Key::Down, ctrl, false) == seq![0x1bu8, 91u8, 66u8],
        key_bytes(Key::Right, ctrl, false) == seq![0x1bu8, 91u8, 67u8],
        key_bytes(Key::Left, ctrl, false) == seq![0x1bu8, 91u8, 68u8],
        key_bytes(Key::Home, ctrl, false) == seq![0x1bu8, 91u8, 72u8],
        key_bytes(Key::End, ctrl, false) == seq![0x1bu8, 91u8, 70u8],
        key_bytes(Key::BackTab, ctrl, false) == seq![0x1bu8, 91u8, 90u8],
        key_bytes(Key::Insert, ctrl, false) == seq![0x1bu8, 91u8, 50u8, 126u8],
        key_bytes(Key::Delete, ctrl, false) == seq![0x1bu8, 91u8, 51u8, 126u8],
        key_bytes(Key::PageUp, ctrl, false) == seq![0x1bu8, 91u8, 53u8, 126u8],
        key_bytes(Key::PageDown, ctrl, false) == seq![0x1bu8, 91u8, 54u8, 126u8],
        key_bytes(Key::Enter, ctrl, false) == seq![13u8],
        key_bytes(Key::Tab, ctrl, false) == seq![9u8],
        key_bytes(Key::Backspace, ctrl, false) == seq![0x7fu8],
        key_bytes(Key::Esc, ctrl, false) == seq![0x1bu8],
        key_bytes(Key::Other, ctrl, false).len() == 0,
{
}

/// What a console sends is what a session sends: its input, and the size of its
/// window in rows and columns.
pub proof fn law_console_speaks_for_its_session(data: Seq<u8>, columns: u16, rows: u16)
    ensures
        input_view(data) == crate::session::input_view(data),
        size_view(columns, rows) == crate::session::resize_view(rows as i32, columns as i32, 0, 0),
{
}

/// A console stops only at the end of its session, and then always.
pub proof fn law_console_stops_with_its_session(event: ConsoleEvent, res: ConsoleAction)
    requires
        drives(event, res),
    ensures
        res is Exit <==> (event matches ConsoleEvent::Session(e) && (e is None || e->0 is Dead)),
        res is Print <==> (event matches ConsoleEvent::Session(Some(SessionEvent::TerminalBuffer(b)))),
{
}

} // verus!
