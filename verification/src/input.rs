//! What a front end makes of its input: commands, sorted out of the lines
//! that a user enters, and keys, read from the bytes that a terminal sends.

use vstd::prelude::*;
use crate::text::without_blanks_around;

verus! {

/// What the user wants, as far as one piece of input tells.
#[derive(Debug, PartialEq)]
pub enum InputCmd {
    /// Nothing yet.
    Nothing,
    /// To leave.
    Quit,
    /// To have this line evaluated.
    Equation(String),
}

/// The mathematical content of an [`InputCmd`].
pub enum InputCmdView {
    Nothing,
    Quit,
    Equation(Seq<char>),
}

impl View for InputCmd {
    type V = InputCmdView;

    open spec fn view(&self) -> InputCmdView {
        match self {
            InputCmd::Nothing => InputCmdView::Nothing,
            InputCmd::Quit => InputCmdView::Quit,
            InputCmd::Equation(line) => InputCmdView::Equation(line@),
        }
    }
}

/// What a line of input asks for: to leave, where it reads `quit` or `exit`
/// once the white space around it is set aside, and to be evaluated as it
/// stands otherwise.
pub open spec fn command(line: Seq<char>) -> InputCmdView {
    if without_blanks_around(line) == "quit"@ || without_blanks_around(line) == "exit"@ {
        InputCmdView::Quit
    } else {
        InputCmdView::Equation(line)
    }
}

/// Sorts lines that were read whole, as from a pipe or a plain terminal.
#[derive(Debug)]
pub struct DefaultInputHandler;

impl DefaultInputHandler {
    /// A handler. It keeps no state.
    pub fn new() -> (r: DefaultInputHandler)
        ensures
            r == DefaultInputHandler,
    {
        DefaultInputHandler
    }

    /// The command that a line stands for.
    pub fn interpret(&self, line: String) -> (cmd: InputCmd)
        ensures
            cmd@ == command(line@),
    {
        let word = line.as_str().trim();
        if word.eq("quit") || word.eq("exit") {
            InputCmd::Quit
        } else {
            InputCmd::Equation(line)
        }
    }
}

/// The number of bytes that are taken from the terminal at a time.
pub const BUFFER_LEN: usize = 32;

/// The byte that starts an escape sequence, and that the escape key sends.
pub const ESC_CHAR: u8 = 0x1B;

/// A key, as far as the terminal tells keys apart.
#[derive(Debug, PartialEq, Eq, Clone, Copy, Structural)]
pub enum Key {
    Esc,
    Enter,
    Tab,
    Up,
    Down,
    Left,
    Right,
    Home,
    End,
    Insert,
    PgUp,
    PgDown,
    Backspace,
    Delete,
    Char(char),
    F(u32),
    Unknown,
}

/// Whether `byte` starts a character of several bytes in UTF-8: its two
/// highest bits are set.
pub fn is_utf8_lead(byte: u8) -> (r: bool)
    ensures
        r == (byte >= 0xC0),
{
    assert((byte & 0xC0 == 0xC0) == (byte >= 0xC0)) by (bit_vector);
    byte & 0xC0 == 0xC0
}

/// Whether `byte` continues a character of several bytes in UTF-8: of its
/// two highest bits only the first is set.
pub fn is_utf8_continue(byte: u8) -> (r: bool)
    ensures
        r == (0x80 <= byte < 0xC0),
{
    assert((byte & 0xC0 == 0x80) == (0x80 <= byte < 0xC0)) by (bit_vector);
    byte & 0xC0 == 0x80
}

/// The number of bits of `lead` that are set from bit `i` on, counted from the
/// highest bit downwards, before the first that is clear.
pub open spec fn set_bits_from(lead: u8, i: u8) -> nat
    decreases 8 - i,
{
    if i < 8 && lead & (0x80u8 >> i) != 0 {
        1 + set_bits_from(lead, (i + 1) as u8)
    } else {
        0
    }
}

/// The number of bytes that a character takes whose first byte is `lead`,
/// going by that byte alone: two, and one more for each bit that is set
/// below the first two before the first that is clear.
pub open spec fn utf8_len_of(lead: u8) -> nat {
    2 + set_bits_from(lead, 2)
}

/// In UTF-8 the first byte of a character of two bytes starts with the bits
/// `110`, that of a character of three bytes with `1110`, and that of a
/// character of four bytes with `11110`.
pub proof fn lemma_utf8_len_of(lead: u8)
    ensures
        0xC0 <= lead < 0xE0 ==> utf8_len_of(lead) == 2,
        0xE0 <= lead < 0xF0 ==> utf8_len_of(lead) == 3,
        0xF0 <= lead < 0xF8 ==> utf8_len_of(lead) == 4,
{
    reveal_with_fuel(set_bits_from, 4);
    assert(0x80u8 >> 2u8 == 0x20 && 0x80u8 >> 3u8 == 0x10 && 0x80u8 >> 4u8 == 0x08) by (bit_vector);
    assert(0xC0 <= lead < 0xE0 ==> lead & 0x20 == 0) by (bit_vector);
    assert(0xE0 <= lead < 0xF0 ==> lead & 0x20 != 0 && lead & 0x10 == 0) by (bit_vector);
    assert(0xF0 <= lead < 0xF8 ==> lead & 0x20 != 0 && lead & 0x10 != 0 && lead & 0x08 == 0)
        by (bit_vector);
}

/// The number of bytes that a character takes whose first byte is `lead`.
pub fn utf8_len(lead: u8) -> (len: usize)
    ensures
        len == utf8_len_of(lead),
{
    let mut len: usize = 2;
    let mut i: u8 = 2;
    while i < 8
        invariant
            2 <= i <= 8,
            len == i,
            utf8_len_of(lead) == len + set_bits_from(lead, i),
        ensures
            len == utf8_len_of(lead),
        decreases 8 - i,
    {
        if lead & (0x80u8 >> i) == 0 {
            break ;
        }
        len += 1;
        i += 1;
    }
    len
}

/// The bytes that the keys send which are known by their escape sequence,
/// each with its key. Every sequence starts with the escape byte.
pub open spec fn escape_sequences() -> Seq<(Seq<u8>, Key)> {
    seq![
        (seq![0x1Bu8, 0x5B, 0x41], Key::Up),
        (seq![0x1Bu8, 0x5B, 0x42], Key::Down),
        (seq![0x1Bu8, 0x5B, 0x43], Key::Right),
        (seq![0x1Bu8, 0x5B, 0x44], Key::Left),
        (seq![0x1Bu8, 0x4F, 0x48], Key::Home),
        (seq![0x1Bu8, 0x4F, 0x46], Key::End),
        (seq![0x1Bu8, 0x5B, 0x35, 0x7E], Key::PgUp),
        (seq![0x1Bu8, 0x5B, 0x36, 0x7E], Key::PgDown),
        (seq![0x1Bu8, 0x5B, 0x32, 0x7E], Key::Insert),
        (seq![0x1Bu8, 0x5B, 0x33, 0x7E], Key::Delete),
        (seq![0x1Bu8, 0x4F, 0x50], Key::F(1)),
        (seq![0x1Bu8, 0x4F, 0x51], Key::F(2)),
        (seq![0x1Bu8, 0x4F, 0x52], Key::F(3)),
        (seq![0x1Bu8, 0x4F, 0x53], Key::F(4)),
        (seq![0x1Bu8, 0x5B, 0x31, 0x35, 0x7E], Key::F(5)),
        (seq![0x1Bu8, 0x5B, 0x31, 0x37, 0x7E], Key::F(6)),
        (seq![0x1Bu8, 0x5B, 0x31, 0x38, 0x7E], Key::F(7)),
        (seq![0x1Bu8, 0x5B, 0x31, 0x39, 0x7E], Key::F(8)),
        (seq![0x1Bu8, 0x5B, 0x32, 0x30, 0x7E], Key::F(9)),
        (seq![0x1Bu8, 0x5B, 0x32, 0x31, 0x7E], Key::F(10)),
        (seq![0x1Bu8, 0x5B, 0x32, 0x33, 0x7E], Key::F(11)),
        (seq![0x1Bu8, 0x5B, 0x32, 0x34, 0x7E], Key::F(12)),
        (seq![0x1Bu8, 0x5B], Key::Unknown),
    ]
}

/// Whether `buf` starts with the bytes of `pattern`.
pub open spec fn starts_with(buf: Seq<u8>, pattern: Seq<u8>) -> bool {
    pattern.len() <= buf.len() && buf.subrange(0, pattern.len() as int) == pattern
}

/// The key whose escape sequence `buf` starts with, and the length of that
/// sequence, taking the first of [`escape_sequences`] that fits from `from`
/// on. Where none fits, the escape byte stands alone and is the escape key.
pub open spec fn escape_key(buf: Seq<u8>, from: int) -> (Key, usize)
    decreases escape_sequences().len() - from,
{
    if 0 <= from < escape_sequences().len() {
        if starts_with(buf, escape_sequences()[from].0) {
            (escape_sequences()[from].1, escape_sequences()[from].0.len() as usize)
        } else {
            escape_key(buf, from + 1)
        }
    } else {
        (Key::Esc, 1)
    }
}

/// Reads the key that the escape byte at the start of the buffer belongs
/// to, and the number of bytes that the key has sent.
pub fn parse_esc_seq(buf: &[u8; 32]) -> (r: (Key, usize))
    ensures
        r == escape_key(buf@, 0),
{
    let r = if buf[0] != ESC_CHAR {
        (Key::Esc, 1)
    } else if buf[1] == 0x5B {
        if buf[2] == 0x41 {
            (Key::Up, 3)
        } else if buf[2] == 0x42 {
            (Key::Down, 3)
        } else if buf[2] == 0x43 {
            (Key::Right, 3)
        } else if buf[2] == 0x44 {
            (Key::Left, 3)
        } else if buf[2] == 0x35 && buf[3] == 0x7E {
            (Key::PgUp, 4)
        } else if buf[2] == 0x36 && buf[3] == 0x7E {
            (Key::PgDown, 4)
        } else if buf[2] == 0x32 && buf[3] == 0x7E {
            (Key::Insert, 4)
        } else if buf[2] == 0x33 && buf[3] == 0x7E {
            (Key::Delete, 4)
        } else if buf[2] == 0x31 && buf[3] == 0x35 && buf[4] == 0x7E {
            (Key::F(5), 5)
        } else if buf[2] == 0x31 && buf[3] == 0x37 && buf[4] == 0x7E {
            (Key::F(6), 5)
        } else if buf[2] == 0x31 && buf[3] == 0x38 && buf[4] == 0x7E {
            (Key::F(7), 5)
        } else if buf[2] == 0x31 && buf[3] == 0x39 && buf[4] == 0x7E {
            (Key::F(8), 5)
        } else if buf[2] == 0x32 && buf[3] == 0x30 && buf[4] == 0x7E {
            (Key::F(9), 5)
        } else if buf[2] == 0x32 && buf[3] == 0x31 && buf[4] == 0x7E {
            (Key::F(10), 5)
        } else if buf[2] == 0x32 && buf[3] == 0x33 && buf[4] == 0x7E {
            (Key::F(11), 5)
        } else if buf[2] == 0x32 && buf[3] == 0x34 && buf[4] == 0x7E {
            (Key::F(12), 5)
        } else {
            (Key::Unknown, 2)
        }
    } else if buf[1] == 0x4F {
        if buf[2] == 0x48 {
            (Key::Home, 3)
        } else if buf[2] == 0x46 {
            (Key::End, 3)
        } else if buf[2] == 0x50 {
            (Key::F(1), 3)
        } else if buf[2] == 0x51 {
            (Key::F(2), 3)
        } else if buf[2] == 0x52 {
            (Key::F(3), 3)
        } else if buf[2] == 0x53 {
            (Key::F(4), 3)
        } else {
            (Key::Esc, 1)
        }
    } else {
        (Key::Esc, 1)
    };
    proof {
        lemma_escape_key(buf@);
    }
    r
}

/// What [`escape_key`] comes to, sequence by sequence.
proof fn lemma_escape_key(buf: Seq<u8>)
    requires
        buf.len() == 32,
    ensures
        escape_key(buf, 0) == if buf[0] != 0x1B {
            (Key::Esc, 1usize)
        } else if buf[1] == 0x5B {
            if buf[2] == 0x41 {
                (Key::Up, 3usize)
            } else if buf[2] == 0x42 {
                (Key::Down, 3usize)
            } else if buf[2] == 0x43 {
                (Key::Right, 3usize)
            } else if buf[2] == 0x44 {
                (Key::Left, 3usize)
            } else if buf[2] == 0x35 && buf[3] == 0x7E {
                (Key::PgUp, 4usize)
            } else if buf[2] == 0x36 && buf[3] == 0x7E {
                (Key::PgDown, 4usize)
            } else if buf[2] == 0x32 && buf[3] == 0x7E {
                (Key::Insert, 4usize)
            } else if buf[2] == 0x33 && buf[3] == 0x7E {
                (Key::Delete, 4usize)
            } else if buf[2] == 0x31 && buf[3] == 0x35 && buf[4] == 0x7E {
                (Key::F(5), 5usize)
            } else if buf[2] == 0x31 && buf[3] == 0x37 && buf[4] == 0x7E {
                (Key::F(6), 5usize)
            } else if buf[2] == 0x31 && buf[3] == 0x38 && buf[4] == 0x7E {
                (Key::F(7), 5usize)
            } else if buf[2] == 0x31 && buf[3] == 0x39 && buf[4] == 0x7E {
                (Key::F(8), 5usize)
            } else if buf[2] == 0x32 && buf[3] == 0x30 && buf[4] == 0x7E {
                (Key::F(9), 5usize)
            } else if buf[2] == 0x32 && buf[3] == 0x31 && buf[4] == 0x7E {
                (Key::F(10), 5usize)
            } else if buf[2] == 0x32 && buf[3] == 0x33 && buf[4] == 0x7E {
                (Key::F(11), 5usize)
            } else if buf[2] == 0x32 && buf[3] == 0x34 && buf[4] == 0x7E {
                (Key::F(12), 5usize)
            } else {
                (Key::Unknown, 2usize)
            }
        } else if buf[1] == 0x4F {
            if buf[2] == 0x48 {
                (Key::Home, 3usize)
            } else if buf[2] == 0x46 {
                (Key::End, 3usize)
            } else if buf[2] == 0x50 {
                (Key::F(1), 3usize)
            } else if buf[2] == 0x51 {
                (Key::F(2), 3usize)
            } else if buf[2] == 0x52 {
                (Key::F(3), 3usize)
            } else if buf[2] == 0x53 {
                (Key::F(4), 3usize)
            } else {
                (Key::Esc, 1usize)
            }
        } else {
            (Key::Esc, 1usize)
        },
{
    reveal_with_fuel(escape_key, 24);
    let table = escape_sequences();
    assert forall|i: int| 0 <= i < table.len() implies (starts_with(buf, #[trigger] table[i].0)
        <==> forall|j: int| 0 <= j < table[i].0.len() ==> buf[j] == table[i].0[j]) by {
        let pattern = table[i].0;
        if starts_with(buf, pattern) {
            assert forall|j: int| 0 <= j < pattern.len() implies buf[j] == pattern[j] by {
                assert(buf.subrange(0, pattern.len() as int)[j] == buf[j]);
            }
        }
        if forall|j: int| 0 <= j < pattern.len() ==> buf[j] == pattern[j] {
            assert(buf.subrange(0, pattern.len() as int) =~= pattern);
        }
    }
}

/// The key that the bytes at the start of the buffer stand for, and the
/// number of bytes that it has sent, where the bytes in the buffer settle
/// that. They do not where a character of several bytes starts: how many of
/// its bytes have arrived, the buffer does not tell.
pub open spec fn plain_key(buf: Seq<u8>) -> Option<(Key, usize)> {
    let byte = buf[0];
    if byte == 0x1B {
        Some(escape_key(buf, 0))
    } else if byte == 0x7F {
        Some((Key::Backspace, 1))
    } else if byte == 0x09 {
        Some((Key::Tab, 1))
    } else if byte == 0x0A {
        Some((Key::Enter, 1))
    } else if 0x20 <= byte <= 0x7E {
        Some((Key::Char(byte as char), 1))
    } else if byte >= 0xC0 {
        None
    } else {
        Some((Key::Unknown, 1))
    }
}

/// Reads the key at the start of the buffer, unless a character of several
/// bytes starts there.
pub fn parse_key(buf: &[u8; 32]) -> (r: Option<(Key, usize)>)
    ensures
        r == plain_key(buf@),
{
    let byte = buf[0];
    if byte == ESC_CHAR {
        Some(parse_esc_seq(buf))
    } else if byte == 0x7F {
        // the backspace key sends DEL
        Some((Key::Backspace, 1))
    } else if byte == 0x09 {
        Some((Key::Tab, 1))
    } else if byte == 0x0A {
        Some((Key::Enter, 1))
    } else if 0x20 <= byte && byte <= 0x7E {
        // printable ASCII
        Some((Key::Char(byte as char), 1))
    } else if is_utf8_lead(byte) {
        None
    } else {
        // not known: the byte is taken, the caller may go on
        Some((Key::Unknown, 1))
    }
}

/// The buffer once `count` bytes were taken from its front: the first
/// `filled` bytes hold what stood `count` places further on, or zero where
/// nothing stood there, and the rest is as it was.
pub open spec fn shifted(buf: Seq<u8>, filled: usize, count: usize) -> Seq<u8> {
    Seq::new(
        buf.len(),
        |i: int|
            if i < filled {
                if i + count < buf.len() {
                    buf[i + count]
                } else {
                    0u8
                }
            } else {
                buf[i]
            },
    )
}

/// Takes `count` bytes from the front of the buffer, of which the first
/// `filled` bytes are in use, and returns how many are in use then.
pub fn consume_buffer(buf: &mut [u8; 32], filled: usize, count: usize) -> (left: usize)
    requires
        count <= filled <= 32,
    ensures
        final(buf)@ == shifted(old(buf)@, filled, count),
        left == filled - count,
{
    let mut i: usize = 0;
    while i < filled
        invariant
            count <= filled <= 32,
            i <= filled,
            forall|j: int| 0 <= j < i ==> #[trigger] buf@[j] == shifted(old(buf)@, filled, count)[j],
            forall|j: int| i <= j < 32 ==> #[trigger] buf@[j] == old(buf)@[j],
        decreases filled - i,
    {
        let byte = if i + count < BUFFER_LEN {
            buf[i + count]
        } else {
            0
        };
        buf[i] = byte;
        i += 1;
    }
    assert(buf@ =~= shifted(old(buf)@, filled, count));
    filled - count
}

} // verus!
