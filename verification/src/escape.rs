use vstd::prelude::*;
use crate::ascii::{
    DIGIT_ZERO, LOWER_A, LOWER_B, LOWER_F, LOWER_N, LOWER_R, LOWER_T, LOWER_U, QUOTE, REVERSE_SOLIDUS,
    SOLIDUS,
};

verus! {

/// A character that is written as an escape inside a JSON string.
#[derive(Clone, Copy, Debug, PartialEq, Eq, Structural)]
pub enum CharEscape {
    /// A quote `"`.
    Quote,
    /// A reverse solidus `\`.
    ReverseSolidus,
    /// A solidus `/`.
    Solidus,
    /// A backspace.
    Backspace,
    /// A form feed.
    FormFeed,
    /// A line feed.
    LineFeed,
    /// A carriage return.
    CarriageReturn,
    /// A tab.
    Tab,
    /// Any other control character, by its code.
    AsciiControl(u8),
}

/// The lowercase hexadecimal digit of a value below sixteen.
pub open spec fn hex_digit(nibble: u8) -> u8 {
    if nibble < 10 {
        (DIGIT_ZERO + nibble) as u8
    } else {
        (LOWER_A + (nibble - 10)) as u8
    }
}

/// The canonical text of an escape: two characters for those that JSON names,
/// `\u00` and two lowercase hexadecimal digits for any other control
/// character. The solidus is written as itself.
pub open spec fn escape_text(escape: CharEscape) -> Seq<u8> {
    match escape {
        CharEscape::Quote => seq![REVERSE_SOLIDUS, QUOTE],
        CharEscape::ReverseSolidus => seq![REVERSE_SOLIDUS, REVERSE_SOLIDUS],
        CharEscape::Solidus => seq![SOLIDUS],
        CharEscape::Backspace => seq![REVERSE_SOLIDUS, LOWER_B],
        CharEscape::FormFeed => seq![REVERSE_SOLIDUS, LOWER_F],
        CharEscape::LineFeed => seq![REVERSE_SOLIDUS, LOWER_N],
        CharEscape::CarriageReturn => seq![REVERSE_SOLIDUS, LOWER_R],
        CharEscape::Tab => seq![REVERSE_SOLIDUS, LOWER_T],
        CharEscape::AsciiControl(byte) => seq![
            REVERSE_SOLIDUS,
            LOWER_U,
            DIGIT_ZERO,
            DIGIT_ZERO,
            hex_digit(byte / 16),
            hex_digit(byte % 16),
        ],
    }
}

fn hex_digit_of(nibble: u8) -> (digit: u8)
    requires
        nibble < 16,
    ensures
        digit == hex_digit(nibble),
{
    if nibble < 10 {
        DIGIT_ZERO + nibble
    } else {
        LOWER_A + (nibble - 10)
    }
}

/// The canonical text of an escape.
pub fn escape_bytes(escape: CharEscape) -> (text: Vec<u8>)
    ensures
        text@ == escape_text(escape),
{
    let text = match escape {
        CharEscape::Quote => vec![REVERSE_SOLIDUS, QUOTE],
        CharEscape::ReverseSolidus => vec![REVERSE_SOLIDUS, REVERSE_SOLIDUS],
        CharEscape::Solidus => vec![SOLIDUS],
        CharEscape::Backspace => vec![REVERSE_SOLIDUS, LOWER_B],
        CharEscape::FormFeed => vec![REVERSE_SOLIDUS, LOWER_F],
        CharEscape::LineFeed => vec![REVERSE_SOLIDUS, LOWER_N],
        CharEscape::CarriageReturn => vec![REVERSE_SOLIDUS, LOWER_R],
        CharEscape::Tab => vec![REVERSE_SOLIDUS, LOWER_T],
        CharEscape::AsciiControl(byte) => vec![
            REVERSE_SOLIDUS,
            LOWER_U,
            DIGIT_ZERO,
            DIGIT_ZERO,
            hex_digit_of(byte / 16),
            hex_digit_of(byte % 16),
        ],
    };
    assert(text@ =~= escape_text(escape));
    text
}

/// The code of the character that an escape stands for.
pub open spec fn escaped_char(escape: CharEscape) -> u8 {
    match escape {
        CharEscape::Quote => QUOTE,
        CharEscape::ReverseSolidus => REVERSE_SOLIDUS,
        CharEscape::Solidus => SOLIDUS,
        CharEscape::Backspace => 0x08,
        CharEscape::FormFeed => 0x0c,
        CharEscape::LineFeed => 0x0a,
        CharEscape::CarriageReturn => 0x0d,
        CharEscape::Tab => 0x09,
        CharEscape::AsciiControl(byte) => byte,
    }
}

/// The value of a hexadecimal digit, in either case.
pub open spec fn hex_value(digit: u8) -> Option<int> {
    if 0x30 <= digit <= 0x39 {
        Some(digit - 0x30)
    } else if 0x61 <= digit <= 0x66 {
        Some(digit - 0x61 + 10)
    } else if 0x41 <= digit <= 0x46 {
        Some(digit - 0x41 + 10)
    } else {
        None
    }
}

/// The code of the character that a piece of JSON string text denotes when
/// it is one character below U+0100, written as itself, as a two-character
/// escape or as `\u00` and two hexadecimal digits; `None` for any other
/// text. A quote, a reverse solidus and a control character cannot be
/// written as themselves.
pub open spec fn denoted_char(text: Seq<u8>) -> Option<int> {
    if text.len() == 1 {
        if text[0] == QUOTE || text[0] == REVERSE_SOLIDUS || text[0] < 0x20 {
            None
        } else {
            Some(text[0] as int)
        }
    } else if text.len() == 2 && text[0] == REVERSE_SOLIDUS {
        if text[1] == QUOTE || text[1] == REVERSE_SOLIDUS || text[1] == SOLIDUS {
            Some(text[1] as int)
        } else if text[1] == LOWER_B {
            Some(0x08)
        } else if text[1] == LOWER_F {
            Some(0x0c)
        } else if text[1] == LOWER_N {
            Some(0x0a)
        } else if text[1] == LOWER_R {
            Some(0x0d)
        } else if text[1] == LOWER_T {
            Some(0x09)
        } else {
            None
        }
    } else if text.len() == 6 && text[0] == REVERSE_SOLIDUS && text[1] == LOWER_U && text[2]
        == DIGIT_ZERO && text[3] == DIGIT_ZERO {
        match (hex_value(text[4]), hex_value(text[5])) {
            (Some(high), Some(low)) => Some(16 * high + low),
            _ => None,
        }
    } else {
        None
    }
}

/// Reading an escape back gives the character it was written for: what the
/// escape table writes denotes, by the grammar of JSON strings, the character
/// that the escape stands for. The solidus is written as itself and read as
/// itself.
pub proof fn lemma_escape_denotes(escape: CharEscape)
    ensures
        denoted_char(escape_text(escape)) == Some(escaped_char(escape) as int),
        escape_text(CharEscape::Solidus) == seq![SOLIDUS],
{
    match escape {
        CharEscape::AsciiControl(byte) => {
            assert(hex_value(hex_digit(byte / 16)) == Some((byte / 16) as int));
            assert(hex_value(hex_digit(byte % 16)) == Some((byte % 16) as int));
        },
        _ => {},
    }
}

} // verus!
