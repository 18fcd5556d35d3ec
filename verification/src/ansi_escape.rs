//! ANSI escape sequences for coloured terminal output.

use vstd::prelude::*;
use crate::text::{joined, views};

verus! {

// Colour attributes
pub const BOLD: &'static str = "\x1b[1m";

pub const DIM: &'static str = "\x1b[2m";

pub const ITALIC: &'static str = "\x1b[3m";

pub const UNDERLINE: &'static str = "\x1b[4m";

// Foreground colours
pub const BLACK: &'static str = "\x1b[30m";

pub const RED: &'static str = "\x1b[31m";

pub const GREEN: &'static str = "\x1b[32m";

pub const YELLOW: &'static str = "\x1b[33m";

pub const BLUE: &'static str = "\x1b[34m";

pub const PURPLE: &'static str = "\x1b[35m";

pub const CYAN: &'static str = "\x1b[36m";

pub const WHITE: &'static str = "\x1b[37m";

pub const INTENSE_BLACK: &'static str = "\x1b[90m";

pub const INTENSE_RED: &'static str = "\x1b[91m";

pub const INTENSE_GREEN: &'static str = "\x1b[92m";

pub const INTENSE_YELLOW: &'static str = "\x1b[93m";

pub const INTENSE_BLUE: &'static str = "\x1b[94m";

pub const INTENSE_PURPLE: &'static str = "\x1b[95m";

pub const INTENSE_CYAN: &'static str = "\x1b[96m";

pub const INTENSE_WHITE: &'static str = "\x1b[97m";

// Background colours
pub const BG_BLACK: &'static str = "\x1b[40m";

pub const BG_RED: &'static str = "\x1b[41m";

pub const BG_GREEN: &'static str = "\x1b[42m";

pub const BG_YELLOW: &'static str = "\x1b[43m";

pub const BG_BLUE: &'static str = "\x1b[44m";

pub const BG_PURPLE: &'static str = "\x1b[45m";

pub const BG_CYAN: &'static str = "\x1b[46m";

pub const BG_WHITE: &'static str = "\x1b[47m";

pub const BG_INTENSE_BLACK: &'static str = "\x1b[100m";

pub const BG_INTENSE_RED: &'static str = "\x1b[101m";

pub const BG_INTENSE_GREEN: &'static str = "\x1b[102m";

pub const BG_INTENSE_YELLOW: &'static str = "\x1b[103m";

pub const BG_INTENSE_BLUE: &'static str = "\x1b[104m";

pub const BG_INTENSE_PURPLE: &'static str = "\x1b[105m";

pub const BG_INTENSE_CYAN: &'static str = "\x1b[106m";

pub const BG_INTENSE_WHITE: &'static str = "\x1b[107m";

pub const ANSI_RESET: &'static str = "\x1b[0m";

/// `text` set in the styles `colours`: the escape sequences in the order
/// given, the text, and the sequence that resets every style.
pub open spec fn coloured(text: Seq<char>, colours: Seq<Seq<char>>) -> Seq<char> {
    joined(colours, Seq::empty()) + text + ANSI_RESET@
}

/// `text` wrapped in the escape sequences `colours` and a final reset.
pub fn colour(text: &str, colours: &[&str]) -> (out: String)
    ensures
        out@ == coloured(text@, views(colours@)),
{
    let mut out = String::new();
    let mut i: usize = 0;
    let ghost codes = views(colours@);
    let ghost none = Seq::<char>::empty();
    while i < colours.len()
        invariant
            i <= colours.len(),
            codes == views(colours@),
            none == Seq::<char>::empty(),
            out@ == joined(codes.take(i as int), none),
        decreases colours.len() - i,
    {
        out.append(colours[i]);
        proof {
            assert(codes.take(i + 1).drop_last() =~= codes.take(i as int));
            assert(codes.take(i + 1).last() == colours@[i as int]@);
            if i == 0 {
                assert(out@ =~= colours@[0]@);
            } else {
                assert(out@ =~= joined(codes.take(i as int), none) + none + colours@[i as int]@);
            }
        }
        i += 1;
    }
    proof {
        assert(codes.take(colours.len() as int) =~= codes);
    }
    out.append(text);
    out.append(ANSI_RESET);
    out
}

/// When to write escape sequences.
#[derive(Clone, Copy, Debug, PartialEq, Eq, Structural)]
pub enum ColorChoice {
    /// On a terminal, unless the environment asks for none.
    Auto,
    /// Wherever the output goes.
    Always,
    /// Nowhere.
    Never,
}

/// Check if colors should be enabled based on TTY and NO_COLOR
///
/// `is_terminal` is whether the standard output is a terminal,
/// `no_color_set` whether the environment holds `NO_COLOR`.
pub fn should_color_stdout(is_terminal: bool, no_color_set: bool) -> (on: bool)
    ensures
        on == (is_terminal && !no_color_set),
{
    is_terminal && !no_color_set
}

/// Whether escape sequences are left out: always where `flag` asks so,
/// else as `choice` says.
pub fn colour_is_off(
    choice: ColorChoice,
    flag: bool,
    is_terminal: bool,
    no_color_set: bool,
) -> (off: bool)
    ensures
        off == (flag || match choice {
            ColorChoice::Always => false,
            ColorChoice::Never => true,
            ColorChoice::Auto => !(is_terminal && !no_color_set),
        }),
{
    flag || match choice {
        ColorChoice::Always => false,
        ColorChoice::Never => true,
        ColorChoice::Auto => !should_color_stdout(is_terminal, no_color_set),
    }
}

} // verus!
