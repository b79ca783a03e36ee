use vstd::prelude::*;
use crate::text::{decimal, push_decimal};

verus! {

/// The escape sequence that turns the foreground red.
pub open spec fn red_seq() -> Seq<char> {
    seq!['\u{1b}', '[', '3', '1', 'm']
}

/// The escape sequence that turns bold text on.
pub open spec fn bold_seq() -> Seq<char> {
    seq!['\u{1b}', '[', '1', 'm']
}

/// The escape sequence that restores the default foreground.
pub open spec fn color_reset_seq() -> Seq<char> {
    seq!['\u{1b}', '[', '3', '9', 'm']
}

/// The escape sequence that turns all text styles off.
pub open spec fn style_reset_seq() -> Seq<char> {
    seq!['\u{1b}', '[', '0', 'm']
}

/// An error message as it is shown: red and bold, then reset.
pub open spec fn styled(message: Seq<char>) -> Seq<char> {
    red_seq() + bold_seq() + message + color_reset_seq() + style_reset_seq()
}

/// `Line {line}, Column {col} :: `, the head of a message about a place in
/// the source text.
pub open spec fn position_prefix(line: nat, col: nat) -> Seq<char> {
    "Line "@ + decimal(line) + ", Column "@ + decimal(col) + " :: "@
}

/// `inline_colorization::color_red`, which the crate defines as `"\x1B[31m"`.
#[verifier::external_body]
fn color_red() -> (res: &'static str)
    ensures
        res@ == red_seq(),
{
    inline_colorization::color_red
}

/// `inline_colorization::style_bold`, which the crate defines as `"\x1B[1m"`.
#[verifier::external_body]
fn style_bold() -> (res: &'static str)
    ensures
        res@ == bold_seq(),
{
    inline_colorization::style_bold
}

/// `inline_colorization::color_reset`, which the crate defines as `"\x1B[39m"`.
#[verifier::external_body]
fn color_reset() -> (res: &'static str)
    ensures
        res@ == color_reset_seq(),
{
    inline_colorization::color_reset
}

/// `inline_colorization::style_reset`, which the crate defines as `"\x1B[0m"`.
#[verifier::external_body]
fn style_reset() -> (res: &'static str)
    ensures
        res@ == style_reset_seq(),
{
    inline_colorization::style_reset
}

/// A new string holding the escape sequences that start an error message.
pub fn open_error_message() -> (res: String)
    ensures
        res@ == red_seq() + bold_seq(),
{
    let mut s = String::from_str(color_red());
    s.append(style_bold());
    s
}

/// Appends the escape sequences that end an error message.
pub fn close_error_message(s: &mut String)
    ensures
        final(s)@ == old(s)@ + color_reset_seq() + style_reset_seq(),
{
    s.append(color_reset());
    s.append(style_reset());
}

/// Appends `Line {line}, Column {col} :: `.
pub fn push_position(s: &mut String, line: usize, col: usize)
    ensures
        final(s)@ == old(s)@ + position_prefix(line as nat, col as nat),
{
    s.append("Line ");
    push_decimal(s, line);
    s.append(", Column ");
    push_decimal(s, col);
    s.append(" :: ");
    assert(s@ =~= old(s)@ + position_prefix(line as nat, col as nat));
}

} // verus!
