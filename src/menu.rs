//! The decisions of the text menu: reading a typed choice and telling which
//! action it selects.
use vstd::prelude::*;

verus! {

/// The actions the menu offers, and the answer to anything else.
#[derive(PartialEq, Eq, Structural, Clone, Copy, Debug)]
pub enum MenuChoice {
    AddTask,
    CompleteTask,
    ListTasks,
    SaveTasks,
    LoadTasks,
    Exit,
    Invalid,
}

/// The action selected by a menu number: 1 to 6 in the order the menu lists
/// them, anything else is invalid.
pub open spec fn menu_choice_of(n: u32) -> MenuChoice {
    if n == 1 {
        MenuChoice::AddTask
    } else if n == 2 {
        MenuChoice::CompleteTask
    } else if n == 3 {
        MenuChoice::ListTasks
    } else if n == 4 {
        MenuChoice::SaveTasks
    } else if n == 5 {
        MenuChoice::LoadTasks
    } else if n == 6 {
        MenuChoice::Exit
    } else {
        MenuChoice::Invalid
    }
}

impl MenuChoice {
    /// The action selected by menu number `n`.
    pub fn from_number(n: u32) -> (r: MenuChoice)
        ensures
            r == menu_choice_of(n),
    {
        match n {
            1 => MenuChoice::AddTask,
            2 => MenuChoice::CompleteTask,
            3 => MenuChoice::ListTasks,
            4 => MenuChoice::SaveTasks,
            5 => MenuChoice::LoadTasks,
            6 => MenuChoice::Exit,
            _ => MenuChoice::Invalid,
        }
    }
}

/// Holds when `c` is an ASCII decimal digit.
pub open spec fn is_digit(c: char) -> bool {
    '0' <= c <= '9'
}

/// The number that a run of decimal digits writes.
pub open spec fn digits_value(s: Seq<char>) -> int
    decreases s.len(),
{
    if s.len() == 0 {
        0
    } else {
        digits_value(s.drop_last()) * 10 + (s.last() as int - '0' as int)
    }
}

/// The digits of an unsigned number's text: all of it, or all after a
/// leading `+`.
pub open spec fn unsigned_digits(s: Seq<char>) -> Seq<char> {
    if s.len() > 0 && s[0] == '+' {
        s.drop_first()
    } else {
        s
    }
}

/// Holds when `s` is an unsigned decimal number: an optional `+` and one or
/// more digits, nothing else.
pub open spec fn is_unsigned_text(s: Seq<char>) -> bool {
    let d = unsigned_digits(s);
    d.len() > 0 && forall|i: int| 0 <= i < d.len() ==> is_digit(#[trigger] d[i])
}

/// The `u32` that `s` writes, if it writes one that fits.
pub open spec fn u32_of_text(s: Seq<char>) -> Option<u32> {
    if is_unsigned_text(s) && digits_value(unsigned_digits(s)) <= u32::MAX {
        Some(digits_value(unsigned_digits(s)) as u32)
    } else {
        None
    }
}

/// What `str::trim` leaves of a text: the text without its leading and
/// trailing Unicode white space.
pub uninterp spec fn trim_of(s: Seq<char>) -> Seq<char>;

/// Relies on `str::trim`: the result depends on the characters alone.
#[verifier::external_body]
fn trim(s: &str) -> (r: &str)
    ensures
        r@ == trim_of(s@),
{
    s.trim()
}

/// Relies on `u32`'s `FromStr`: it accepts exactly an optional `+` followed by
/// one or more decimal digits whose value fits in `u32`.
#[verifier::external_body]
fn parse_u32(s: &str) -> (r: Option<u32>)
    ensures
        r == u32_of_text(s@),
{
    s.parse::<u32>().ok()
}

/// The menu number that trimmed text stands for: its value when it is an
/// unsigned number that fits in `u32`, otherwise 0, which selects nothing.
pub open spec fn choice_value(text: Seq<char>) -> u32 {
    match u32_of_text(text) {
        Some(n) => n,
        None => 0,
    }
}

/// Reads a menu number from text that is already trimmed; text that is
/// not a number reads as 0.
pub fn choice_from_trimmed(text: &str) -> (r: u32)
    ensures
        r == choice_value(text@),
{
    match parse_u32(text) {
        Some(n) => n,
        None => 0,
    }
}

/// Reads a menu number from a typed line, ignoring surrounding white space;
/// a line that is not a number reads as 0.
pub fn parse_choice(input: &str) -> (r: u32)
    ensures
        r == choice_value(trim_of(input@)),
{
    choice_from_trimmed(trim(input))
}

} // verus!
