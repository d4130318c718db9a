//! Plain-text rendering of values, in the shape that the standard `Debug`
//! formatting gives them.

use vstd::prelude::*;
use vstd::string::*;

verus! {

/// The character for the decimal digit `d`.
pub open spec fn digit(d: nat) -> char {
    if d == 0 {
        '0'
    } else if d == 1 {
        '1'
    } else if d == 2 {
        '2'
    } else if d == 3 {
        '3'
    } else if d == 4 {
        '4'
    } else if d == 5 {
        '5'
    } else if d == 6 {
        '6'
    } else if d == 7 {
        '7'
    } else if d == 8 {
        '8'
    } else {
        '9'
    }
}

/// `n` in decimal, without leading zeros.
pub open spec fn decimal(n: nat) -> Seq<char>
    decreases n,
{
    if n < 10 {
        seq![digit(n)]
    } else {
        decimal(n / 10).push(digit(n % 10))
    }
}

/// `i` in decimal, with a leading minus sign where it is negative.
pub open spec fn integer(i: int) -> Seq<char> {
    if i < 0 {
        "-"@ + decimal((-i) as nat)
    } else {
        decimal(i as nat)
    }
}

/// `true` or `false`.
pub open spec fn boolean(b: bool) -> Seq<char> {
    if b {
        "true"@
    } else {
        "false"@
    }
}

/// An optional value, given the text of what it holds.
pub open spec fn optional(content: Option<Seq<char>>) -> Seq<char> {
    match content {
        None => "None"@,
        Some(text) => "Some("@ + text + ")"@,
    }
}

/// `items`, one after the other, with `separator` between neighbours.
pub open spec fn joined(items: Seq<Seq<char>>, separator: Seq<char>) -> Seq<char>
    decreases items.len(),
{
    if items.len() == 0 {
        Seq::empty()
    } else if items.len() == 1 {
        items[0]
    } else {
        joined(items.drop_last(), separator) + separator + items.last()
    }
}

/// A bracketed, comma-separated list.
pub open spec fn list(items: Seq<Seq<char>>) -> Seq<char> {
    "["@ + joined(items, ", "@) + "]"@
}

/// What `format!("{:?}", s)` gives for a string slice with these characters: the
/// string in double quotes, with the escapes of a string literal.
pub uninterp spec fn quoted(s: Seq<char>) -> Seq<char>;

/// Calls `<str as Debug>::fmt`, through `format!`. The claim is only that the text
/// is a function of the characters of `s`; which characters are escaped, and how,
/// is left to the standard library.
#[verifier::external_body]
pub(crate) fn render_quoted(s: &str) -> (text: String)
    ensures
        text@ == quoted(s@),
{
    format!("{:?}", s)
}

fn digit_text(d: u64) -> (text: &'static str)
    requires
        d < 10,
    ensures
        text@ == seq![digit(d as nat)],
{
    proof {
        reveal_strlit("0");
        reveal_strlit("1");
        reveal_strlit("2");
        reveal_strlit("3");
        reveal_strlit("4");
        reveal_strlit("5");
        reveal_strlit("6");
        reveal_strlit("7");
        reveal_strlit("8");
        reveal_strlit("9");
    }
    match d {
        0 => "0",
        1 => "1",
        2 => "2",
        3 => "3",
        4 => "4",
        5 => "5",
        6 => "6",
        7 => "7",
        8 => "8",
        _ => "9",
    }
}

/// Renders a natural number.
pub fn render_decimal(n: u64) -> (text: String)
    ensures
        text@ == decimal(n as nat),
    decreases n,
{
    if n < 10 {
        String::from_str(digit_text(n))
    } else {
        let mut text = render_decimal(n / 10);
        text.append(digit_text(n % 10));
        text
    }
}

/// Renders an integer.
pub fn render_integer(i: i32) -> (text: String)
    ensures
        text@ == integer(i as int),
{
    if i < 0 {
        let mut text = String::from_str("-");
        let magnitude: u64 = (-(i as i64)) as u64;
        text.append(render_decimal(magnitude).as_str());
        text
    } else {
        render_decimal(i as u64)
    }
}

/// Renders a truth value.
pub fn render_boolean(b: bool) -> (text: String)
    ensures
        text@ == boolean(b),
{
    if b {
        String::from_str("true")
    } else {
        String::from_str("false")
    }
}

/// Wraps the text of a present value.
pub fn render_some(content: String) -> (text: String)
    ensures
        text@ == optional(Some(content@)),
{
    let mut text = String::from_str("Some(");
    text.append(content.as_str());
    text.append(")");
    text
}

/// The text of an absent value.
pub fn render_none() -> (text: String)
    ensures
        text@ == optional(None),
{
    String::from_str("None")
}

/// The text of an optional integer.
pub open spec fn optional_integer(i: Option<i32>) -> Seq<char> {
    match i {
        None => optional(None),
        Some(i) => optional(Some(integer(i as int))),
    }
}

/// Renders an optional signed value.
pub fn render_optional_integer(i: Option<i32>) -> (text: String)
    ensures
        text@ == optional_integer(i),
{
    match i {
        None => render_none(),
        Some(i) => render_some(render_integer(i)),
    }
}

/// The text of an optional natural number.
pub open spec fn optional_natural(n: Option<u32>) -> Seq<char> {
    match n {
        None => optional(None),
        Some(n) => optional(Some(decimal(n as nat))),
    }
}

/// Renders an optional unsigned value.
pub fn render_optional_natural(n: Option<u32>) -> (text: String)
    ensures
        text@ == optional_natural(n),
{
    match n {
        None => render_none(),
        Some(n) => render_some(render_decimal(n as u64)),
    }
}

/// A value with a text of its own.
pub trait Rendered: View + Sized {
    /// The text of a value with this view.
    spec fn text_of(value: Self::V) -> Seq<char>;

    /// Renders the value.
    fn render(&self) -> (text: String)
        ensures
            text@ == Self::text_of(self@),
    ;
}

/// The texts of the items of a sequence.
pub open spec fn texts<T: Rendered>(items: Seq<T::V>) -> Seq<Seq<char>> {
    items.map_values(|item: T::V| T::text_of(item))
}

/// The views of the items of a sequence.
pub open spec fn views<T: View>(items: Seq<T>) -> Seq<T::V> {
    items.map_values(|item: T| item@)
}

/// Renders an ordered collection.
pub fn render_list<T: Rendered>(items: &Vec<T>) -> (text: String)
    ensures
        text@ == list(texts::<T>(views(items@))),
{
    let mut text = String::from_str("[");
    let ghost all = texts::<T>(views(items@));
    let mut i: usize = 0;
    while i < items.len()
        invariant
            i <= items.len(),
            all == texts::<T>(views(items@)),
            text@ == "["@ + joined(all.take(i as int), ", "@),
        decreases items.len() - i,
    {
        proof {
            assert(all.take(i + 1).drop_last() =~= all.take(i as int));
        }
        if i > 0 {
            text.append(", ");
        }
        text.append(items[i].render().as_str());
        i = i + 1;
    }
    proof {
        assert(all.take(items.len() as int) =~= all);
    }
    text.append("]");
    text
}

} // verus!
