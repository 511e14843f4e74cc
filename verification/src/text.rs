//! Small helpers for building text.

use vstd::prelude::*;

verus! {

/// The decimal digit for a number below ten.
pub open spec fn digit_text(digit: nat) -> Seq<char> {
    if digit == 0 {
        "0"@
    } else if digit == 1 {
        "1"@
    } else if digit == 2 {
        "2"@
    } else if digit == 3 {
        "3"@
    } else if digit == 4 {
        "4"@
    } else if digit == 5 {
        "5"@
    } else if digit == 6 {
        "6"@
    } else if digit == 7 {
        "7"@
    } else if digit == 8 {
        "8"@
    } else {
        "9"@
    }
}

/// A number written in decimal digits, without leading zeros.
pub open spec fn decimal_text(number: nat) -> Seq<char>
    decreases number,
{
    if number < 10 {
        digit_text(number)
    } else {
        decimal_text(number / 10) + digit_text(number % 10)
    }
}

/// Computes [`digit_text`].
fn digit(value: u64) -> (text: &'static str)
    requires
        value < 10,
    ensures
        text@ == digit_text(value as nat),
{
    if value == 0 {
        "0"
    } else if value == 1 {
        "1"
    } else if value == 2 {
        "2"
    } else if value == 3 {
        "3"
    } else if value == 4 {
        "4"
    } else if value == 5 {
        "5"
    } else if value == 6 {
        "6"
    } else if value == 7 {
        "7"
    } else if value == 8 {
        "8"
    } else {
        "9"
    }
}

/// Writes a number in decimal digits: see [`decimal_text`].
pub fn decimal(number: u64) -> (text: String)
    ensures
        text@ == decimal_text(number as nat),
    decreases number,
{
    if number < 10 {
        digit(number).to_owned()
    } else {
        let mut text = decimal(number / 10);
        text.append(digit(number % 10));
        text
    }
}

/// A number of milliseconds written in seconds, with three decimals.
pub open spec fn seconds_text(millis: nat) -> Seq<char> {
    decimal_text(millis / 1000) + "."@ + digit_text(millis / 100 % 10) + digit_text(
        millis / 10 % 10,
    ) + digit_text(millis % 10)
}

/// Computes [`seconds_text`].
pub fn seconds(millis: u64) -> (text: String)
    ensures
        text@ == seconds_text(millis as nat),
{
    let mut text = decimal(millis / 1000);
    text.append(".");
    text.append(digit(millis / 100 % 10));
    text.append(digit(millis / 10 % 10));
    text.append(digit(millis % 10));
    text
}

/// A number of hundredths written as a decimal fraction, with three
/// decimals.
pub open spec fn hundredths_text(hundredths: nat) -> Seq<char> {
    decimal_text(hundredths / 100) + "."@ + digit_text(hundredths / 10 % 10) + digit_text(
        hundredths % 10,
    ) + "0"@
}

/// Computes [`hundredths_text`].
pub fn hundredths(value: u64) -> (text: String)
    ensures
        text@ == hundredths_text(value as nat),
{
    let mut text = decimal(value / 100);
    text.append(".");
    text.append(digit(value / 10 % 10));
    text.append(digit(value % 10));
    text.append("0");
    text
}

/// A list of the given texts as owned strings.
pub fn owned(texts: &[&str]) -> (list: Vec<String>)
    ensures
        list@.len() == texts@.len(),
        forall|i: int| 0 <= i < texts@.len() ==> (#[trigger] list@[i])@ == texts@[i]@,
{
    let mut list: Vec<String> = Vec::new();
    let mut i: usize = 0;
    while i < texts.len()
        invariant
            i <= texts@.len(),
            list@.len() == i,
            forall|j: int| 0 <= j < i ==> (#[trigger] list@[j])@ == texts@[j]@,
        decreases texts@.len() - i,
    {
        list.push(texts[i].to_owned());
        i += 1;
    }
    list
}

} // verus!
