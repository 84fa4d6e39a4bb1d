//! Small producers and consumers: lines of standard input that match a
//! pattern, a burst of numbered events, and printing to standard output.
//! Their blocking parts (reading, sleeping, printing) belong to the driver.
use vstd::prelude::*;
use crate::event::{Event, Level, Named};

verus! {

/// Whether `pattern` is a regular expression that the regex crate accepts.
pub uninterp spec fn regex_compiles(pattern: Seq<char>) -> bool;

/// Whether the regex crate finds a match of `pattern` in `text`.
pub uninterp spec fn regex_accepts(pattern: Seq<char>, text: Seq<char>) -> bool;

/// Relies on `regex::Regex::new`, then `regex::Regex::is_match`: `None` when
/// the pattern does not compile, else whether it matches somewhere in `text`.
#[verifier::external_body]
fn regex_is_match(pattern: &str, text: &str) -> (r: Option<bool>)
    ensures
        r is Some <==> regex_compiles(pattern@),
        r matches Some(b) ==> b == regex_accepts(pattern@, text@),
{
    match regex::Regex::new(pattern) {
        Ok(re) => Some(re.is_match(text)),
        Err(_) => None,
    }
}

/// A producer of one event for each line of standard input that mentions
/// `bash`.
pub struct StdinWaiter {
    pub pattern: String,
}

impl StdinWaiter {
    pub fn new() -> (r: StdinWaiter)
        ensures
            r.pattern@ == "^(.*)bash(.*)$"@,
            r.spec_name() == "StdinWaiter"@,
    {
        StdinWaiter { pattern: "^(.*)bash(.*)$".to_owned() }
    }

    /// The event for one line of input, when the pattern matches it.
    pub fn event_for_line(&self, line: &str) -> (r: Option<Event>)
        ensures
            r is Some <==> regex_compiles(self.pattern@) && regex_accepts(self.pattern@, line@),
            r matches Some(e) ==> e.description@ == line@ && e.level == Level::WARN
                && e.source@ == "StdinWaiter"@,
    {
        let matched = match regex_is_match(self.pattern.as_str(), line) {
            Some(b) => b,
            None => false,
        };
        self.event_if_matched(line, matched)
    }

    /// The event for a line that the pattern did or did not match: named
    /// `A name`, of category `Cat` and level `WARN`, described by the line.
    pub fn event_if_matched(&self, line: &str, matched: bool) -> (r: Option<Event>)
        ensures
            r is Some <==> matched,
            r matches Some(e) ==> {
                &&& e.name@ == "A name"@
                &&& e.description@ == line@
                &&& e.category@ == "Cat"@
                &&& e.level == Level::WARN
                &&& e.source@ == "StdinWaiter"@
            },
    {
        if matched {
            Some(Event::new(self, "A name", line, "Cat", Level::WARN))
        } else {
            None
        }
    }
}

impl Named for StdinWaiter {
    open spec fn spec_name(&self) -> Seq<char> {
        "StdinWaiter"@
    }

    fn name(&self) -> (r: &str) {
        "StdinWaiter"
    }
}

/// A producer that emits a short burst of numbered events.
pub struct SleepyWaiter {}

/// Relies on std's formatting of `u32` in decimal: `EVENT ` and the number.
#[verifier::external_body]
fn numbered_description(i: u32) -> (r: String)
    ensures
        r@ == seq!['E', 'V', 'E', 'N', 'T', ' '] + decimal_chars(i as nat),
{
    format!("EVENT {}", i)
}

/// The decimal digits of `n`, without leading zeros (`0` for zero).
pub open spec fn decimal_chars(n: nat) -> Seq<char>
    decreases n,
{
    if n < 10 {
        seq![digit_char(n)]
    } else {
        decimal_chars(n / 10).push(digit_char(n % 10))
    }
}

pub open spec fn digit_char(d: nat) -> char {
    if d == 0 {
        '0'
    } else if d == 1 {
        '1'
    } else if d == 2 {
        '2'
    } else if d == 3 {
        '3'
    } else if d == 4 {
        '4'
    } else if d == 5 {
        '5'
    } else if d == 6 {
        '6'
    } else if d == 7 {
        '7'
    } else if d == 8 {
        '8'
    } else {
        '9'
    }
}

impl SleepyWaiter {
    /// How many events one run emits.
    pub const COUNT: u32 = 10;

    pub fn new() -> (r: SleepyWaiter)
        ensures
            r.spec_name() == "SleepyWaiter"@,
    {
        SleepyWaiter {}
    }

    /// The `i`th event of a run: named `A`, described `EVENT i`, of category
    /// `Doggo` and level `WARN`, from this waiter.
    pub fn event(&self, i: u32) -> (r: Event)
        ensures
            r.name@ == seq!['A'],
            r.description@ == seq!['E', 'V', 'E', 'N', 'T', ' '] + decimal_chars(i as nat),
            r.category@ == seq!['D', 'o', 'g', 'g', 'o'],
            r.level == Level::WARN,
            r.source@ == "SleepyWaiter"@,
    {
        let description = numbered_description(i);
        let r = Event::new(self, "A", description.as_str(), "Doggo", Level::WARN);
        proof {
            reveal_strlit("A");
            reveal_strlit("Doggo");
        }
        r
    }
}

impl Named for SleepyWaiter {
    open spec fn spec_name(&self) -> Seq<char> {
        "SleepyWaiter"@
    }

    fn name(&self) -> (r: &str) {
        "SleepyWaiter"
    }
}

/// A consumer that prints every event it is handed.
pub struct StdoutNotifier {}

impl StdoutNotifier {
    pub fn new() -> (r: StdoutNotifier)
        ensures
            r.spec_name() == "StdoutNotifier"@,
    {
        StdoutNotifier {}
    }
}

impl Named for StdoutNotifier {
    open spec fn spec_name(&self) -> Seq<char> {
        "StdoutNotifier"@
    }

    fn name(&self) -> (r: &str) {
        "StdoutNotifier"
    }
}

} // verus!
