//! Message texts: decimal numerals and a small concatenating builder.

use vstd::prelude::*;

verus! {

/// The decimal digit `d` as a character.
pub open spec fn digit(d: nat) -> char {
    (48 + d) as char
}

/// The decimal numeral of `n`, without leading zeros.
pub open spec fn decimal(n: nat) -> Seq<char>
    decreases n,
{
    if n < 10 {
        seq![digit(n)]
    } else {
        decimal(n / 10).push(digit(n % 10))
    }
}

/// The decimal numeral of `n` with a minus sign in front of negative numbers.
pub open spec fn signed_decimal(n: int) -> Seq<char> {
    if n < 0 {
        "-"@ + decimal((-n) as nat)
    } else {
        decimal(n as nat)
    }
}

fn digit_text(d: u64) -> (s: &'static str)
    requires
        d < 10,
    ensures
        s@ == seq![digit(d as nat)],
{
    proof {
        reveal_strlit("0");
        reveal_strlit("1");
        reveal_strlit("2");
        reveal_strlit("3");
        reveal_strlit("4");
        reveal_strlit("5");
        reveal_strlit("6");
        reveal_strlit("7");
        reveal_strlit("8");
        reveal_strlit("9");
    }
    if d == 0 {
        "0"
    } else if d == 1 {
        "1"
    } else if d == 2 {
        "2"
    } else if d == 3 {
        "3"
    } else if d == 4 {
        "4"
    } else if d == 5 {
        "5"
    } else if d == 6 {
        "6"
    } else if d == 7 {
        "7"
    } else if d == 8 {
        "8"
    } else {
        "9"
    }
}

fn decimal_text(n: u64) -> (s: String)
    ensures
        s@ == decimal(n as nat),
    decreases n,
{
    if n < 10 {
        String::from_str(digit_text(n))
    } else {
        let mut s = decimal_text(n / 10);
        s.append(digit_text(n % 10));
        s
    }
}

/// A message under construction.
pub struct Message {
    text: String,
}

impl View for Message {
    type V = Seq<char>;

    closed spec fn view(&self) -> Seq<char> {
        self.text@
    }
}

impl Message {
    /// Starts a message with `s`.
    pub fn new(s: &str) -> (m: Message)
        ensures
            m@ == s@,
    {
        Message { text: String::from_str(s) }
    }

    /// Appends `s`.
    pub fn text(self, s: &str) -> (m: Message)
        ensures
            m@ == self@ + s@,
    {
        Message { text: self.text.concat(s) }
    }

    /// Appends the decimal numeral of `n`.
    pub fn num(self, n: usize) -> (m: Message)
        ensures
            m@ == self@ + decimal(n as nat),
    {
        let d = decimal_text(n as u64);
        self.text(d.as_str())
    }

    /// Appends the signed decimal numeral of `n`.
    pub fn signed(self, n: i64) -> (m: Message)
        ensures
            m@ == self@ + signed_decimal(n as int),
    {
        if n < 0 {
            let magnitude: u64 = (-(n + 1)) as u64 + 1;
            let d = decimal_text(magnitude);
            let signed = String::from_str("-").concat(d.as_str());
            self.text(signed.as_str())
        } else {
            let d = decimal_text(n as u64);
            self.text(d.as_str())
        }
    }

    /// The finished text.
    pub fn done(self) -> (s: String)
        ensures
            s@ == self@,
    {
        self.text
    }
}

// ── quoted text ─────────────────────────────────────────────────────────────

/// A string as `{:?}` prints it: in double quotes, with special characters escaped.
pub uninterp spec fn quoted(s: Seq<char>) -> Seq<char>;

/// Calls `<str as core::fmt::Debug>::fmt` through `format!`. The text is a function of the string
/// alone; which characters are escaped, and how, is left open.
#[verifier::external_body]
pub(crate) fn quote(s: &str) -> (r: String)
    ensures
        r@ == quoted(s@),
{
    format!("{:?}", s)
}

} // verus!
