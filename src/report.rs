//! The summary of a reconciliation run, as text.
use vstd::prelude::*;
use vstd::string::*;
use crate::code_system::Statistics;
use crate::concept::Concept;

verus! {

/// The decimal digits of `n`, most significant first, with no leading zero.
pub open spec fn decimal(n: nat) -> Seq<char>
    decreases n,
{
    let digit = seq!['0', '1', '2', '3', '4', '5', '6', '7', '8', '9'][(n % 10) as int];
    if n < 10 {
        seq![digit]
    } else {
        decimal(n / 10).push(digit)
    }
}

/// Relies on `usize::to_string`, which writes the number in decimal.
#[verifier::external_body]
fn decimal_text(n: usize) -> (r: String)
    ensures
        r@ == decimal(n as nat),
{
    n.to_string()
}

/// The report: a title line, then one line per count in a fixed order.
pub open spec fn report_text(s: Statistics) -> Seq<char> {
    "STATISTICS:\n"@ + "pre-existing codes:\t"@ + decimal(s.already_exists as nat) + "\n"@
        + "wrong displays:\t\t"@ + decimal(s.wrong_display as nat) + "\n"@ + "non-NCIT codes:\t\t"@
        + decimal(s.not_ncit_code as nat) + "\n"@ + "new codes:\t\t"@ + decimal(s.new_code as nat) + "\n"@
}

impl Statistics {
    /// Renders the counts for people to read.
    pub fn report(&self) -> (r: String)
        ensures
            r@ == report_text(*self),
    {
        let mut out = "STATISTICS:\n".to_string();
        out.append("pre-existing codes:\t");
        out.append(decimal_text(self.already_exists).as_str());
        out.append("\n");
        out.append("wrong displays:\t\t");
        out.append(decimal_text(self.wrong_display).as_str());
        out.append("\n");
        out.append("non-NCIT codes:\t\t");
        out.append(decimal_text(self.not_ncit_code).as_str());
        out.append("\n");
        out.append("new codes:\t\t");
        out.append(decimal_text(self.new_code).as_str());
        out.append("\n");
        out
    }
}

impl Concept {
    /// The code followed by the display in quotes.
    pub fn label(&self) -> (r: String)
        ensures
            r@ == self.code@ + " \""@ + self.display@ + "\""@,
    {
        let mut out = self.code.clone();
        out.append(" \"");
        out.append(self.display.as_str());
        out.append("\"");
        out
    }
}

} // verus!
