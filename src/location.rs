use vstd::prelude::*;
use vstd::string::*;

verus! {

/// A place in a source file: path, line and column.
#[derive(Debug, Default, PartialEq, Eq, PartialOrd, Ord)]
pub struct Location {
    path: String,
    line: usize,
    column: usize,
}

/// Decimal digits of a natural number, most significant first.
pub open spec fn decimal(n: nat) -> Seq<char>
    decreases n,
{
    if n < 10 {
        seq![digit_char(n)]
    } else {
        decimal(n / 10).push(digit_char(n % 10))
    }
}

/// The ASCII digit for a value below ten.
pub open spec fn digit_char(d: nat) -> char {
    if d == 0 {
        '0'
    } else if d == 1 {
        '1'
    } else if d == 2 {
        '2'
    } else if d == 3 {
        '3'
    } else if d == 4 {
        '4'
    } else if d == 5 {
        '5'
    } else if d == 6 {
        '6'
    } else if d == 7 {
        '7'
    } else if d == 8 {
        '8'
    } else {
        '9'
    }
}

/// How a location prints: `path:line:column`.
pub open spec fn location_text(path: Seq<char>, line: nat, column: nat) -> Seq<char> {
    path + seq![':'] + decimal(line) + seq![':'] + decimal(column)
}

/// The digit for `d`, as text.
fn digit_text(d: usize) -> (r: &'static str)
    requires
        d < 10,
    ensures
        r@ == seq![digit_char(d as nat)],
{
    proof {
        reveal_strlit("0");
        reveal_strlit("1");
        reveal_strlit("2");
        reveal_strlit("3");
        reveal_strlit("4");
        reveal_strlit("5");
        reveal_strlit("6");
        reveal_strlit("7");
        reveal_strlit("8");
        reveal_strlit("9");
    }
    if d == 0 {
        "0"
    } else if d == 1 {
        "1"
    } else if d == 2 {
        "2"
    } else if d == 3 {
        "3"
    } else if d == 4 {
        "4"
    } else if d == 5 {
        "5"
    } else if d == 6 {
        "6"
    } else if d == 7 {
        "7"
    } else if d == 8 {
        "8"
    } else {
        "9"
    }
}

/// `n` in decimal.
pub fn decimal_text(n: usize) -> (r: String)
    ensures
        r@ == decimal(n as nat),
    decreases n,
{
    if n < 10 {
        digit_text(n).to_owned()
    } else {
        let mut r = decimal_text(n / 10);
        r.append(digit_text(n % 10));
        r
    }
}

impl Location {
    pub closed spec fn spec_path(&self) -> Seq<char> {
        self.path@
    }

    pub closed spec fn spec_line(&self) -> nat {
        self.line as nat
    }

    pub closed spec fn spec_column(&self) -> nat {
        self.column as nat
    }

    /// The place at `line` and `column` of the file at `path`.
    pub fn new(path: &str, line: usize, column: usize) -> (r: Location)
        ensures
            r.spec_path() == path@,
            r.spec_line() == line,
            r.spec_column() == column,
    {
        Location { path: path.to_owned(), line, column }
    }

    pub fn path(&self) -> (r: &String)
        ensures
            r@ == self.spec_path(),
    {
        &self.path
    }

    pub fn line(&self) -> (r: usize)
        ensures
            r == self.spec_line(),
    {
        self.line
    }

    pub fn column(&self) -> (r: usize)
        ensures
            r == self.spec_column(),
    {
        self.column
    }

    /// The location as `path:line:column`.
    pub fn to_string(&self) -> (r: String)
        ensures
            r@ == location_text(self.spec_path(), self.spec_line(), self.spec_column()),
    {
        proof {
            reveal_strlit(":");
        }
        self.path.clone().concat(":").concat(decimal_text(self.line).as_str()).concat(":").concat(
            decimal_text(self.column).as_str(),
        )
    }
}

impl Clone for Location {
    fn clone(&self) -> (r: Location)
        ensures
            r.spec_path() == self.spec_path(),
            r.spec_line() == self.spec_line(),
            r.spec_column() == self.spec_column(),
    {
        Location { path: self.path.clone(), line: self.line, column: self.column }
    }
}

} // verus!
