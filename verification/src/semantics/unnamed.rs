use vstd::prelude::*;
use vstd::string::StrSliceExecFns;
use vstd::string::StringExecFns;

verus! {

/// Text of a decimal digit
pub open spec fn digit_text(d: nat) -> Seq<char> {
    if d == 0 {
        "0"@
    } else if d == 1 {
        "1"@
    } else if d == 2 {
        "2"@
    } else if d == 3 {
        "3"@
    } else if d == 4 {
        "4"@
    } else if d == 5 {
        "5"@
    } else if d == 6 {
        "6"@
    } else if d == 7 {
        "7"@
    } else if d == 8 {
        "8"@
    } else {
        "9"@
    }
}

/// Decimal text of a number, without leading zeros
pub open spec fn decimal(n: nat) -> Seq<char>
    decreases n,
{
    if n < 10 {
        digit_text(n)
    } else {
        decimal(n / 10) + digit_text(n % 10)
    }
}

/// Append the decimal text of `n` to `s`
pub fn append_decimal(s: &mut String, n: usize)
    ensures
        final(s)@ == old(s)@ + decimal(n as nat),
    decreases n,
{
    if n >= 10 {
        append_decimal(s, n / 10);
    }
    let d = n % 10;
    if d == 0 {
        s.append("0");
    } else if d == 1 {
        s.append("1");
    } else if d == 2 {
        s.append("2");
    } else if d == 3 {
        s.append("3");
    } else if d == 4 {
        s.append("4");
    } else if d == 5 {
        s.append("5");
    } else if d == 6 {
        s.append("6");
    } else if d == 7 {
        s.append("7");
    } else if d == 8 {
        s.append("8");
    } else {
        s.append("9");
    }
}

/// The name that an unnamed parameter at `index` gets
pub open spec fn parameter_name(index: nat) -> Seq<char> {
    "$arg"@ + decimal(index)
}

/// Gives names to unnamed parameters: `$arg` and the parameter's index in
/// its function
pub struct ParameterNamer {
    index: usize,
}

impl View for ParameterNamer {
    type V = nat;

    /// The index of the next parameter
    closed spec fn view(&self) -> nat {
        self.index as nat
    }
}

impl ParameterNamer {
    pub fn new() -> (namer: Self)
        ensures
            namer@ == 0,
    {
        ParameterNamer { index: 0 }
    }

    /// A function starts: its first parameter has index 0
    pub fn enter_function(&mut self)
        ensures
            final(self)@ == 0,
    {
        self.index = 0;
    }

    /// A parameter, whose name is `name`: an empty name is replaced by
    /// `$arg` and the parameter's index
    pub fn enter_parameter(&mut self, name: &mut String)
        requires
            old(self)@ < usize::MAX,
        ensures
            final(self)@ == old(self)@ + 1,
            old(name)@.len() == 0 ==> final(name)@ == parameter_name(old(self)@),
            old(name)@.len() != 0 ==> final(name)@ == old(name)@,
    {
        if name.as_str().unicode_len() == 0 {
            let mut n = String::from_str("$arg");
            append_decimal(&mut n, self.index);
            *name = n;
        }
        self.index = self.index + 1;
    }
}

} // verus!
