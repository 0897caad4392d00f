use vstd::prelude::*;
use vstd::string::StrSliceExecFns;
use vstd::string::StringExecFns;

verus! {

/// `m` zeros
pub open spec fn zeros(m: nat) -> Seq<char>
    decreases m,
{
    if m == 0 {
        Seq::empty()
    } else {
        zeros((m - 1) as nat) + "0"@
    }
}

/// `digits`, padded on the left with zeros to `width` characters
pub open spec fn pad_zeros(digits: Seq<char>, width: nat) -> Seq<char> {
    if digits.len() < width {
        zeros((width - digits.len()) as nat) + digits
    } else {
        digits
    }
}

/// An empty text is written "0"
pub open spec fn or_zero(t: Seq<char>) -> Seq<char> {
    if t.len() == 0 {
        "0"@
    } else {
        t
    }
}

/// The decimal text of `numer / 10^pow10`, from the text of `numer`: the
/// numerator padded with zeros to `pow10` characters, with a point before its
/// last `pow10` characters; an empty side of the point is written "0"
pub open spec fn decimal_text(numer: Seq<char>, pow10: nat) -> Seq<char> {
    let p = pad_zeros(numer, pow10);
    let dot = p.len() - pow10;
    or_zero(p.subrange(0, dot)) + "."@ + or_zero(p.subrange(dot, p.len() as int))
}

proof fn lemma_zeros_len(m: nat)
    ensures
        zeros(m).len() == m,
    decreases m,
{
    reveal_strlit("0");
    if m > 0 {
        lemma_zeros_len((m - 1) as nat);
    }
}

/// Write `numer / 10^pow10` in decimal, from the text of `numer`, a number
/// whose denominator is a power of ten after scaling
pub fn decimal_point_text(numer: &str, pow10: usize) -> (s: String)
    ensures
        s@ == decimal_text(numer@, pow10 as nat),
{
    let n = numer.unicode_len();
    let mut padded = String::new();
    let mut k: usize = n;
    let ghost mut added: nat = 0;
    while k < pow10
        invariant
            n == numer@.len(),
            n <= k,
            k <= pow10 || k == n,
            added == k - n,
            padded@ == zeros(added),
        decreases pow10 - k,
    {
        padded.append("0");
        k = k + 1;
        proof {
            added = added + 1;
        }
    }
    padded.append(numer);
    proof {
        lemma_zeros_len(added);
        assert(padded@ == pad_zeros(numer@, pow10 as nat)) by {
            if n < pow10 {
                assert(added == pow10 - n);
            } else {
                assert(added == 0);
                assert(zeros(0) + numer@ =~= numer@);
            }
        }
    }
    let text = padded.as_str();
    let len = text.unicode_len();
    let dot = len - pow10;
    let mut out = String::new();
    if dot == 0 {
        out.append("0");
    } else {
        out.append(text.substring_char(0, dot));
    }
    out.append(".");
    if dot == len {
        out.append("0");
    } else {
        out.append(text.substring_char(dot, len));
    }
    proof {
        let p = padded@;
        assert(p.subrange(0, dot as int).len() == dot);
        assert(Seq::<char>::empty() + or_zero(p.subrange(0, dot as int)) =~= or_zero(p.subrange(0, dot as int)));
    }
    out
}

} // verus!
