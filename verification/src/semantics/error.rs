use vstd::prelude::*;
use vstd::string::StringExecFns;

verus! {

/// Wrapper around [`Vec`] to display it
#[derive(Debug, PartialEq, Eq)]
pub struct DisplayVec<D>(pub Vec<D>);

/// The items in backquotes, separated by ", "
pub open spec fn quoted_list(items: Seq<Seq<char>>) -> Seq<char>
    decreases items.len(),
{
    if items.len() == 0 {
        Seq::empty()
    } else if items.len() == 1 {
        "`"@ + items[0] + "`"@
    } else {
        quoted_list(items.drop_last()) + ", "@ + "`"@ + items.last() + "`"@
    }
}

impl DisplayVec<String> {
    /// The texts of the items
    pub open spec fn texts(&self) -> Seq<Seq<char>> {
        self.0@.map_values(|s: String| s@)
    }

    /// Display text: the items in backquotes, separated by ", ", in brackets
    pub fn to_string(&self) -> (s: String)
        ensures
            s@ == "["@ + quoted_list(self.texts()) + "]"@,
    {
        let mut s = String::from_str("[");
        let ghost start = s@;
        let mut k: usize = 0;
        while k < self.0.len()
            invariant
                k <= self.0@.len(),
                start == "["@,
                s@ == start + quoted_list(self.texts().subrange(0, k as int)),
            decreases self.0@.len() - k,
        {
            let ghost before = s@;
            if k > 0 {
                s.append(", ");
            }
            s.append("`");
            s.append(self.0[k].as_str());
            s.append("`");
            proof {
                let p = self.texts().subrange(0, k + 1);
                assert(p.drop_last() =~= self.texts().subrange(0, k as int));
                assert(p.last() == self.0@[k as int]@);
                if k == 0 {
                    assert(quoted_list(self.texts().subrange(0, k as int)) =~= Seq::empty());
                    assert(s@ =~= start + quoted_list(p));
                } else {
                    assert(s@ =~= start + quoted_list(p));
                }
            }
            k = k + 1;
        }
        s.append("]");
        assert(self.texts().subrange(0, self.0@.len() as int) =~= self.texts());
        s
    }
}

} // verus!
