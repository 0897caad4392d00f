use vstd::prelude::*;
use vstd::string::StringExecFns;

verus! {

/// Associativity of operators
#[derive(Debug, PartialEq, Eq, Structural, Clone, Copy)]
pub enum Associativity {
    Left,
    Right,
}

/// A named group of operators that share precedence and associativity
pub struct PrecedenceGroup {
    /// Name of precedence group
    name: String,
    /// Associativity of operators in group
    associativity: Associativity,
}

/// The group index that `mapping` gives to `op`: the first entry for it
pub open spec fn lookup(mapping: Seq<(Seq<char>, nat)>, op: Seq<char>) -> Option<nat>
    decreases mapping.len(),
{
    if mapping.len() == 0 {
        Option::None
    } else if mapping[0].0 == op {
        Some(mapping[0].1)
    } else {
        lookup(mapping.drop_first(), op)
    }
}

/// Precedence groups of operators
pub struct PrecedenceGroups {
    /// Precedence groups
    groups: Vec<PrecedenceGroup>,
    /// Mapping of operators to group
    operators_mapping: Vec<(String, usize)>,
}

impl PrecedenceGroups {
    /// The operator mapping as text and group index
    pub closed spec fn mapping(&self) -> Seq<(Seq<char>, nat)> {
        self.operators_mapping@.map_values(|e: (String, usize)| (e.0@, e.1 as nat))
    }

    /// Number of groups
    pub closed spec fn group_count(&self) -> nat {
        self.groups@.len()
    }

    /// Associativity of the group at `index`
    pub closed spec fn associativity_of(&self, index: nat) -> Associativity {
        self.groups@[index as int].associativity
    }

    /// Name of the group at `index`
    pub closed spec fn name_of(&self, index: nat) -> Seq<char> {
        self.groups@[index as int].name@
    }

    /// There is a group, every operator maps to one of them, and no operator
    /// is mapped twice
    pub open spec fn wf(&self) -> bool {
        &&& self.group_count() >= 1
        &&& forall|k: int| 0 <= k < self.mapping().len() ==> #[trigger] self.mapping()[k].1 < self.group_count()
        &&& forall|j: int, k: int|
            0 <= j < k < self.mapping().len() ==> #[trigger] self.mapping()[j].0 != #[trigger] self.mapping()[k].0
    }

    /// Group of an operator: the mapped one, else the first (default) group
    pub open spec fn group_of(&self, op: Seq<char>) -> nat {
        match lookup(self.mapping(), op) {
            Some(i) => i,
            Option::None => 0,
        }
    }

    /// Does `next` bind tighter than `prev` when it follows it?
    pub open spec fn spec_has_greater_precedence(&self, next: Seq<char>, prev: Seq<char>) -> bool {
        if self.group_of(next) == self.group_of(prev) {
            next == prev && self.associativity_of(self.group_of(next)) == Associativity::Right
        } else {
            self.group_of(next) > self.group_of(prev)
        }
    }

    /// Does `next` bind looser than `prev` when it follows it?
    pub open spec fn spec_has_less_precedence(&self, next: Seq<char>, prev: Seq<char>) -> bool {
        if self.group_of(next) == self.group_of(prev) {
            next == prev && self.associativity_of(self.group_of(next)) == Associativity::Left
        } else {
            self.group_of(next) < self.group_of(prev)
        }
    }

    /// Get precedence group index
    fn get_precedence_group_index(&self, op: &str) -> (i: usize)
        requires
            self.wf(),
        ensures
            i == self.group_of(op@),
            i < self.group_count(),
    {
        let key = String::from_str(op);
        let mut k: usize = 0;
        assert(self.mapping().skip(0) =~= self.mapping());
        while k < self.operators_mapping.len()
            invariant
                k <= self.mapping().len(),
                key@ == op@,
                self.mapping().len() == self.operators_mapping@.len(),
                self.wf(),
                lookup(self.mapping(), key@) == lookup(self.mapping().skip(k as int), key@),
            decreases self.operators_mapping@.len() - k,
        {
            let ghost rest = self.mapping().skip(k as int);
            assert(rest[0] == self.mapping()[k as int]);
            assert(self.mapping()[k as int] == (
                self.operators_mapping@[k as int].0@,
                self.operators_mapping@[k as int].1 as nat,
            ));
            assert(rest.drop_first() =~= self.mapping().skip(k + 1));
            let entry = &self.operators_mapping[k];
            if entry.0 == key {
                assert(rest.len() > 0);
                assert(rest[0].0 == key@);
                assert(lookup(rest, key@) == Some(rest[0].1));
                assert(self.group_of(key@) == entry.1);
                return entry.1;
            }
            k = k + 1;
        }
        assert(self.mapping().skip(k as int).len() == 0);
        0
    }

    /// Check that next operator has greater precedence than previous
    pub fn has_greater_precedence(&self, next: &str, prev: &str) -> (b: bool)
        requires
            self.wf(),
        ensures
            b == self.spec_has_greater_precedence(next@, prev@),
    {
        let next_group_index = self.get_precedence_group_index(next);
        let prev_group_index = self.get_precedence_group_index(prev);
        if next_group_index == prev_group_index {
            let same = String::from_str(next) == String::from_str(prev);
            return same && self.groups[next_group_index].associativity == Associativity::Right;
        }
        next_group_index > prev_group_index
    }

    /// Check that next operator has less precedence than previous
    pub fn has_less_precedence(&self, next: &str, prev: &str) -> (b: bool)
        requires
            self.wf(),
        ensures
            b == self.spec_has_less_precedence(next@, prev@),
    {
        let next_group_index = self.get_precedence_group_index(next);
        let prev_group_index = self.get_precedence_group_index(prev);
        if next_group_index == prev_group_index {
            let same = String::from_str(next) == String::from_str(prev);
            return same && self.groups[next_group_index].associativity == Associativity::Left;
        }
        next_group_index < prev_group_index
    }

    /// The default groups: "DefaultPrecedence", "AdditionPrecedence" (`+`,
    /// `-`) and "MultiplicationPrecedence" (`*`, `/`), all left-associative
    pub open spec fn is_default(&self) -> bool {
        &&& self.wf()
        &&& self.group_count() == 3
        &&& self.name_of(0) == "DefaultPrecedence"@
        &&& self.name_of(1) == "AdditionPrecedence"@
        &&& self.name_of(2) == "MultiplicationPrecedence"@
        &&& self.associativity_of(0) == Associativity::Left
        &&& self.associativity_of(1) == Associativity::Left
        &&& self.associativity_of(2) == Associativity::Left
        &&& self.mapping() == seq![("+"@, 1nat), ("-"@, 1nat), ("*"@, 2nat), ("/"@, 2nat)]
    }
}

impl Default for PrecedenceGroups {
    /// The default groups
    fn default() -> (g: Self)
        ensures
            g.is_default(),
    {
        let groups = vec![
            PrecedenceGroup {
                name: String::from_str("DefaultPrecedence"),
                associativity: Associativity::Left,
            },
            PrecedenceGroup {
                name: String::from_str("AdditionPrecedence"),
                associativity: Associativity::Left,
            },
            PrecedenceGroup {
                name: String::from_str("MultiplicationPrecedence"),
                associativity: Associativity::Left,
            },
        ];
        let operators_mapping = vec![
            (String::from_str("+"), 1usize),
            (String::from_str("-"), 1usize),
            (String::from_str("*"), 2usize),
            (String::from_str("/"), 2usize),
        ];
        let g = Self { groups, operators_mapping };
        proof {
            reveal_strlit("+");
            reveal_strlit("-");
            reveal_strlit("*");
            reveal_strlit("/");
            assert(g.mapping() =~= seq![("+"@, 1nat), ("-"@, 1nat), ("*"@, 2nat), ("/"@, 2nat)]);
            assert("+"@[0] != "-"@[0]);
            assert("+"@[0] != "*"@[0]);
            assert("+"@[0] != "/"@[0]);
            assert("-"@[0] != "*"@[0]);
            assert("-"@[0] != "/"@[0]);
            assert("*"@[0] != "/"@[0]);
        }
        g
    }
}

/// An operator never binds both tighter and looser than another, and of two
/// operators in different groups, one binds tighter after the other exactly
/// when the other binds looser after it.
pub proof fn lemma_precedence_consistent(g: PrecedenceGroups, a: Seq<char>, b: Seq<char>)
    requires
        g.wf(),
    ensures
        !(g.spec_has_greater_precedence(a, b) && g.spec_has_less_precedence(a, b)),
        g.group_of(a) != g.group_of(b) ==> (g.spec_has_greater_precedence(a, b)
            == g.spec_has_less_precedence(b, a)),
        g.spec_has_greater_precedence(a, a) != g.spec_has_less_precedence(a, a),
{
}

} // verus!
