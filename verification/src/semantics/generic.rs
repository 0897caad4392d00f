use vstd::prelude::*;
use vstd::string::StringExecFns;

verus! {

/// The `i`-th capital letter of the Latin alphabet
pub open spec fn letter(i: int) -> char {
    (65 + i) as char
}

/// The letter that the `k`-th probe looks at: from `T` on, cyclically
pub open spec fn probe(k: int) -> int {
    (19 + k) % 26
}

/// A name is taken
pub open spec fn taken(names: Seq<String>, name: Seq<char>) -> bool {
    exists|j: int| 0 <= j < names.len() && (#[trigger] names[j])@ == name
}

/// `name` is the first capital letter, from `T` on and around the
/// alphabet, that none of the names is
pub open spec fn first_free_name(names: Seq<String>, name: Seq<char>) -> bool {
    exists|k: int|
        0 <= k < 26 && name == seq![letter(probe(k))] && !taken(names, name) && forall|j: int|
            0 <= j < k ==> taken(names, seq![letter(#[trigger] probe(j))])
}

/// The text of the `i`-th capital letter
fn letter_text(i: usize) -> (s: String)
    requires
        i < 26,
    ensures
        s@ == seq![letter(i as int)],
{
    let s = match i {
        0 => String::from_str("A"),
        1 => String::from_str("B"),
        2 => String::from_str("C"),
        3 => String::from_str("D"),
        4 => String::from_str("E"),
        5 => String::from_str("F"),
        6 => String::from_str("G"),
        7 => String::from_str("H"),
        8 => String::from_str("I"),
        9 => String::from_str("J"),
        10 => String::from_str("K"),
        11 => String::from_str("L"),
        12 => String::from_str("M"),
        13 => String::from_str("N"),
        14 => String::from_str("O"),
        15 => String::from_str("P"),
        16 => String::from_str("Q"),
        17 => String::from_str("R"),
        18 => String::from_str("S"),
        19 => String::from_str("T"),
        20 => String::from_str("U"),
        21 => String::from_str("V"),
        22 => String::from_str("W"),
        23 => String::from_str("X"),
        24 => String::from_str("Y"),
        _ => String::from_str("Z"),
    };
    proof {
        reveal_strlit("A");
        reveal_strlit("B");
        reveal_strlit("C");
        reveal_strlit("D");
        reveal_strlit("E");
        reveal_strlit("F");
        reveal_strlit("G");
        reveal_strlit("H");
        reveal_strlit("I");
        reveal_strlit("J");
        reveal_strlit("K");
        reveal_strlit("L");
        reveal_strlit("M");
        reveal_strlit("N");
        reveal_strlit("O");
        reveal_strlit("P");
        reveal_strlit("Q");
        reveal_strlit("R");
        reveal_strlit("S");
        reveal_strlit("T");
        reveal_strlit("U");
        reveal_strlit("V");
        reveal_strlit("W");
        reveal_strlit("X");
        reveal_strlit("Y");
        reveal_strlit("Z");
        assert(s@ =~= seq![letter(i as int)]);
    }
    s
}

/// Is `name` among `names`?
fn is_taken(names: &Vec<String>, name: &String) -> (b: bool)
    ensures
        b == taken(names@, name@),
{
    let mut j: usize = 0;
    while j < names.len()
        invariant
            j <= names@.len(),
            forall|k: int| 0 <= k < j ==> (#[trigger] names@[k])@ != name@,
        decreases names@.len() - j,
    {
        if names[j] == *name {
            return true;
        }
        j = j + 1;
    }
    false
}

/// Fewer than 26 names cannot take every letter
proof fn lemma_some_letter_free(names: Seq<String>)
    requires
        names.len() < 26,
    ensures
        exists|k: int| 0 <= k < 26 && !taken(names, seq![letter(#[trigger] probe(k))]),
{
    let letters = Seq::new(26, |k: int| seq![letter(probe(k))]);
    let views = names.map_values(|n: String| n@);
    if forall|k: int| 0 <= k < 26 ==> taken(names, seq![letter(#[trigger] probe(k))]) {
        assert forall|a: int, b: int| 0 <= a < b < 26 implies letters[a] != letters[b] by {
            assert(letters[a][0] != letters[b][0]);
        }
        assert(letters.no_duplicates());
        letters.unique_seq_to_set();
        assert forall|w: Seq<char>| letters.to_set().contains(w) implies views.to_set().contains(w) by {
            let k = choose|k: int| 0 <= k < letters.len() && letters[k] == w;
            assert(taken(names, seq![letter(probe(k))]));
            let j = choose|j: int| 0 <= j < names.len() && (#[trigger] names[j])@ == seq![letter(probe(k))];
            assert(views[j] == w);
        }
        views.lemma_cardinality_of_set();
        vstd::set_lib::lemma_len_subset(letters.to_set(), views.to_set());
    }
}

/// Generate a new unique name for a generic parameter: the first capital
/// letter, from `T` on and around the alphabet, that no parameter is named
pub fn new_unique_name(names: &Vec<String>) -> (name: String)
    requires
        names@.len() < 26,
    ensures
        first_free_name(names@, name@),
{
    proof {
        lemma_some_letter_free(names@);
    }
    let mut i: usize = 19;
    let ghost mut k: int = 0;
    let mut name = letter_text(i);
    while is_taken(names, &name)
        invariant
            names@.len() < 26,
            exists|f: int| 0 <= f < 26 && !taken(names@, seq![letter(#[trigger] probe(f))]),
            0 <= k < 26,
            i == probe(k),
            name@ == seq![letter(i as int)],
            forall|j: int| 0 <= j < k ==> taken(names@, seq![letter(#[trigger] probe(j))]),
        decreases 26 - k,
    {
        proof {
            let f = choose|f: int| 0 <= f < 26 && !taken(names@, seq![letter(#[trigger] probe(f))]);
            assert(f != k);
            if k == 25 {
                assert(f < k);
                assert(taken(names@, seq![letter(probe(f))]));
            }
        }
        i = (i + 1) % 26;
        proof {
            k = k + 1;
        }
        name = letter_text(i);
    }
    name
}

} // verus!
