//! Views of the strings that the library passes around.

use vstd::prelude::*;

verus! {

/// The text of each string of a sequence.
pub open spec fn texts(strings: Seq<String>) -> Seq<Seq<char>> {
    Seq::new(strings.len(), |i: int| strings[i]@)
}

/// The text of both halves of each pair of a sequence.
pub open spec fn text_pairs(pairs: Seq<(String, String)>) -> Seq<(Seq<char>, Seq<char>)> {
    Seq::new(pairs.len(), |i: int| (pairs[i].0@, pairs[i].1@))
}

/// The text of each entity and of its list of edges.
pub open spec fn text_entries(entries: Seq<(String, Vec<String>)>) -> Seq<
    (Seq<char>, Seq<Seq<char>>),
> {
    Seq::new(entries.len(), |i: int| (entries[i].0@, texts(entries[i].1@)))
}

/// The text of each key and the bytes of its value.
pub open spec fn byte_entries(entries: Seq<(String, Vec<u8>)>) -> Seq<(Seq<char>, Seq<u8>)> {
    Seq::new(entries.len(), |i: int| (entries[i].0@, entries[i].1@))
}

/// The strings of `strings` in reverse order.
pub fn reversed(strings: &Vec<String>) -> (result: Vec<String>)
    ensures
        texts(result@) == texts(strings@).reverse(),
{
    let mut result: Vec<String> = Vec::new();
    let mut remaining: usize = strings.len();
    while remaining > 0
        invariant
            remaining <= strings.len(),
            result.len() == strings.len() - remaining,
            forall|i: int| 0 <= i < result.len() ==> result[i]@ == strings[strings.len() - 1 - i]@,
        decreases remaining,
    {
        remaining = remaining - 1;
        result.push(strings[remaining].clone());
    }
    result
}

/// Whether `strings` holds a string with the text of `wanted`.
pub fn holds(strings: &Vec<String>, wanted: &String) -> (found: bool)
    ensures
        found == texts(strings@).contains(wanted@),
{
    let mut i: usize = 0;
    while i < strings.len()
        invariant
            i <= strings.len(),
            forall|j: int| 0 <= j < i ==> strings[j]@ != wanted@,
        decreases strings.len() - i,
    {
        if strings[i] == *wanted {
            assert(texts(strings@)[i as int] == wanted@);
            return true;
        }
        i = i + 1;
    }
    false
}

/// A copy of `strings`.
pub fn copied(strings: &Vec<String>) -> (result: Vec<String>)
    ensures
        texts(result@) == texts(strings@),
{
    let mut result: Vec<String> = Vec::new();
    let mut i: usize = 0;
    while i < strings.len()
        invariant
            i <= strings.len(),
            result.len() == i,
            forall|j: int| 0 <= j < i ==> result[j]@ == strings[j]@,
        decreases strings.len() - i,
    {
        result.push(strings[i].clone());
        i = i + 1;
    }
    result
}

} // verus!
