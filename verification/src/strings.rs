//! Lists of strings, mostly addresses.
use crate::sets::merged;
use vstd::prelude::*;

verus! {

/// The texts of a list of strings.
pub open spec fn texts(list: Seq<String>) -> Seq<Seq<char>> {
    list.map_values(|s: String| s@)
}

/// Whether a list holds a text.
pub fn holds_text(list: &Vec<String>, text: &String) -> (found: bool)
    ensures
        found == texts(list@).contains(text@),
{
    let mut i: usize = 0;
    while i < list.len()
        invariant
            i <= list@.len(),
            forall|k: int| 0 <= k < i ==> texts(list@)[k] != text@,
        decreases list@.len() - i,
    {
        if list[i] == *text {
            assert(texts(list@)[i as int] == text@);
            return true;
        }
        i += 1;
    }
    false
}

/// A copy of a list.
pub fn copy_texts(list: &Vec<String>) -> (out: Vec<String>)
    ensures
        texts(out@) == texts(list@),
{
    let mut out: Vec<String> = Vec::new();
    let mut i: usize = 0;
    while i < list.len()
        invariant
            i <= list@.len(),
            out@.len() == i,
            forall|k: int| 0 <= k < i ==> (#[trigger] out@[k])@ == list@[k]@,
        decreases list@.len() - i,
    {
        out.push(list[i].clone());
        i += 1;
    }
    assert(texts(out@) =~= texts(list@));
    out
}

/// Extend a list by the texts of another that it does not hold yet.
pub fn merge_texts(list: &mut Vec<String>, more: &Vec<String>)
    ensures
        texts(final(list)@) == merged(texts(old(list)@), texts(more@)),
{
    let ghost start = texts(list@);
    let ghost add = texts(more@);
    let mut i: usize = 0;
    assert(add.take(0) =~= Seq::<Seq<char>>::empty());
    while i < more.len()
        invariant
            i <= more@.len(),
            add == texts(more@),
            start == texts(old(list)@),
            texts(list@) == merged(start, add.take(i as int)),
        decreases more@.len() - i,
    {
        proof {
            assert(add.take(i + 1).drop_last() =~= add.take(i as int));
            assert(add.take(i + 1).last() == add[i as int]);
        }
        if !holds_text(list, &more[i]) {
            let ghost before = texts(list@);
            list.push(more[i].clone());
            assert(texts(list@) =~= before.push(add[i as int]));
        }
        i += 1;
    }
    assert(add.take(i as int) =~= add);
}

} // verus!
