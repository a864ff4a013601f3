use vstd::prelude::*;

verus! {

/// The byte that separates the components of a path.
pub const SEPARATOR: u8 = 47;

/// The pieces of `s` between separators, in order: an empty string has one
/// empty piece, and each separator starts a new piece.
pub open spec fn split_spec(s: Seq<u8>) -> Seq<Seq<u8>>
    decreases s.len(),
{
    if s.len() == 0 {
        seq![Seq::empty()]
    } else {
        let prev = split_spec(s.drop_last());
        if s.last() == SEPARATOR {
            prev.push(Seq::empty())
        } else {
            prev.update(prev.len() - 1, prev.last().push(s.last()))
        }
    }
}

/// Splits a directory path into its components at each `/`.
pub fn split_path(path: &Vec<u8>) -> (parts: Vec<Vec<u8>>)
    ensures
        parts@.map_values(|p: Vec<u8>| p@) == split_spec(path@),
{
    let mut parts: Vec<Vec<u8>> = Vec::new();
    let mut current: Vec<u8> = Vec::new();
    let mut i: usize = 0;
    assert(path@.subrange(0, 0) =~= Seq::<u8>::empty());
    assert(parts@.map_values(|p: Vec<u8>| p@).push(current@) =~= split_spec(path@.subrange(0, 0)));
    while i < path.len()
        invariant
            0 <= i <= path@.len(),
            parts@.map_values(|p: Vec<u8>| p@).push(current@) == split_spec(path@.subrange(0, i as int)),
        decreases path@.len() - i,
    {
        let ghost before = parts@.map_values(|p: Vec<u8>| p@).push(current@);
        assert(path@.subrange(0, i + 1).drop_last() =~= path@.subrange(0, i as int));
        if path[i] == SEPARATOR {
            let done = current;
            parts.push(done);
            current = Vec::new();
            assert(parts@.map_values(|p: Vec<u8>| p@).push(current@) =~= before.push(Seq::empty()));
        } else {
            current.push(path[i]);
            assert(parts@.map_values(|p: Vec<u8>| p@).push(current@) =~= before.update(
                before.len() - 1,
                before.last().push(path@[i as int]),
            ));
        }
        i = i + 1;
    }
    parts.push(current);
    assert(path@.subrange(0, path@.len() as int) =~= path@);
    assert(parts@.map_values(|p: Vec<u8>| p@) =~= split_spec(path@));
    parts
}

} // verus!
