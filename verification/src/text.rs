//! Plain-text helpers shared by the state machines: character-vector
//! copying and comparison, and the serialized form of a directory path.

use vstd::prelude::*;

verus! {

/// A fresh copy of a character vector, holding the same characters.
pub fn clone_chars(v: &Vec<char>) -> (r: Vec<char>)
    ensures
        r@ == v@,
{
    let mut r: Vec<char> = Vec::new();
    let mut i: usize = 0;
    while i < v.len()
        invariant
            i <= v.len(),
            r@ == v@.take(i as int),
        decreases v.len() - i,
    {
        r.push(v[i]);
        proof {
            assert(v@.take(i as int).push(v@[i as int]) =~= v@.take(i as int + 1));
        }
        i = i + 1;
    }
    proof {
        assert(v@.take(v@.len() as int) =~= v@);
    }
    r
}

/// Whether two character vectors hold the same characters.
pub fn chars_eq(a: &Vec<char>, b: &Vec<char>) -> (r: bool)
    ensures
        r == (a@ == b@),
{
    if a.len() != b.len() {
        return false;
    }
    let mut i: usize = 0;
    while i < a.len()
        invariant
            a.len() == b.len(),
            i <= a.len(),
            forall|j: int| 0 <= j < i ==> a@[j] == b@[j],
        decreases a.len() - i,
    {
        if a[i] != b[i] {
            return false;
        }
        i = i + 1;
    }
    proof {
        assert(a@ =~= b@);
    }
    true
}

/// The views of a vector of names.
pub open spec fn names_view(v: Seq<Vec<char>>) -> Seq<Seq<char>> {
    Seq::new(v.len(), |i: int| v[i]@)
}

/// The text of an absolute path: one separator before each component, the
/// empty component list standing for the filesystem root.
pub open spec fn path_text(components: Seq<Seq<char>>) -> Seq<char>
    decreases components.len(),
{
    if components.len() == 0 {
        Seq::empty()
    } else {
        path_text(components.drop_last()) + seq!['/'] + components.last()
    }
}

/// Write out the absolute path of the entry `name` inside the directory
/// given by its components from the root.
pub fn render_path(dir: &Vec<Vec<char>>, name: &Vec<char>) -> (r: Vec<char>)
    ensures
        r@ == path_text(names_view(dir@).push(name@)),
{
    let mut out: Vec<char> = Vec::new();
    let mut i: usize = 0;
    proof {
        assert(names_view(dir@).take(0) =~= Seq::<Seq<char>>::empty());
    }
    while i < dir.len()
        invariant
            i <= dir.len(),
            out@ == path_text(names_view(dir@).take(i as int)),
        decreases dir.len() - i,
    {
        out.push('/');
        let ghost before = out@;
        let mut j: usize = 0;
        while j < dir[i].len()
            invariant
                i < dir.len(),
                j <= dir@[i as int]@.len(),
                out@ == before + dir@[i as int]@.take(j as int),
            decreases dir@[i as int]@.len() - j,
        {
            out.push(dir[i][j]);
            proof {
                assert(before + dir@[i as int]@.take(j as int + 1) =~= (before + dir@[
                    i as int
                ]@.take(j as int)).push(dir@[i as int]@[j as int]));
            }
            j = j + 1;
        }
        proof {
            let full = names_view(dir@).take(i as int + 1);
            assert(full.drop_last() =~= names_view(dir@).take(i as int));
            assert(dir@[i as int]@.take(dir@[i as int]@.len() as int) =~= dir@[i as int]@);
            assert(out@ =~= path_text(full));
        }
        i = i + 1;
    }
    out.push('/');
    let ghost before = out@;
    let mut j: usize = 0;
    while j < name.len()
        invariant
            j <= name@.len(),
            out@ == before + name@.take(j as int),
        decreases name.len() - j,
    {
        out.push(name[j]);
        proof {
            assert(before + name@.take(j as int + 1) =~= (before + name@.take(j as int)).push(
                name@[j as int],
            ));
        }
        j = j + 1;
    }
    proof {
        let full = names_view(dir@).push(name@);
        assert(full.drop_last() =~= names_view(dir@));
        assert(names_view(dir@).take(dir@.len() as int) =~= names_view(dir@));
        assert(name@.take(name@.len() as int) =~= name@);
        assert(out@ =~= path_text(full));
    }
    out
}

/// Relies on `String`'s `FromIterator` of `char`: collecting an iterator of
/// characters yields the string of exactly those characters, in order.
#[verifier::external_body]
pub(crate) fn chars_to_string(v: &Vec<char>) -> (r: String)
    ensures
        r@ == v@,
{
    v.iter().collect()
}

} // verus!
