//! The files of a driver: which one is the main file.

use crate::address::chars_of;
use crate::error::Error;
use vstd::prelude::*;

verus! {

/// The path has one separator, at index `i`.
pub open spec fn single_slash(p: Seq<char>, i: int) -> bool {
    &&& 0 <= i < p.len()
    &&& p[i] == '/'
    &&& forall|j: int| 0 <= j < p.len() && j != i ==> #[trigger] p[j] != '/'
}

/// The ending of the name of a main file.
pub open spec fn script_suffix() -> Seq<char> {
    seq!['.', 'j', 's']
}

/// The path splits at `i` into a directory and the script named after it.
pub open spec fn main_split(p: Seq<char>, i: int) -> bool {
    single_slash(p, i) && p.skip(i + 1) == p.take(i) + script_suffix()
}

/// The path of a main file: a directory, and in it the script that has
/// the directory's name.
pub open spec fn is_main_path(p: Seq<char>) -> bool {
    exists|i: int| main_split(p, i)
}

/// The indexes among the first `n` paths of the main files, or of the
/// other files, in their order.
pub open spec fn picked(paths: Seq<Seq<char>>, n: int, main: bool) -> Seq<usize>
    decreases n,
{
    if n <= 0 {
        Seq::empty()
    } else {
        let rest = picked(paths, n - 1, main);
        if is_main_path(paths[n - 1]) == main {
            rest.push((n - 1) as usize)
        } else {
            rest
        }
    }
}

/// The index of the main file and the indexes of the other files, where
/// exactly one of the paths is that of a main file.
pub open spec fn driver_split(paths: Seq<Seq<char>>) -> Option<(usize, Seq<usize>)> {
    let mains = picked(paths, paths.len() as int, true);
    if mains.len() == 1 {
        Some((mains[0], picked(paths, paths.len() as int, false)))
    } else {
        None
    }
}

/// The models of a list of texts.
pub open spec fn texts_of(v: Seq<String>) -> Seq<Seq<char>> {
    Seq::new(v.len(), |i: int| v[i]@)
}

fn is_main_file(p: &Vec<char>) -> (r: bool)
    ensures
        r == is_main_path(p@),
{
    let n = p.len();
    let mut i: usize = 0;
    while i < n && p[i] != '/'
        invariant
            i <= n == p.len(),
            forall|j: int| 0 <= j < i ==> #[trigger] p@[j] != '/',
        decreases n - i,
    {
        i += 1;
    }
    if i == n {
        assert forall|k: int| !main_split(p@, k) by {
            if main_split(p@, k) {
                assert(p@[k] != '/');
            }
        }
        return false;
    }
    let mut j: usize = i + 1;
    while j < n
        invariant
            i < j <= n == p.len(),
            p@[i as int] == '/',
            forall|k: int| 0 <= k < j && k != i ==> #[trigger] p@[k] != '/',
        decreases n - j,
    {
        if p[j] == '/' {
            assert forall|k: int| !main_split(p@, k) by {
                if main_split(p@, k) {
                    if k == i {
                        assert(p@[j as int] != '/');
                    } else {
                        assert(p@[i as int] != '/');
                    }
                }
            }
            return false;
        }
        j += 1;
    }
    assert(single_slash(p@, i as int));
    assert forall|k: int| main_split(p@, k) implies k == i by {
        if k != i {
            assert(p@[k] != '/');
        }
    }
    if n - (i + 1) < 3 || n - (i + 1) - 3 != i {
        assert(p@.skip(i + 1).len() != (p@.take(i as int) + script_suffix()).len());
        return false;
    }
    let mut t: usize = 0;
    while t < i
        invariant
            t <= i,
            i < n == p.len(),
            n - (i + 1) == i + 3,
            forall|k: int| main_split(p@, k) ==> k == i,
            forall|k: int| 0 <= k < t ==> #[trigger] p@[i + 1 + k] == p@[k],
        decreases i - t,
    {
        if p[i + 1 + t] != p[t] {
            assert(p@.skip(i + 1)[t as int] != (p@.take(i as int) + script_suffix())[t as int]);
            return false;
        }
        t += 1;
    }
    let ok = p[2 * i + 1] == '.' && p[2 * i + 2] == 'j' && p[2 * i + 3] == 's';
    proof {
        let tail = p@.skip(i + 1);
        let want = p@.take(i as int) + script_suffix();
        assert(script_suffix()[0] == '.');
        assert(script_suffix()[1] == 'j');
        assert(script_suffix()[2] == 's');
        if ok {
            assert forall|k: int| 0 <= k < tail.len() implies tail[k] == want[k] by {
                if k < i {
                    assert(p@[i + 1 + k] == p@[k]);
                }
            }
            assert(tail =~= want);
            assert(main_split(p@, i as int));
        } else {
            assert(tail[i as int] == p@[2 * i + 1]);
            assert(tail[i + 1] == p@[2 * i + 2]);
            assert(tail[i + 2] == p@[2 * i + 3]);
            assert(want[i as int] == '.');
            assert(want[i + 1] == 'j');
            assert(want[i + 2] == 's');
        }
    }
    ok
}

/// Tells the main file of a driver from its other files. The result is
/// the index of the main file and the indexes of the others in their
/// order; the files are refused unless exactly one of them is a main
/// file.
pub fn split_driver_files(paths: &Vec<String>) -> (r: Result<(usize, Vec<usize>), Error>)
    ensures
        match driver_split(texts_of(paths@)) {
            Some((main, misc)) => r is Ok && r->Ok_0.0 == main && r->Ok_0.1@ == misc,
            None => r is Err && r->Err_0 is MalformedDriver,
        },
{
    let ghost model = texts_of(paths@);
    let mut mains: Vec<usize> = Vec::new();
    let mut misc: Vec<usize> = Vec::new();
    let mut i: usize = 0;
    while i < paths.len()
        invariant
            i <= paths.len(),
            model == texts_of(paths@),
            mains@ == picked(model, i as int, true),
            misc@ == picked(model, i as int, false),
        decreases paths.len() - i,
    {
        let chars = chars_of(paths[i].as_str());
        proof {
            assert(model[i as int] == paths@[i as int]@);
        }
        if is_main_file(&chars) {
            mains.push(i);
        } else {
            misc.push(i);
        }
        i += 1;
    }
    if mains.len() == 1 {
        Ok((mains[0], misc))
    } else {
        Err(Error::MalformedDriver)
    }
}

} // verus!
