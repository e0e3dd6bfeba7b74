//! Laws of the written form of a document.

use crate::address::rooted;
use crate::address_laws::render_then_parse;
use crate::coordinate::Path;
use crate::grammar::GrammarView;
use crate::session::{assembled, store_wf, written, Store};
use vstd::prelude::*;

verus! {

/// The first `n` entries of a store.
pub open spec fn first_entries(s: Store, n: int) -> Store {
    Store {
        keys: s.keys.take(n),
        map: Map::new(|k: Path| s.keys.take(n).contains(k), |k: Path| s.map[k]),
    }
}

proof fn first_entries_read_back(s: Store, n: int)
    requires
        store_wf(s),
        forall|k: Path| s.map.contains_key(k) ==> #[trigger] rooted(k),
        0 <= n <= s.keys.len(),
    ensures
        assembled(written(s), n) == Ok::<Store, Seq<char>>(first_entries(s, n)),
    decreases n,
{
    if n == 0 {
        assert(s.keys.take(0) =~= Seq::<Path>::empty());
        assert(first_entries(s, 0).map =~= Map::<Path, GrammarView>::empty());
    } else {
        first_entries_read_back(s, n - 1);
        let k = s.keys[n - 1];
        let before = first_entries(s, n - 1);
        let init = s.keys.take(n - 1);
        let all = s.keys.take(n);
        assert(s.keys.contains(k));
        assert(s.map.contains_key(k));
        assert(rooted(k));
        render_then_parse(k);
        assert(written(s)[n - 1] == (crate::address::address_text(k), s.map[k]));
        if before.map.contains_key(k) {
            let j = choose|j: int| 0 <= j < init.len() && init[j] == k;
            assert(s.keys[j] == k);
        }
        let after = before.insert(k, s.map[k]);
        assert(after.keys =~= s.keys.take(n));
        assert(after.map =~= first_entries(s, n).map) by {
            assert forall|x: Path| after.map.contains_key(x) <==> first_entries(
                s,
                n,
            ).map.contains_key(x) by {
                if init.contains(x) {
                    let j = choose|j: int| 0 <= j < init.len() && init[j] == x;
                    assert(all[j] == x);
                }
                if x == k {
                    assert(all[n - 1] == x);
                }
                if all.contains(x) && x != k {
                    let j = choose|j: int| 0 <= j < all.len() && all[j] == x;
                    assert(init[j] == x);
                }
            }
        }
    }
}

/// Reading what was written gives the store back: the entries that a
/// store is written down as are read as that store, where every stored
/// address starts at a named root.
pub proof fn written_reads_back(s: Store)
    requires
        store_wf(s),
        forall|k: Path| s.map.contains_key(k) ==> #[trigger] rooted(k),
    ensures
        assembled(written(s), s.keys.len() as int) == Ok::<Store, Seq<char>>(s),
{
    let n = s.keys.len() as int;
    first_entries_read_back(s, n);
    assert(s.keys.take(n) =~= s.keys);
    assert(first_entries(s, n).map =~= s.map);
}

} // verus!
