//! Values offered when completing command-line arguments.
use vstd::prelude::*;

use crate::model::Store;
use crate::ordered::{config_items, config_map_get_index, config_map_len, keys_of};
use crate::text::{owned, views};

verus! {

/// The config names to offer: those of the store, in order, or none when the
/// store could not be loaded.
pub fn config_name_candidates(store: Option<&Store>) -> (r: Vec<String>)
    ensures
        views(r@) == match store {
            Some(s) => keys_of(config_items(s.configs)),
            None => Seq::<Seq<char>>::empty(),
        },
{
    let mut r: Vec<String> = Vec::new();
    match store {
        Some(s) => {
            let n = config_map_len(&s.configs);
            let mut i: usize = 0;
            while i < n
                invariant
                    n == config_items(s.configs).len(),
                    i <= n,
                    views(r@) == keys_of(config_items(s.configs)).take(i as int),
                decreases n - i,
            {
                match config_map_get_index(&s.configs, i) {
                    Some((name, _)) => {
                        let ghost before = views(r@);
                        r.push(owned(name.as_str()));
                        assert(views(r@) =~= before.push(name@));
                        assert(keys_of(config_items(s.configs))[i as int] == name@);
                        assert(views(r@) =~= keys_of(config_items(s.configs)).take(i + 1));
                    },
                    None => {
                        assert(false);
                    },
                }
                i = i + 1;
            }
            assert(keys_of(config_items(s.configs)).take(n as int) =~= keys_of(
                config_items(s.configs),
            ));
        },
        None => {
            assert(views(r@) =~= Seq::<Seq<char>>::empty());
        },
    }
    r
}

} // verus!
