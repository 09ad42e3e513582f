//! Helpers for views of lists, options and maps.
use vstd::prelude::*;

verus! {

/// The views of the elements of a list.
pub open spec fn views<T: View>(list: Seq<T>) -> Seq<T::V> {
    list.map_values(|t: T| t@)
}

/// The view of an optional value.
pub open spec fn opt_view<T: View>(o: Option<T>) -> Option<T::V> {
    match o {
        Some(t) => Some(t@),
        None => None,
    }
}

/// The view of an optional list.
pub open spec fn opt_list<T>(o: Option<Vec<T>>) -> Option<Seq<T>> {
    match o {
        Some(v) => Some(v@),
        None => None,
    }
}

/// The entries of a map with the views of their values.
pub open spec fn map_views<V: View>(entries: Seq<(Seq<char>, V)>) -> Seq<(Seq<char>, V::V)> {
    entries.map_values(|e: (Seq<char>, V)| (e.0, e.1@))
}

} // verus!
