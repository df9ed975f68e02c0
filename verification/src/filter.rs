//! The catalog filter: the published subset of the item collection,
//! optionally narrowed to one selected category, in input order.

use vstd::prelude::*;

use crate::index::item_has_category;
use crate::model::{Item, Record};
use crate::strings::str_eq;

verus! {

/// The view of an optional category selection.
pub open spec fn selection_view(c: Option<String>) -> Option<Seq<char>> {
    match c {
        Some(s) => Some(s@),
        None => None,
    }
}

/// The filter keeps a record when its `publish` field is present (any
/// value counts as present; absence is the only exclusion signal) and,
/// when a category is selected, its `categories` field is present and
/// holds that label. A record without categories is excluded whenever a
/// category is selected.
pub open spec fn keeps(rec: Record<Item>, sel: Option<Seq<char>>) -> bool {
    &&& rec.fields.publish is Some
    &&& match sel {
        None => true,
        Some(c) => item_has_category(rec.fields, c),
    }
}

/// The subsequence of `items` kept by the filter, preserving input order.
pub open spec fn filtered_catalog(items: Seq<Record<Item>>, sel: Option<Seq<char>>) -> Seq<
    Record<Item>,
> {
    items.filter(|rec: Record<Item>| keeps(rec, sel))
}

proof fn lemma_filtered_push(s: Seq<Record<Item>>, x: Record<Item>, sel: Option<Seq<char>>)
    ensures
        filtered_catalog(s.push(x), sel) == if keeps(x, sel) {
            filtered_catalog(s, sel).push(x)
        } else {
            filtered_catalog(s, sel)
        },
{
    reveal_with_fuel(Seq::filter, 2);
    assert(s.push(x).drop_last() =~= s);
    assert(s.push(x).last() == x);
    assert(s.push(x).len() == s.len() + 1);
}

/// Does some string of `cs` hold the same characters as `c`?
fn contains_string(cs: &Vec<String>, c: &String) -> (r: bool)
    ensures
        r == exists|j: int| 0 <= j < cs@.len() && #[trigger] cs@[j]@ == c@,
{
    let mut j: usize = 0;
    while j < cs.len()
        invariant
            j <= cs@.len(),
            forall|j0: int| 0 <= j0 < j ==> #[trigger] cs@[j0]@ != c@,
        decreases cs@.len() - j,
    {
        if str_eq(&cs[j], c) {
            return true;
        }
        j = j + 1;
    }
    false
}

/// Selects the visible subset of `items`: first the records whose
/// `publish` field is present, then — when a category is selected — those
/// whose `categories` field holds the selected label. The relative order
/// of the input is preserved. With no selection every published record is
/// kept, category-less ones included; an empty result is an ordinary
/// outcome, never an error.
pub fn get_items_by_category(items: Vec<Record<Item>>, category: Option<String>) -> (r: Vec<
    Record<Item>,
>)
    ensures
        r@ == filtered_catalog(items@, selection_view(category)),
{
    let ghost items0 = items@;
    let ghost sel = selection_view(category);
    let mut rest = items;
    let mut out: Vec<Record<Item>> = Vec::new();
    let ghost mut k: int = 0;
    proof {
        assert(items0.take(0) =~= Seq::<Record<Item>>::empty());
        assert(items0.skip(0) =~= items0);
        assert(filtered_catalog(items0.take(0), sel) =~= Seq::<Record<Item>>::empty());
    }
    while rest.len() > 0
        invariant
            0 <= k <= items0.len(),
            rest@ == items0.skip(k),
            out@ == filtered_catalog(items0.take(k), sel),
            sel == selection_view(category),
        decreases rest@.len(),
    {
        let rec = rest.remove(0);
        proof {
            assert(rec == items0.skip(k)[0]);
            assert(items0.skip(k)[0] == items0[k]);
            assert(items0.skip(k).remove(0) =~= items0.skip(k + 1));
        }
        let keep: bool = if rec.fields.publish.is_some() {
            match &category {
                None => true,
                Some(c) => match &rec.fields.categories {
                    Some(cs) => contains_string(cs, c),
                    None => false,
                },
            }
        } else {
            false
        };
        proof {
            assert(keep == keeps(items0[k], sel)) by {
                if rec.fields.publish is Some {
                    match category {
                        Some(c) => {
                            match rec.fields.categories {
                                Some(cs) => {
                                    let cs2 = rec.fields.categories.unwrap();
                                    assert(cs2 == cs);
                                    if keep {
                                        let j = choose|j: int|
                                            0 <= j < cs@.len() && #[trigger] cs@[j]@ == c@;
                                        assert(cs2@[j]@ == c@);
                                    }
                                    if item_has_category(rec.fields, c@) {
                                        let j = choose|j: int|
                                            0 <= j < cs2@.len() && #[trigger] cs2@[j]@ == c@;
                                        assert(cs@[j]@ == c@);
                                    }
                                },
                                None => {},
                            }
                        },
                        None => {},
                    }
                }
            }
            lemma_filtered_push(items0.take(k), items0[k], sel);
            assert(items0.take(k + 1) =~= items0.take(k).push(items0[k]));
        }
        if keep {
            out.push(rec);
        }
        proof {
            k = k + 1;
        }
    }
    proof {
        assert(items0.take(k) =~= items0);
    }
    out
}

} // verus!
