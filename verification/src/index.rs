//! The category index: the sorted, deduplicated set of category labels
//! present across a collection of items. It is recomputed from scratch
//! whenever the item collection changes.

use vstd::prelude::*;

use crate::model::{Item, Record};
use crate::strings::{lex_lt, lemma_lex_lt_irrefl, lemma_lex_lt_trans, lemma_lex_lt_total};
use crate::strings::{str_lt, str_eq};

verus! {

/// The item's `categories` field is present and holds the label `c`.
pub open spec fn item_has_category(it: Item, c: Seq<char>) -> bool {
    match it.categories {
        Some(cs) => exists|j: int| 0 <= j < cs@.len() && #[trigger] cs@[j]@ == c,
        None => false,
    }
}

/// Some item of the collection carries the category label `c`.
pub open spec fn collection_has_category(items: Seq<Record<Item>>, c: Seq<char>) -> bool {
    exists|i: int| 0 <= i < items.len() && item_has_category(#[trigger] items[i].fields, c)
}

/// The label `c` occurs among the strings of `ss`.
pub open spec fn contains_label(ss: Seq<String>, c: Seq<char>) -> bool {
    exists|k: int| 0 <= k < ss.len() && #[trigger] ss[k]@ == c
}

/// The strings of `r` are strictly ascending in lexicographic order,
/// which also means no label occurs twice.
pub open spec fn strictly_sorted(r: Seq<String>) -> bool {
    forall|i: int, j: int| 0 <= i < j < r.len() ==> lex_lt(#[trigger] r[i]@, #[trigger] r[j]@)
}

/// `r` is the category index of `items`: strictly sorted, and it holds
/// exactly the labels that occur in some item's `categories` field.
pub open spec fn is_category_index(items: Seq<Record<Item>>, r: Seq<String>) -> bool {
    &&& strictly_sorted(r)
    &&& forall|c: Seq<char>|
        #![trigger contains_label(r, c)]
        #![trigger collection_has_category(items, c)]
        contains_label(r, c) <==> collection_has_category(items, c)
}

proof fn lemma_contains_label_push(ss: Seq<String>, x: String, c: Seq<char>)
    ensures
        contains_label(ss.push(x), c) <==> (contains_label(ss, c) || x@ == c),
{
    if contains_label(ss.push(x), c) {
        let k = choose|k: int| 0 <= k < ss.push(x).len() && #[trigger] ss.push(x)[k]@ == c;
        if k < ss.len() {
            assert(ss[k]@ == c);
        }
    }
    if contains_label(ss, c) {
        let k = choose|k: int| 0 <= k < ss.len() && #[trigger] ss[k]@ == c;
        assert(ss.push(x)[k]@ == c);
    }
    if x@ == c {
        assert(ss.push(x)[ss.len() as int]@ == c);
    }
}

proof fn lemma_collection_take_step(items: Seq<Record<Item>>, i: int, c: Seq<char>)
    requires
        0 <= i < items.len(),
    ensures
        collection_has_category(items.take(i + 1), c) <==> (collection_has_category(
            items.take(i),
            c,
        ) || item_has_category(items[i].fields, c)),
{
    if collection_has_category(items.take(i + 1), c) {
        let k = choose|k: int|
            0 <= k < items.take(i + 1).len() && item_has_category(#[trigger] items.take(i + 1)[k].fields, c);
        if k < i {
            assert(items.take(i)[k] == items[k]);
            assert(item_has_category(items.take(i)[k].fields, c));
        } else {
            assert(items.take(i + 1)[k] == items[i]);
        }
    }
    if collection_has_category(items.take(i), c) {
        let k = choose|k: int|
            0 <= k < items.take(i).len() && item_has_category(#[trigger] items.take(i)[k].fields, c);
        assert(items.take(i + 1)[k] == items[k]);
        assert(item_has_category(items.take(i + 1)[k].fields, c));
    }
    if item_has_category(items[i].fields, c) {
        assert(items.take(i + 1)[i] == items[i]);
        assert(item_has_category(items.take(i + 1)[i].fields, c));
    }
}

/// Inserts the label `s` at its sorted position, unless an equal label is
/// already there.
fn insert_sorted_unique(out: &mut Vec<String>, s: String)
    requires
        strictly_sorted(old(out)@),
    ensures
        strictly_sorted(final(out)@),
        forall|c: Seq<char>|
            #[trigger] contains_label(final(out)@, c) <==> (contains_label(old(out)@, c) || c
                == s@),
{
    let mut j: usize = 0;
    while j < out.len() && str_lt(out[j].as_str(), s.as_str())
        invariant
            j <= out@.len(),
            out@ == old(out)@,
            forall|k: int| 0 <= k < j ==> lex_lt(#[trigger] out@[k]@, s@),
        decreases out@.len() - j,
    {
        j = j + 1;
    }
    if j < out.len() && str_eq(&out[j], &s) {
        proof {
            assert forall|c: Seq<char>|
                contains_label(out@, c) <==> (contains_label(old(out)@, c) || c == s@) by {
                if c == s@ {
                    assert(out@[j as int]@ == c);
                }
            }
        }
    } else {
        proof {
            if j < out@.len() {
                lemma_lex_lt_total(s@, out@[j as int]@);
            }
        }
        let ghost prior = out@;
        out.insert(j, s);
        proof {
            assert(out@ == prior.insert(j as int, s));
            prior.insert_ensures(j as int, s);
            assert forall|p: int, q: int|
                0 <= p < q < out@.len() implies lex_lt(out@[p]@, out@[q]@) by {
                if q < j {
                    assert(out@[p] == prior[p]);
                    assert(out@[q] == prior[q]);
                } else if p < j && q == j {
                    assert(out@[p] == prior[p]);
                } else if p < j && q > j {
                    assert(out@[p] == prior[p]);
                    assert(out@[q] == prior[q - 1]);
                    if q - 1 > j {
                        lemma_lex_lt_trans(s@, prior[j as int]@, prior[q - 1]@);
                    } else {
                        assert(prior[q - 1] == prior[j as int]);
                    }
                    lemma_lex_lt_trans(out@[p]@, s@, prior[q - 1]@);
                } else if p == j {
                    assert(out@[q] == prior[q - 1]);
                    if q - 1 > j {
                        lemma_lex_lt_trans(s@, prior[j as int]@, prior[q - 1]@);
                    }
                } else {
                    assert(out@[p] == prior[p - 1]);
                    assert(out@[q] == prior[q - 1]);
                }
            }
            assert forall|c: Seq<char>|
                contains_label(out@, c) <==> (contains_label(prior, c) || c == s@) by {
                if contains_label(out@, c) {
                    let k = choose|k: int| 0 <= k < out@.len() && #[trigger] out@[k]@ == c;
                    if k < j {
                        assert(prior[k]@ == c);
                    } else if k > j {
                        assert(prior[k - 1]@ == c);
                    }
                }
                if contains_label(prior, c) {
                    let k = choose|k: int| 0 <= k < prior.len() && #[trigger] prior[k]@ == c;
                    if k < j {
                        assert(out@[k]@ == c);
                    } else {
                        assert(out@[k + 1]@ == c);
                    }
                }
                if c == s@ {
                    assert(out@[j as int]@ == c);
                }
            }
        }
    }
}

/// Derives the category index of `items`: every label that occurs in some
/// item's `categories` field, sorted ascending, duplicates removed.
///
/// An empty collection, or one where no item has categories, yields an
/// empty index.
pub fn get_categories(items: Vec<Record<Item>>) -> (r: Vec<String>)
    ensures
        is_category_index(items@, r@),
{
    let mut all: Vec<String> = Vec::new();
    let mut i: usize = 0;
    proof {
        assert(items@.take(0) =~= Seq::<Record<Item>>::empty());
    }
    while i < items.len()
        invariant
            i <= items@.len(),
            forall|c: Seq<char>|
                #[trigger] contains_label(all@, c) <==> collection_has_category(
                    items@.take(i as int),
                    c,
                ),
        decreases items@.len() - i,
    {
        match &items[i].fields.categories {
            Some(cs) => {
                let ghost all0 = all@;
                let mut j: usize = 0;
                while j < cs.len()
                    invariant
                        j <= cs@.len(),
                        items@[i as int].fields.categories == Some(*cs),
                        forall|c: Seq<char>|
                            #[trigger] contains_label(all@, c) <==> (contains_label(all0, c)
                                || exists|j0: int| 0 <= j0 < j && #[trigger] cs@[j0]@ == c),
                    decreases cs@.len() - j,
                {
                    let s = cs[j].clone();
                    let ghost before = all@;
                    all.push(s);
                    proof {
                        assert(s@ == cs@[j as int]@);
                        assert forall|c: Seq<char>|
                            #[trigger] contains_label(all@, c) <==> (contains_label(all0, c)
                                || exists|j0: int|
                                0 <= j0 < j + 1 && #[trigger] cs@[j0]@ == c) by {
                            lemma_contains_label_push(before, s, c);
                            assert(contains_label(before, c) <==> (contains_label(all0, c)
                                || exists|j0: int| 0 <= j0 < j && #[trigger] cs@[j0]@ == c));
                            if exists|j0: int| 0 <= j0 < j && #[trigger] cs@[j0]@ == c {
                                let j0 = choose|j0: int|
                                    0 <= j0 < j && #[trigger] cs@[j0]@ == c;
                                assert(0 <= j0 < j + 1 && cs@[j0]@ == c);
                            }
                            if exists|j0: int| 0 <= j0 < j + 1 && #[trigger] cs@[j0]@ == c {
                                let j0 = choose|j0: int|
                                    0 <= j0 < j + 1 && #[trigger] cs@[j0]@ == c;
                                if j0 < j {
                                    assert(contains_label(before, c));
                                } else {
                                    assert(s@ == c);
                                }
                            }
                        }
                    }
                    j = j + 1;
                }
                proof {
                    lemma_inner_done(items@, i as int, *cs, all0, all@);
                }
            },
            None => {
                proof {
                    assert forall|c: Seq<char>|
                        contains_label(all@, c) <==> collection_has_category(
                            items@.take(i + 1),
                            c,
                        ) by {
                        lemma_collection_take_step(items@, i as int, c);
                    }
                }
            },
        }
        i = i + 1;
    }
    proof {
        assert(items@.take(items@.len() as int) =~= items@);
    }
    let mut out: Vec<String> = Vec::new();
    let mut k: usize = 0;
    while k < all.len()
        invariant
            k <= all@.len(),
            strictly_sorted(out@),
            forall|c: Seq<char>|
                #[trigger] contains_label(out@, c) <==> contains_label(all@.take(k as int), c),
            forall|c: Seq<char>|
                #[trigger] contains_label(all@, c) <==> collection_has_category(items@, c),
        decreases all@.len() - k,
    {
        let s = all[k].clone();
        insert_sorted_unique(&mut out, s);
        proof {
            assert forall|c: Seq<char>|
                contains_label(out@, c) <==> contains_label(all@.take(k + 1), c) by {
                lemma_contains_take_step(all@, k as int, c);
            }
        }
        k = k + 1;
    }
    proof {
        assert(all@.take(all@.len() as int) =~= all@);
    }
    out
}

proof fn lemma_contains_take_step(ss: Seq<String>, k: int, c: Seq<char>)
    requires
        0 <= k < ss.len(),
    ensures
        contains_label(ss.take(k + 1), c) <==> (contains_label(ss.take(k), c) || ss[k]@ == c),
{
    if contains_label(ss.take(k + 1), c) {
        let k0 = choose|k0: int| 0 <= k0 < ss.take(k + 1).len() && #[trigger] ss.take(k + 1)[k0]@ == c;
        if k0 < k {
            assert(ss.take(k)[k0]@ == c);
        } else {
            assert(ss.take(k + 1)[k0] == ss[k]);
        }
    }
    if contains_label(ss.take(k), c) {
        let k0 = choose|k0: int| 0 <= k0 < ss.take(k).len() && #[trigger] ss.take(k)[k0]@ == c;
        assert(ss.take(k + 1)[k0]@ == c);
    }
    if ss[k]@ == c {
        assert(ss.take(k + 1)[k]@ == c);
    }
}

/// Two strictly sorted label sequences that hold the same labels are the
/// same sequence of labels.
proof fn lemma_sorted_same_labels_equal(a: Seq<String>, b: Seq<String>)
    requires
        strictly_sorted(a),
        strictly_sorted(b),
        forall|c: Seq<char>|
            #![trigger contains_label(a, c)]
            #![trigger contains_label(b, c)]
            contains_label(a, c) <==> contains_label(b, c),
    ensures
        a.len() == b.len(),
        forall|k: int| 0 <= k < a.len() ==> #[trigger] a[k]@ == b[k]@,
    decreases a.len(),
{
    if a.len() == 0 {
        if b.len() > 0 {
            assert(contains_label(b, b[0]@));
            let k = choose|k: int| 0 <= k < a.len() && #[trigger] a[k]@ == b[0]@;
        }
    } else {
        assert(contains_label(a, a[0]@));
        assert(contains_label(b, b[0]@));
        let k2 = choose|k: int| 0 <= k < b.len() && #[trigger] b[k]@ == a[0]@;
        let k1 = choose|k: int| 0 <= k < a.len() && #[trigger] a[k]@ == b[0]@;
        if k2 > 0 && k1 > 0 {
            lemma_lex_lt_trans(a[0]@, a[k1]@, b[k2]@);
            lemma_lex_lt_irrefl(a[0]@);
        } else if k2 > 0 {
            lemma_lex_lt_irrefl(b[0]@);
        } else if k1 > 0 {
            lemma_lex_lt_irrefl(a[0]@);
        }
        assert(a[0]@ == b[0]@);
        let a1 = a.skip(1);
        let b1 = b.skip(1);
        assert forall|i: int, j: int|
            0 <= i < j < a1.len() implies lex_lt(#[trigger] a1[i]@, #[trigger] a1[j]@) by {
            assert(a1[i] == a[i + 1]);
            assert(a1[j] == a[j + 1]);
        }
        assert forall|i: int, j: int|
            0 <= i < j < b1.len() implies lex_lt(#[trigger] b1[i]@, #[trigger] b1[j]@) by {
            assert(b1[i] == b[i + 1]);
            assert(b1[j] == b[j + 1]);
        }
        assert forall|c: Seq<char>|
            #![trigger contains_label(a1, c)]
            #![trigger contains_label(b1, c)]
            contains_label(a1, c) <==> contains_label(b1, c) by {
            lemma_tail_contains(a, b, c);
            lemma_tail_contains(b, a, c);
        }
        lemma_sorted_same_labels_equal(a1, b1);
        assert forall|k: int| 0 <= k < a.len() implies #[trigger] a[k]@ == b[k]@ by {
            if k > 0 {
                assert(a[k] == a1[k - 1]);
                assert(b[k] == b1[k - 1]);
            }
        }
    }
}

/// A label of the tail of `a` occurs in the tail of `b` as well, when the
/// two sorted sequences hold the same labels and agree on their heads.
proof fn lemma_tail_contains(a: Seq<String>, b: Seq<String>, c: Seq<char>)
    requires
        a.len() > 0,
        b.len() > 0,
        strictly_sorted(a),
        strictly_sorted(b),
        a[0]@ == b[0]@,
        contains_label(a, c) <==> contains_label(b, c),
    ensures
        contains_label(a.skip(1), c) ==> contains_label(b.skip(1), c),
{
    if contains_label(a.skip(1), c) {
        let k = choose|k: int| 0 <= k < a.skip(1).len() && #[trigger] a.skip(1)[k]@ == c;
        assert(a.skip(1)[k] == a[k + 1]);
        assert(lex_lt(a[0]@, c));
        assert(contains_label(a, c)) by {
            assert(a[k + 1]@ == c);
        }
        let k2 = choose|k2: int| 0 <= k2 < b.len() && #[trigger] b[k2]@ == c;
        if k2 == 0 {
            lemma_lex_lt_irrefl(c);
        }
        assert(b.skip(1)[k2 - 1]@ == c);
    }
}

/// Law: the category index is uniquely determined by the item collection.
/// Any two outputs that satisfy the builder's contract for the same items
/// hold the same labels in the same order, so building the index twice on
/// one input yields identical output.
pub proof fn lemma_category_index_unique(
    items: Seq<Record<Item>>,
    r1: Seq<String>,
    r2: Seq<String>,
)
    requires
        is_category_index(items, r1),
        is_category_index(items, r2),
    ensures
        r1.len() == r2.len(),
        forall|k: int| 0 <= k < r1.len() ==> #[trigger] r1[k]@ == r2[k]@,
{
    lemma_sorted_same_labels_equal(r1, r2);
}

/// Law: permuting the input item collection does not change the category
/// index. Two collections that are permutations of each other have the
/// same labels, and the index is uniquely determined by those labels.
pub proof fn lemma_category_index_order_independent(
    items1: Seq<Record<Item>>,
    items2: Seq<Record<Item>>,
    r1: Seq<String>,
    r2: Seq<String>,
)
    requires
        items1.to_multiset() == items2.to_multiset(),
        is_category_index(items1, r1),
        is_category_index(items2, r2),
    ensures
        r1.len() == r2.len(),
        forall|k: int| 0 <= k < r1.len() ==> #[trigger] r1[k]@ == r2[k]@,
{
    assert forall|c: Seq<char>|
        #![trigger collection_has_category(items1, c)]
        #![trigger collection_has_category(items2, c)]
        collection_has_category(items1, c) <==> collection_has_category(items2, c) by {
        lemma_permuted_collection_has_category(items1, items2, c);
        lemma_permuted_collection_has_category(items2, items1, c);
    }
    lemma_sorted_same_labels_equal(r1, r2);
}

proof fn lemma_permuted_collection_has_category(
    items1: Seq<Record<Item>>,
    items2: Seq<Record<Item>>,
    c: Seq<char>,
)
    requires
        items1.to_multiset() == items2.to_multiset(),
    ensures
        collection_has_category(items1, c) ==> collection_has_category(items2, c),
{
    if collection_has_category(items1, c) {
        let i = choose|i: int|
            0 <= i < items1.len() && item_has_category(#[trigger] items1[i].fields, c);
        let v = items1[i];
        assert(items1.contains(v));
        vstd::seq_lib::to_multiset_contains(items1, v);
        vstd::seq_lib::to_multiset_contains(items2, v);
        assert(items2.contains(v));
        let k = choose|k: int| 0 <= k < items2.len() && items2[k] == v;
        assert(item_has_category(items2[k].fields, c));
    }
}

proof fn lemma_inner_done(
    items: Seq<Record<Item>>,
    i: int,
    cs: Vec<String>,
    all0: Seq<String>,
    all1: Seq<String>,
)
    requires
        0 <= i < items.len(),
        items[i].fields.categories == Some(cs),
        forall|c: Seq<char>|
            #[trigger] contains_label(all1, c) <==> (contains_label(all0, c) || exists|j0: int|
                0 <= j0 < cs@.len() && #[trigger] cs@[j0]@ == c),
        forall|c: Seq<char>|
            #[trigger] contains_label(all0, c) <==> collection_has_category(items.take(i), c),
    ensures
        forall|c: Seq<char>|
            #[trigger] contains_label(all1, c) <==> collection_has_category(items.take(i + 1), c),
{
    assert forall|c: Seq<char>|
        #[trigger] contains_label(all1, c) <==> collection_has_category(items.take(i + 1), c) by {
        lemma_collection_take_step(items, i, c);
        let cs2 = items[i].fields.categories.unwrap();
        assert(cs2 == cs);
        if item_has_category(items[i].fields, c) {
            let j0 = choose|j0: int| 0 <= j0 < cs2@.len() && #[trigger] cs2@[j0]@ == c;
            assert(cs@[j0]@ == c);
        }
        if exists|j0: int| 0 <= j0 < cs@.len() && #[trigger] cs@[j0]@ == c {
            let j0 = choose|j0: int| 0 <= j0 < cs@.len() && #[trigger] cs@[j0]@ == c;
            assert(cs2@[j0]@ == c);
            assert(item_has_category(items[i].fields, c));
        }
    }
}

} // verus!
