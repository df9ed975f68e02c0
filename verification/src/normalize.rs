//! The item normalizer: turns a raw record's sparse fields payload into
//! the `Item` view model. Every field extraction is independently
//! fallible-to-absent — a missing or wrongly shaped field yields "field
//! absent" for that field alone, never an error for the whole record. A
//! record with no recognized field still normalizes to an all-absent item.

use vstd::prelude::*;

use crate::model::{Attachment, Item, Record, Thumbnail};
use crate::raw::{lookup, spec_lookup, RawEntry, RawRecord, RawValue};

verus! {

/// The `name` field: present when the raw value under "name" is a string.
pub open spec fn name_of(entries: Seq<RawEntry>) -> Option<String> {
    match spec_lookup(entries, "name"@) {
        Some(RawValue::Str(s)) => Some(s),
        _ => None,
    }
}

/// The `description` field: present when the raw value under
/// "description" is a string.
pub open spec fn description_of(entries: Seq<RawEntry>) -> Option<String> {
    match spec_lookup(entries, "description"@) {
        Some(RawValue::Str(s)) => Some(s),
        _ => None,
    }
}

/// The `price` field: present when the raw value under "price" is an
/// integer in the representable range.
pub open spec fn price_of(entries: Seq<RawEntry>) -> Option<i32> {
    match spec_lookup(entries, "price"@) {
        Some(RawValue::Int(n)) => if (i32::MIN as i64) <= n && n <= (i32::MAX as i64) {
            Some(n as i32)
        } else {
            None
        },
        _ => None,
    }
}

/// The `publish` flag: present when the raw value under "publish" is a
/// boolean, whatever its value.
pub open spec fn publish_of(entries: Seq<RawEntry>) -> Option<bool> {
    match spec_lookup(entries, "publish"@) {
        Some(RawValue::Bool(b)) => Some(b),
        _ => None,
    }
}

/// The string elements of a raw list, in order, other shapes dropped.
pub open spec fn str_values(vs: Seq<RawValue>) -> Seq<String> {
    vs.filter(|v: RawValue| v is Str).map_values(|v: RawValue| v->Str_0)
}

/// The `categories` field: present when the raw value under "categories"
/// is a list; its string elements are the labels.
pub open spec fn categories_of(entries: Seq<RawEntry>) -> Option<Seq<String>> {
    match spec_lookup(entries, "categories"@) {
        Some(RawValue::List(vs)) => Some(str_values(vs@)),
        _ => None,
    }
}

/// The url of a raw thumbnail variant: the variant must be an object with
/// a string under "url".
pub open spec fn thumb_url_of(v: RawValue) -> Option<String> {
    match v {
        RawValue::Obj(fs) => match spec_lookup(fs@, "url"@) {
            Some(RawValue::Str(s)) => Some(s),
            _ => None,
        },
        _ => None,
    }
}

/// The raw thumbnail entries that carry a usable url.
pub open spec fn good_thumb_entries(tes: Seq<RawEntry>) -> Seq<RawEntry> {
    tes.filter(|e: RawEntry| thumb_url_of(e.value) is Some)
}

/// The thumbnail `t` is the normalization of the raw variant entry `e`.
pub open spec fn thumb_matches(e: RawEntry, t: Thumbnail) -> bool {
    &&& t.name == e.key
    &&& Some(t.url) == thumb_url_of(e.value)
}

/// The thumbnails `ts` are the normalization of the raw entries `tes`:
/// exactly the variants with a usable url, in order.
pub open spec fn thumbs_match_list(tes: Seq<RawEntry>, ts: Seq<Thumbnail>) -> bool {
    &&& ts.len() == good_thumb_entries(tes).len()
    &&& forall|i: int|
        0 <= i < ts.len() ==> thumb_matches(#[trigger] good_thumb_entries(tes)[i], ts[i])
}

/// The thumbnails `ts` are the normalization of the raw value `tv` found
/// under "thumbnails", which must be an object.
pub open spec fn thumbnails_match(tv: RawValue, ts: Seq<Thumbnail>) -> bool {
    match tv {
        RawValue::Obj(tes) => thumbs_match_list(tes@, ts),
        _ => false,
    }
}

/// A raw list element yields an attachment exactly when it is an object
/// with a string under "url".
pub open spec fn is_attachment(v: RawValue) -> bool {
    match v {
        RawValue::Obj(fs) => spec_lookup(fs@, "url"@) matches Some(RawValue::Str(_)),
        _ => false,
    }
}

/// The attachment `a` is the normalization of the raw object `v`: its url
/// is the string under "url", and its thumbnails are present exactly when
/// an object stands under "thumbnails" — any other shape degrades to "no
/// thumbnails", never to a failure.
pub open spec fn attachment_matches(v: RawValue, a: Attachment) -> bool {
    match v {
        RawValue::Obj(fs) => {
            &&& Some(a.url) == (match spec_lookup(fs@, "url"@) {
                Some(RawValue::Str(s)) => Some(s),
                _ => None::<String>,
            })
            &&& match (spec_lookup(fs@, "thumbnails"@), a.thumbnails) {
                (Some(tv), Some(ts)) => thumbnails_match(tv, ts@),
                (Some(tv), None) => !(tv is Obj),
                (None, None) => true,
                (None, Some(_)) => false,
            }
        },
        _ => false,
    }
}

/// The raw list elements that yield attachments.
pub open spec fn good_attachments(vs: Seq<RawValue>) -> Seq<RawValue> {
    vs.filter(|v: RawValue| is_attachment(v))
}

/// The attachments `aa` are the normalization of the raw list `vs`:
/// exactly the elements with a usable url, in order.
pub open spec fn attachments_match_list(vs: Seq<RawValue>, aa: Seq<Attachment>) -> bool {
    &&& aa.len() == good_attachments(vs).len()
    &&& forall|i: int|
        0 <= i < aa.len() ==> attachment_matches(#[trigger] good_attachments(vs)[i], aa[i])
}

/// The `images` field: present when the raw value under "images" is a
/// list; its usable elements are the attachments.
pub open spec fn images_match(entries: Seq<RawEntry>, imgs: Option<Vec<Attachment>>) -> bool {
    match spec_lookup(entries, "images"@) {
        Some(RawValue::List(vs)) => match imgs {
            Some(aa) => attachments_match_list(vs@, aa@),
            None => false,
        },
        _ => imgs is None,
    }
}

/// The item `it` is the normalization of the raw fields `entries`: each
/// business field extracted independently, absent when its key is missing
/// or its raw value has the wrong shape.
pub open spec fn normalizes_to(entries: Seq<RawEntry>, it: Item) -> bool {
    &&& it.name == name_of(entries)
    &&& it.description == description_of(entries)
    &&& it.price == price_of(entries)
    &&& it.publish == publish_of(entries)
    &&& match (categories_of(entries), it.categories) {
        (Some(ss), Some(cs)) => cs@ == ss,
        (None, None) => true,
        _ => false,
    }
    &&& images_match(entries, it.images)
}

proof fn lemma_filter_push<A>(s: Seq<A>, x: A, pred: spec_fn(A) -> bool)
    ensures
        s.push(x).filter(pred) == if pred(x) {
            s.filter(pred).push(x)
        } else {
            s.filter(pred)
        },
{
    reveal_with_fuel(Seq::filter, 2);
    assert(s.push(x).drop_last() =~= s);
    assert(s.push(x).last() == x);
    assert(s.push(x).len() == s.len() + 1);
}

proof fn lemma_str_values_push(vs: Seq<RawValue>, x: RawValue)
    ensures
        str_values(vs.push(x)) == if x is Str {
            str_values(vs).push(x->Str_0)
        } else {
            str_values(vs)
        },
{
    lemma_filter_push(vs, x, |v: RawValue| v is Str);
    if x is Str {
        assert(str_values(vs.push(x)) =~= str_values(vs).push(x->Str_0));
    } else {
        assert(str_values(vs.push(x)) =~= str_values(vs));
    }
}

/// Collects the string elements of a raw list, in order.
fn collect_strings(vs: &Vec<RawValue>) -> (r: Vec<String>)
    ensures
        r@ == str_values(vs@),
{
    let mut r: Vec<String> = Vec::new();
    let mut i: usize = 0;
    proof {
        reveal_with_fuel(Seq::filter, 1);
        assert(vs@.take(0) =~= Seq::<RawValue>::empty());
        assert(str_values(vs@.take(0)) =~= Seq::<String>::empty());
    }
    while i < vs.len()
        invariant
            i <= vs@.len(),
            r@ == str_values(vs@.take(i as int)),
        decreases vs@.len() - i,
    {
        match &vs[i] {
            RawValue::Str(s) => {
                r.push(s.clone());
            },
            _ => {},
        }
        proof {
            lemma_str_values_push(vs@.take(i as int), vs@[i as int]);
            assert(vs@.take(i + 1) =~= vs@.take(i as int).push(vs@[i as int]));
        }
        i = i + 1;
    }
    proof {
        assert(vs@.take(vs@.len() as int) =~= vs@);
    }
    r
}

/// Collects the thumbnail variants with a usable url, in order.
fn collect_thumbnails(tes: &Vec<RawEntry>) -> (ts: Vec<Thumbnail>)
    ensures
        thumbs_match_list(tes@, ts@),
{
    let mut ts: Vec<Thumbnail> = Vec::new();
    let mut j: usize = 0;
    proof {
        reveal_with_fuel(Seq::filter, 1);
        assert(tes@.take(0) =~= Seq::<RawEntry>::empty());
        assert(good_thumb_entries(tes@.take(0)) =~= Seq::<RawEntry>::empty());
    }
    while j < tes.len()
        invariant
            j <= tes@.len(),
            thumbs_match_list(tes@.take(j as int), ts@),
        decreases tes@.len() - j,
    {
        let ghost prev = ts@;
        match &tes[j].value {
            RawValue::Obj(ufs) => {
                match lookup(ufs, "url") {
                    Some(RawValue::Str(u)) => {
                        let t = Thumbnail { name: tes[j].key.clone(), url: u.clone() };
                        proof {
                            assert(thumb_url_of(tes@[j as int].value) == Some(t.url));
                        }
                        ts.push(t);
                    },
                    _ => {
                        proof {
                            assert(thumb_url_of(tes@[j as int].value) is None);
                        }
                    },
                }
            },
            _ => {},
        }
        proof {
            lemma_filter_push(
                tes@.take(j as int),
                tes@[j as int],
                |e: RawEntry| thumb_url_of(e.value) is Some,
            );
            assert(tes@.take(j + 1) =~= tes@.take(j as int).push(tes@[j as int]));
            assert forall|i: int| 0 <= i < ts@.len() implies thumb_matches(
                #[trigger] good_thumb_entries(tes@.take(j + 1))[i],
                ts@[i],
            ) by {
                if i < prev.len() {
                    assert(good_thumb_entries(tes@.take(j + 1))[i] == good_thumb_entries(
                        tes@.take(j as int),
                    )[i]);
                    assert(ts@[i] == prev[i]);
                }
            }
        }
        j = j + 1;
    }
    proof {
        assert(tes@.take(tes@.len() as int) =~= tes@);
    }
    ts
}

/// Collects the attachments of a raw list: the elements that are objects
/// with a string url, in order.
fn collect_attachments(vs: &Vec<RawValue>) -> (aa: Vec<Attachment>)
    ensures
        attachments_match_list(vs@, aa@),
{
    let mut aa: Vec<Attachment> = Vec::new();
    let mut i: usize = 0;
    proof {
        reveal_with_fuel(Seq::filter, 1);
        assert(vs@.take(0) =~= Seq::<RawValue>::empty());
        assert(good_attachments(vs@.take(0)) =~= Seq::<RawValue>::empty());
    }
    while i < vs.len()
        invariant
            i <= vs@.len(),
            attachments_match_list(vs@.take(i as int), aa@),
        decreases vs@.len() - i,
    {
        let ghost prev = aa@;
        match &vs[i] {
            RawValue::Obj(fs) => {
                match lookup(fs, "url") {
                    Some(RawValue::Str(u)) => {
                        let thumbs: Option<Vec<Thumbnail>> = match lookup(fs, "thumbnails") {
                            Some(RawValue::Obj(tes)) => Some(collect_thumbnails(tes)),
                            Some(_) => None,
                            None => None,
                        };
                        let a = Attachment { url: u.clone(), thumbnails: thumbs };
                        proof {
                            assert(is_attachment(vs@[i as int]));
                            assert(attachment_matches(vs@[i as int], a));
                        }
                        aa.push(a);
                    },
                    _ => {
                        proof {
                            assert(!is_attachment(vs@[i as int]));
                        }
                    },
                }
            },
            _ => {},
        }
        proof {
            lemma_filter_push(vs@.take(i as int), vs@[i as int], |v: RawValue| is_attachment(v));
            assert(vs@.take(i + 1) =~= vs@.take(i as int).push(vs@[i as int]));
            assert forall|i0: int| 0 <= i0 < aa@.len() implies attachment_matches(
                #[trigger] good_attachments(vs@.take(i + 1))[i0],
                aa@[i0],
            ) by {
                if i0 < prev.len() {
                    assert(good_attachments(vs@.take(i + 1))[i0] == good_attachments(
                        vs@.take(i as int),
                    )[i0]);
                    assert(aa@[i0] == prev[i0]);
                }
            }
        }
        i = i + 1;
    }
    proof {
        assert(vs@.take(vs@.len() as int) =~= vs@);
    }
    aa
}

/// Normalizes a raw fields payload into the `Item` view model. Never
/// rejects the payload: each unrecognized or wrongly shaped field is
/// absent on the result, and an empty payload yields an all-absent item.
pub fn normalize_item(fields: &Vec<RawEntry>) -> (it: Item)
    ensures
        normalizes_to(fields@, it),
{
    let name: Option<String> = match lookup(fields, "name") {
        Some(RawValue::Str(s)) => Some(s.clone()),
        _ => None,
    };
    let description: Option<String> = match lookup(fields, "description") {
        Some(RawValue::Str(s)) => Some(s.clone()),
        _ => None,
    };
    let price: Option<i32> = match lookup(fields, "price") {
        Some(RawValue::Int(n)) => {
            if *n >= (i32::MIN as i64) && *n <= (i32::MAX as i64) {
                Some(*n as i32)
            } else {
                None
            }
        },
        _ => None,
    };
    let images: Option<Vec<Attachment>> = match lookup(fields, "images") {
        Some(RawValue::List(vs)) => Some(collect_attachments(vs)),
        _ => None,
    };
    let categories: Option<Vec<String>> = match lookup(fields, "categories") {
        Some(RawValue::List(vs)) => Some(collect_strings(vs)),
        _ => None,
    };
    let publish: Option<bool> = match lookup(fields, "publish") {
        Some(RawValue::Bool(b)) => Some(*b),
        _ => None,
    };
    Item { name, description, price, images, categories, publish }
}

/// Normalizes one raw row: the id carries over, the fields are
/// normalized. A well-formed row (nonempty store-assigned id) yields a
/// well-formed record.
pub fn normalize_record(raw: &RawRecord) -> (rec: Record<Item>)
    ensures
        rec.id == raw.id,
        normalizes_to(raw.fields@, rec.fields),
        raw.id@.len() > 0 ==> crate::model::record_wf(rec),
{
    Record { id: raw.id.clone(), fields: normalize_item(&raw.fields) }
}

/// Normalizes the full fetched collection, row by row, in order.
pub fn normalize_records(rows: &Vec<RawRecord>) -> (recs: Vec<Record<Item>>)
    ensures
        recs@.len() == rows@.len(),
        forall|i: int|
            0 <= i < rows@.len() ==> (#[trigger] recs@[i]).id == rows@[i].id && normalizes_to(
                rows@[i].fields@,
                recs@[i].fields,
            ),
{
    let mut recs: Vec<Record<Item>> = Vec::new();
    let mut i: usize = 0;
    while i < rows.len()
        invariant
            i <= rows@.len(),
            recs@.len() == i,
            forall|k: int|
                0 <= k < i ==> (#[trigger] recs@[k]).id == rows@[k].id && normalizes_to(
                    rows@[k].fields@,
                    recs@[k].fields,
                ),
        decreases rows@.len() - i,
    {
        let rec = normalize_record(&rows[i]);
        recs.push(rec);
        i = i + 1;
    }
    recs
}

} // verus!
