//! The catalog view model: records, items and image attachments.

use vstd::prelude::*;

verus! {

/// A single named thumbnail variant of an attachment, e.g. "large".
#[derive(Clone, Debug)]
pub struct Thumbnail {
    pub name: String,
    pub url: String,
}

/// An image reference: a full-size url plus an optional set of named
/// thumbnail variants.
#[derive(Clone, Debug)]
pub struct Attachment {
    pub url: String,
    pub thumbnails: Option<Vec<Thumbnail>>,
}

/// The catalog view model for one record's fields.
///
/// Every field is independently optional: the remote store may leave any
/// column blank for any row, and no field's presence implies another's.
#[derive(Clone, Debug)]
pub struct Item {
    pub name: Option<String>,
    pub description: Option<String>,
    pub price: Option<i32>,
    pub images: Option<Vec<Attachment>>,
    pub categories: Option<Vec<String>>,
    pub publish: Option<bool>,
}

/// A row of the remote store: an opaque store-assigned id plus a typed
/// fields payload.
#[derive(Clone, Debug)]
pub struct Record<T> {
    pub id: String,
    pub fields: T,
}

/// The first thumbnail variant under the given name, if any.
pub open spec fn spec_thumbnail(ts: Seq<Thumbnail>, name: Seq<char>) -> Option<Thumbnail>
    decreases ts.len(),
{
    if ts.len() == 0 {
        None
    } else if ts[0].name@ == name {
        Some(ts[0])
    } else {
        spec_thumbnail(ts.skip(1), name)
    }
}

/// The thumbnail variant of this attachment under the given name: `None`
/// when the attachment has no thumbnails or no variant of that name.
pub open spec fn attachment_thumbnail(a: Attachment, name: Seq<char>) -> Option<Thumbnail> {
    match a.thumbnails {
        Some(ts) => spec_thumbnail(ts@, name),
        None => None,
    }
}

impl Attachment {
    /// Looks up the url of the named thumbnail variant, e.g. "large".
    /// A missing variant degrades to `None`; the caller shows no image.
    pub fn thumbnail_url(&self, name: &str) -> (r: Option<&String>)
        ensures
            match attachment_thumbnail(*self, name@) {
                Some(t) => r matches Some(u) && *u == t.url,
                None => r is None,
            },
    {
        match &self.thumbnails {
            None => None,
            Some(ts) => {
                let mut i: usize = 0;
                proof {
                    assert(self.thumbnails == Some(*ts));
                    assert(attachment_thumbnail(*self, name@) == spec_thumbnail(ts@, name@));
                    assert(ts@.skip(0) =~= ts@);
                }
                while i < ts.len()
                    invariant
                        i <= ts@.len(),
                        self.thumbnails == Some(*ts),
                        attachment_thumbnail(*self, name@) == spec_thumbnail(
                            ts@.skip(i as int),
                            name@,
                        ),
                    decreases ts@.len() - i,
                {
                    proof {
                        assert(ts@.skip(i as int)[0] == ts@[i as int]);
                    }
                    if crate::strings::str_eq_str(ts[i].name.as_str(), name) {
                        proof {
                            assert(spec_thumbnail(ts@.skip(i as int), name@) == Some(
                                ts@[i as int],
                            ));
                        }
                        let t = &ts[i];
                        proof {
                            assert(*t == ts@[i as int]);
                        }
                        let ret = Some(&t.url);
                        proof {
                            assert(ret matches Some(u) && *u == ts@[i as int].url);
                        }
                        return ret;
                    }
                    proof {
                        assert(ts@.skip(i as int).skip(1) =~= ts@.skip(i + 1));
                    }
                    i = i + 1;
                }
                None
            },
        }
    }
}

impl Item {
    /// The first image attachment, if the item has any: the one an item
    /// card displays. An absent or empty `images` field shows no image.
    pub fn first_image(&self) -> (r: Option<&Attachment>)
        ensures
            match self.images {
                Some(imgs) => if imgs@.len() > 0 {
                    r matches Some(a) && *a == imgs@[0]
                } else {
                    r is None
                },
                None => r is None,
            },
    {
        match &self.images {
            Some(imgs) => if imgs.len() > 0 {
                Some(&imgs[0])
            } else {
                None
            },
            None => None,
        }
    }
}

/// A record is well formed when its store-assigned id is nonempty.
pub open spec fn record_wf<T>(r: Record<T>) -> bool {
    r.id@.len() > 0
}

} // verus!
