//! The catalogue of a bucket: every object in it, gathered from the pages in
//! which the store lists them.
//!
//! The listing decides; the caller sends each request to the store and hands
//! back the page that came.

use crate::s3_utils::S3Key;
use vstd::prelude::*;
use vstd::string::StringExecFns;

verus! {

/// One `ListObjectsV2` request.
#[derive(Clone, PartialEq, Eq, Debug)]
pub struct ListRequest {
    pub bucket: String,
    /// The marker that the page before handed on; none in the first
    /// request.
    pub continuation_token: Option<String>,
}

/// A `ListRequest` as plain values.
pub struct ListRequestView {
    pub bucket: Seq<char>,
    pub continuation_token: Option<Seq<char>>,
}

impl View for ListRequest {
    type V = ListRequestView;

    open spec fn view(&self) -> ListRequestView {
        ListRequestView {
            bucket: self.bucket@,
            continuation_token: match self.continuation_token {
                Some(marker) => Some(marker@),
                None => None,
            },
        }
    }
}

/// One page of a listing, as the store answers.
#[derive(Clone, PartialEq, Eq, Debug)]
pub struct ListPage {
    pub contents: Option<Vec<S3Key>>,
    /// The marker to hand on to the next request.
    pub next_continuation_token: Option<String>,
    /// Whether more pages follow; where the store does not say, none does.
    pub is_truncated: Option<bool>,
}

/// A `ListPage` as plain values.
pub struct ListPageView {
    pub contents: Seq<(Seq<char>, Seq<char>)>,
    pub next_continuation_token: Option<Seq<char>>,
    pub is_truncated: bool,
}

impl View for ListPage {
    type V = ListPageView;

    open spec fn view(&self) -> ListPageView {
        ListPageView {
            contents: match self.contents {
                Some(objects) => objects.deep_view(),
                None => Seq::empty(),
            },
            next_continuation_token: match self.next_continuation_token {
                Some(marker) => Some(marker@),
                None => None,
            },
            is_truncated: match self.is_truncated {
                Some(more) => more,
                None => false,
            },
        }
    }
}

/// `found` and then those of `objects` that are not in it yet, in their
/// order: an object counts once, however often it is listed.
pub open spec fn with_objects(
    found: Seq<(Seq<char>, Seq<char>)>,
    objects: Seq<(Seq<char>, Seq<char>)>,
) -> Seq<(Seq<char>, Seq<char>)>
    decreases objects.len(),
{
    if objects.len() == 0 {
        found
    } else {
        let before = with_objects(found, objects.drop_last());
        if before.contains(objects.last()) {
            before
        } else {
            before.push(objects.last())
        }
    }
}

/// Gathering objects makes their union: each object found before or listed
/// now is in the result, nothing else is, and nothing is in it twice.
pub proof fn law_with_objects_is_union(
    found: Seq<(Seq<char>, Seq<char>)>,
    objects: Seq<(Seq<char>, Seq<char>)>,
)
    requires
        found.no_duplicates(),
    ensures
        with_objects(found, objects).no_duplicates(),
        forall|object: (Seq<char>, Seq<char>)|
            #[trigger] with_objects(found, objects).contains(object) <==> found.contains(object)
                || objects.contains(object),
    decreases objects.len(),
{
    let all = with_objects(found, objects);
    if objects.len() == 0 {
    } else {
        let rest = objects.drop_last();
        let last = objects.last();
        let before = with_objects(found, rest);
        law_with_objects_is_union(found, rest);
        assert forall|object: (Seq<char>, Seq<char>)| #[trigger]
            all.contains(object) <==> found.contains(object) || objects.contains(object) by {
            if objects.contains(object) {
                let k = choose|k: int| 0 <= k < objects.len() && objects[k] == object;
                if k < objects.len() - 1 {
                    assert(rest[k] == object);
                    assert(rest.contains(object));
                }
            }
            if rest.contains(object) {
                let k = choose|k: int| 0 <= k < rest.len() && rest[k] == object;
                assert(objects[k] == object);
            }
            assert(objects[objects.len() - 1] == last);
            if before.contains(last) {
            } else {
                if before.contains(object) {
                    let k = choose|k: int| 0 <= k < before.len() && before[k] == object;
                    assert(all[k] == object);
                }
                assert(all[all.len() - 1] == last);
                if all.contains(object) {
                    let k = choose|k: int| 0 <= k < all.len() && all[k] == object;
                    if k < before.len() {
                        assert(before[k] == object);
                        assert(before.contains(object));
                    }
                }
            }
        }
    }
}

/// A listing under way: the bucket, and the objects found so far.
#[derive(Clone, PartialEq, Eq, Debug)]
pub struct Listing {
    bucket: String,
    found: Vec<S3Key>,
}

/// A `Listing` as plain values.
pub struct ListingView {
    pub bucket: Seq<char>,
    pub found: Seq<(Seq<char>, Seq<char>)>,
}

impl View for Listing {
    type V = ListingView;

    closed spec fn view(&self) -> ListingView {
        ListingView { bucket: self.bucket@, found: self.found.deep_view() }
    }
}

/// The request that follows the page `page` in a listing of `bucket`, where
/// one does: the store said that more pages follow, and the request hands
/// the page's marker on.
pub open spec fn next_request(bucket: Seq<char>, page: ListPageView) -> Option<ListRequestView> {
    if page.is_truncated {
        Some(ListRequestView { bucket, continuation_token: page.next_continuation_token })
    } else {
        None
    }
}

/// Begins to list `bucket`: nothing is found yet, and the first request asks
/// for the bucket from its beginning.
pub fn get_all_files(bucket: &str) -> (start: (Listing, ListRequest))
    ensures
        start.0.wf(),
        start.0@ == (ListingView { bucket: bucket@, found: Seq::empty() }),
        start.1@ == (ListRequestView { bucket: bucket@, continuation_token: None }),
{
    let listing = Listing { bucket: String::from_str(bucket), found: Vec::new() };
    assert(listing@.found =~= Seq::empty());
    (listing, ListRequest { bucket: String::from_str(bucket), continuation_token: None })
}

fn holds(found: &Vec<S3Key>, object: &S3Key) -> (held: bool)
    ensures
        held == found.deep_view().contains(object@),
{
    let mut i: usize = 0;
    while i < found.len()
        invariant
            i <= found.len(),
            forall|k: int| 0 <= k < i ==> #[trigger] found.deep_view()[k] != object@,
        decreases found.len() - i,
    {
        if found[i].key == object.key && found[i].etag == object.etag {
            assert(found.deep_view()[i as int] == object@);
            return true;
        }
        i += 1;
    }
    false
}

impl Listing {
    /// No object is in the catalogue twice.
    pub closed spec fn wf(&self) -> bool {
        self@.found.no_duplicates()
    }

    /// Takes a page of the listing: its objects join the catalogue, and
    /// where the store said that more follow, the next request is due.
    /// `None` says that the listing is complete.
    pub fn on_page(&mut self, page: ListPage) -> (next: Option<ListRequest>)
        requires
            old(self).wf(),
        ensures
            final(self).wf(),
            final(self)@ == (ListingView {
                bucket: old(self)@.bucket,
                found: with_objects(old(self)@.found, page@.contents),
            }),
            next.is_some() == next_request(old(self)@.bucket, page@).is_some(),
            next matches Some(request) ==> Some(request@) == next_request(
                old(self)@.bucket,
                page@,
            ),
    {
        let ghost before = self@.found;
        let ListPage { contents, next_continuation_token, is_truncated } = page;
        proof {
            law_with_objects_is_union(before, page@.contents);
        }
        match contents {
            None => {},
            Some(objects) => {
                let mut i: usize = 0;
                proof {
                    assert(objects.deep_view().take(0) =~= Seq::empty());
                }
                while i < objects.len()
                    invariant
                        i <= objects.len(),
                        self@.bucket == old(self)@.bucket,
                        self@.found == with_objects(before, objects.deep_view().take(i as int)),
                    decreases objects.len() - i,
                {
                    proof {
                        assert(objects.deep_view().take(i + 1).drop_last()
                            =~= objects.deep_view().take(i as int));
                        assert(objects.deep_view().take(i + 1).last() == objects@[i as int]@);
                    }
                    let ghost so_far = self@.found;
                    if !holds(&self.found, &objects[i]) {
                        self.found.push(
                            S3Key { key: objects[i].key.clone(), etag: objects[i].etag.clone() },
                        );
                        assert(self@.found =~= so_far.push(objects@[i as int]@));
                    }
                    i += 1;
                }
                assert(objects.deep_view().take(objects.len() as int) =~= objects.deep_view());
            },
        }
        let more = match is_truncated {
            Some(more) => more,
            None => false,
        };
        if more {
            Some(ListRequest { bucket: self.bucket.clone(), continuation_token: next_continuation_token })
        } else {
            None
        }
    }

    /// The objects found so far, each once, in the order in which they were
    /// first listed.
    pub fn into_files(self) -> (files: Vec<S3Key>)
        requires
            self.wf(),
        ensures
            files.deep_view() == self@.found,
            files.deep_view().no_duplicates(),
    {
        self.found
    }
}

} // verus!
