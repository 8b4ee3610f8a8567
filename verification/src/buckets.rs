//! The configured buckets, each with the client that talks to it, in
//! settings order. Built once at start-up and never changed.
use vstd::prelude::*;

use crate::api::{BucketHttpModel, ListBucketsResponse};
use crate::settings::model::BucketSettingsModel;
use crate::text::str_eq;

verus! {

/// One configured bucket: its name (the key the UI addresses it by) and the
/// client built from its settings.
pub struct S3Bucket<C> {
    pub name: String,
    pub client: C,
}

impl<C> S3Bucket<C> {
    /// The bucket of one settings entry, talking through `client`.
    pub fn new(settings: &BucketSettingsModel, client: C) -> (r: Self)
        ensures
            r.name@ == settings.name@,
            r.client == client,
    {
        S3Bucket { name: settings.name.clone(), client }
    }
}

/// The configured buckets in settings order. A handful at most: a linear
/// lookup is enough.
pub struct S3Buckets<C> {
    buckets: Vec<S3Bucket<C>>,
}

impl<C> View for S3Buckets<C> {
    type V = Seq<S3Bucket<C>>;

    closed spec fn view(&self) -> Seq<S3Bucket<C>> {
        self.buckets@
    }
}

/// The names of `buckets`, in order.
pub open spec fn bucket_names<C>(buckets: Seq<S3Bucket<C>>) -> Seq<Seq<char>> {
    buckets.map_values(|b: S3Bucket<C>| b.name@)
}

/// The position of the first bucket named `name`, if any.
pub open spec fn first_named<C>(buckets: Seq<S3Bucket<C>>, name: Seq<char>) -> Option<int> {
    if exists|i: int| 0 <= i < buckets.len() && #[trigger] buckets[i].name@ == name {
        Some(
            choose|i: int|
                0 <= i < buckets.len() && #[trigger] buckets[i].name@ == name && forall|j: int|
                    0 <= j < i ==> buckets[j].name@ != name,
        )
    } else {
        None
    }
}

impl<C> S3Buckets<C> {
    /// One bucket per settings entry, in settings order, each with the client
    /// `make_client` builds from its entry.
    pub fn new<F: Fn(&BucketSettingsModel) -> C>(settings: &[BucketSettingsModel], make_client: F) -> (r:
        Self)
        requires
            forall|i: int| 0 <= i < settings@.len() ==> make_client.requires((&settings@[i],)),
        ensures
            r@.len() == settings@.len(),
            forall|i: int|
                0 <= i < settings@.len() ==> {
                    &&& (#[trigger] r@[i]).name@ == settings@[i].name@
                    &&& make_client.ensures((&settings@[i],), r@[i].client)
                },
    {
        let mut buckets: Vec<S3Bucket<C>> = Vec::new();
        let mut i: usize = 0;
        while i < settings.len()
            invariant
                i <= settings@.len(),
                buckets@.len() == i,
                forall|k: int| 0 <= k < settings@.len() ==> make_client.requires((&settings@[k],)),
                forall|k: int|
                    0 <= k < i ==> {
                        &&& (#[trigger] buckets@[k]).name@ == settings@[k].name@
                        &&& make_client.ensures((&settings@[k],), buckets@[k].client)
                    },
            decreases settings@.len() - i,
        {
            let entry = &settings[i];
            let client = make_client(entry);
            buckets.push(S3Bucket::new(entry, client));
            i = i + 1;
        }
        S3Buckets { buckets }
    }

    /// All buckets, in settings order.
    pub fn get_all(&self) -> (r: &[S3Bucket<C>])
        ensures
            r@ == self@,
    {
        self.buckets.as_slice()
    }

    /// The first bucket named `name`, or `None` when no bucket has that name.
    pub fn get(&self, name: &str) -> (r: Option<&S3Bucket<C>>)
        ensures
            match first_named(self@, name@) {
                Some(i) => r == Some(&self@[i]),
                None => r is None,
            },
    {
        let mut i: usize = 0;
        while i < self.buckets.len()
            invariant
                i <= self.buckets@.len(),
                forall|j: int| 0 <= j < i ==> self.buckets@[j].name@ != name@,
            decreases self.buckets@.len() - i,
        {
            if str_eq(self.buckets[i].name.as_str(), name) {
                proof {
                    let b = self.buckets@;
                    assert(b[i as int].name@ == name@);
                    let k = choose|k: int|
                        0 <= k < b.len() && #[trigger] b[k].name@ == name@ && forall|j: int|
                            0 <= j < k ==> b[j].name@ != name@;
                    assert(0 <= k < b.len() && b[k].name@ == name@ && forall|j: int|
                        0 <= j < k ==> b[j].name@ != name@);
                    if k < i {
                        assert(false);
                    }
                    if k > i {
                        assert(b[i as int].name@ != name@);
                    }
                }
                return Some(&self.buckets[i]);
            }
            i = i + 1;
        }
        None
    }
}

/// A configured bucket as the API shows it: its name only. Credentials
/// never leave the server.
impl<'a, C> From<&'a S3Bucket<C>> for BucketHttpModel {
    fn from(bucket: &'a S3Bucket<C>) -> (r: BucketHttpModel)
        ensures
            r.name@ == bucket.name@,
    {
        BucketHttpModel { name: bucket.name.clone() }
    }
}

impl<'a, C> vstd::std_specs::convert::FromSpecImpl<&'a S3Bucket<C>> for BucketHttpModel {
    open spec fn obeys_from_spec() -> bool {
        false
    }

    open spec fn from_spec(bucket: &'a S3Bucket<C>) -> BucketHttpModel {
        vstd::pervasive::arbitrary()
    }
}

/// The root level of the tree: every configured bucket, in settings order.
pub fn list_buckets<C>(buckets: &S3Buckets<C>) -> (r: ListBucketsResponse)
    ensures
        r.buckets@.map_values(|b: BucketHttpModel| b.name@) == bucket_names(buckets@),
{
    let all = buckets.get_all();
    let mut out: Vec<BucketHttpModel> = Vec::new();
    let mut i: usize = 0;
    while i < all.len()
        invariant
            i <= all@.len(),
            out@.len() == i,
            forall|k: int| 0 <= k < i ==> (#[trigger] out@[k]).name@ == all@[k].name@,
        decreases all@.len() - i,
    {
        out.push(BucketHttpModel::from(&all[i]));
        i = i + 1;
    }
    proof {
        assert(out@.map_values(|b: BucketHttpModel| b.name@) =~= bucket_names(buckets@));
    }
    ListBucketsResponse { buckets: out }
}

} // verus!
