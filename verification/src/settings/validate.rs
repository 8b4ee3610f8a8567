//! The bucket name is the key the UI addresses a bucket by, so it has to be
//! present and unique.
use vstd::prelude::*;

use crate::settings::model::{BucketSettingsModel, SettingsModel};
use crate::text;
use crate::text::{chars_of, push_decimal, push_str, str_eq, trim_range};

verus! {

#[derive(Debug, PartialEq)]
pub enum SettingsValidationError {
    NoBuckets,
    EmptyBucketName { index: usize },
    DuplicateBucketName { name: String },
}

/// The contents of a [`SettingsValidationError`].
pub enum SettingsFailure {
    NoBuckets,
    EmptyBucketName { index: nat },
    DuplicateBucketName { name: Seq<char> },
}

impl View for SettingsValidationError {
    type V = SettingsFailure;

    open spec fn view(&self) -> SettingsFailure {
        match self {
            SettingsValidationError::NoBuckets => SettingsFailure::NoBuckets,
            SettingsValidationError::EmptyBucketName { index } => SettingsFailure::EmptyBucketName {
                index: *index as nat,
            },
            SettingsValidationError::DuplicateBucketName { name } =>
                SettingsFailure::DuplicateBucketName { name: name@ },
        }
    }
}

/// The bucket names of the settings, in order.
pub open spec fn bucket_names(settings: SettingsModel) -> Seq<Seq<char>> {
    settings.buckets@.map_values(|b: BucketSettingsModel| b.name@)
}

/// The first problem among the first `n` names: a blank name, or a name
/// given before.
pub open spec fn first_name_problem(names: Seq<Seq<char>>, n: nat) -> Option<SettingsFailure>
    decreases n,
{
    if n == 0 {
        None
    } else {
        match first_name_problem(names, (n - 1) as nat) {
            Some(p) => Some(p),
            None => {
                let name = names[n - 1];
                if text::trim(name).len() == 0 {
                    Some(SettingsFailure::EmptyBucketName { index: (n - 1) as nat })
                } else if names.take(n - 1).contains(name) {
                    Some(SettingsFailure::DuplicateBucketName { name })
                } else {
                    None
                }
            },
        }
    }
}

/// What validating the bucket names gives: no buckets at all, the first
/// problem among them, or success.
pub open spec fn names_validation(names: Seq<Seq<char>>) -> Result<(), SettingsFailure> {
    if names.len() == 0 {
        Err(SettingsFailure::NoBuckets)
    } else {
        match first_name_problem(names, names.len()) {
            Some(p) => Err(p),
            None => Ok(()),
        }
    }
}

proof fn lemma_first_name_problem_stays(names: Seq<Seq<char>>, k: nat, n: nat)
    requires
        k <= n,
        first_name_problem(names, k) is Some,
    ensures
        first_name_problem(names, n) == first_name_problem(names, k),
    decreases n - k,
{
    if k < n {
        lemma_first_name_problem_stays(names, k, (n - 1) as nat);
    }
}

proof fn lemma_no_name_problem(names: Seq<Seq<char>>, n: nat)
    requires
        n <= names.len(),
    ensures
        first_name_problem(names, n) is None <==> {
            &&& forall|i: int| 0 <= i < n ==> text::trim(#[trigger] names[i]).len() > 0
            &&& forall|i: int, j: int| 0 <= i < j < n ==> #[trigger] names[i] != #[trigger] names[j]
        },
    decreases n,
{
    if n > 0 {
        let k = n - 1;
        lemma_no_name_problem(names, k as nat);
        if first_name_problem(names, k as nat) is None && text::trim(names[k]).len() > 0 {
            if names.take(k).contains(names[k]) {
                let i = choose|i: int| 0 <= i < k && names.take(k)[i] == names[k];
                assert(names[i] == names[k]);
            } else {
                assert forall|i: int| 0 <= i < k implies names[i] != names[k] by {
                    assert(names.take(k)[i] == names[i]);
                }
            }
        }
    }
}

/// The settings are valid exactly when there is at least one bucket, no
/// bucket name is blank, and no two buckets share a name.
pub proof fn lemma_valid_settings(names: Seq<Seq<char>>)
    ensures
        names_validation(names) is Ok <==> {
            &&& names.len() > 0
            &&& forall|i: int| 0 <= i < names.len() ==> text::trim(#[trigger] names[i]).len() > 0
            &&& forall|i: int, j: int|
                0 <= i < j < names.len() ==> #[trigger] names[i] != #[trigger] names[j]
        },
{
    lemma_no_name_problem(names, names.len());
}

/// Checks the bucket names of the settings: at least one bucket, none blank,
/// none given twice. The first problem found, in settings order, is reported.
pub fn validate_settings(settings: &SettingsModel) -> (r: Result<(), SettingsValidationError>)
    ensures
        match r {
            Ok(()) => names_validation(bucket_names(*settings)) == Ok::<(), SettingsFailure>(()),
            Err(e) => names_validation(bucket_names(*settings)) == Err::<(), SettingsFailure>(e@),
        },
{
    let ghost names = bucket_names(*settings);
    let n = settings.buckets.len();
    if n == 0 {
        return Err(SettingsValidationError::NoBuckets);
    }
    let mut i: usize = 0;
    while i < n
        invariant
            n == settings.buckets@.len(),
            names == bucket_names(*settings),
            i <= n,
            first_name_problem(names, i as nat) is None,
        decreases n - i,
    {
        let name = settings.buckets[i].name.as_str();
        assert(name@ == names[i as int]);
        let cs = chars_of(name);
        let len = cs.len();
        assert(cs@.subrange(0, len as int) =~= cs@);
        let (a, b) = trim_range(&cs, 0, len);
        if a == b {
            proof {
                lemma_first_name_problem_stays(names, (i + 1) as nat, n as nat);
            }
            return Err(SettingsValidationError::EmptyBucketName { index: i });
        }
        let mut j: usize = 0;
        while j < i
            invariant
                n == settings.buckets@.len(),
                names == bucket_names(*settings),
                j <= i < n,
                name@ == names[i as int],
                first_name_problem(names, i as nat) is None,
                text::trim(name@).len() > 0,
                forall|k: int| 0 <= k < j ==> names[k] != name@,
            decreases i - j,
        {
            if str_eq(settings.buckets[j].name.as_str(), name) {
                proof {
                    assert(names.take(i as int)[j as int] == name@);
                    lemma_first_name_problem_stays(names, (i + 1) as nat, n as nat);
                }
                return Err(
                    SettingsValidationError::DuplicateBucketName {
                        name: settings.buckets[i].name.clone(),
                    },
                );
            }
            j = j + 1;
        }
        proof {
            if names.take(i as int).contains(name@) {
                let k = choose|k: int| 0 <= k < i && names.take(i as int)[k] == name@;
                assert(names[k] == name@);
            }
        }
        i = i + 1;
    }
    Ok(())
}

impl SettingsValidationError {
    /// The message of this problem (what `Display` shows).
    pub fn to_string(&self) -> (r: String)
        requires
            self@ matches SettingsFailure::EmptyBucketName { index } ==> index < usize::MAX,
        ensures
            r@ == match self@ {
                SettingsFailure::NoBuckets =>
                    "`buckets` is empty: configure at least one bucket, they are the root level of the tree"@,
                SettingsFailure::EmptyBucketName { index } => "bucket #"@ + text::decimal(index + 1)
                    + " has an empty `name`"@,
                SettingsFailure::DuplicateBucketName { name } => "bucket name '"@ + name
                    + "' is configured more than once: names must be unique"@,
            },
    {
        let mut r = String::new();
        match self {
            SettingsValidationError::NoBuckets => {
                push_str(
                    &mut r,
                    "`buckets` is empty: configure at least one bucket, they are the root level of the tree",
                );
            },
            SettingsValidationError::EmptyBucketName { index } => {
                push_str(&mut r, "bucket #");
                push_decimal(&mut r, (*index as u64) + 1);
                push_str(&mut r, " has an empty `name`");
            },
            SettingsValidationError::DuplicateBucketName { name } => {
                push_str(&mut r, "bucket name '");
                push_str(&mut r, name.as_str());
                push_str(&mut r, "' is configured more than once: names must be unique");
            },
        }
        proof {
            assert(r@ =~= match self@ {
                SettingsFailure::NoBuckets =>
                    "`buckets` is empty: configure at least one bucket, they are the root level of the tree"@,
                SettingsFailure::EmptyBucketName { index } => "bucket #"@ + text::decimal(index + 1)
                    + " has an empty `name`"@,
                SettingsFailure::DuplicateBucketName { name } => "bucket name '"@ + name
                    + "' is configured more than once: names must be unique"@,
            });
        }
        r
    }
}

} // verus!
