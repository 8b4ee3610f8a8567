//! Turns a raw listing into the response: the folder marker skipped, every
//! entry named relative to the listed prefix, folders and files each sorted
//! by name.
use vstd::prelude::*;

use crate::api::{FileHttpModel, FileView, FolderHttpModel, FolderView, ListObjectsResponse};
use crate::models::{LevelFile, LevelFolder, ListedLevel, ListedObject, ListedObjectView};
use crate::models::LevelView;
use crate::scripts::name_sort::{
    entries_named, has_name, lemma_sorted_names_are_determined, names_of, sort_by_name,
    sorted_by_name,
};
use crate::scripts::names;
use crate::scripts::names::is_folder_marker;

verus! {

broadcast use vstd::seq_lib::group_to_multiset_ensures;

/// The folder a listed common prefix stands for.
pub open spec fn folder_entry(listed_prefix: Seq<char>, common_prefix: Seq<char>) -> FolderView {
    FolderView { prefix: common_prefix, name: names::folder_name(listed_prefix, common_prefix) }
}

/// The file a listed object stands for.
pub open spec fn file_entry(listed_prefix: Seq<char>, object: ListedObjectView) -> FileView {
    FileView {
        key: object.key,
        name: names::file_name(listed_prefix, object.key),
        size: object.size,
        last_modified: object.last_modified,
    }
}

/// The folders of a level, in the order S3 listed them.
pub open spec fn level_folders(listed_prefix: Seq<char>, common_prefixes: Seq<Seq<char>>) -> Seq<
    FolderView,
> {
    common_prefixes.map_values(|cp: Seq<char>| folder_entry(listed_prefix, cp))
}

/// The files of a level, in the order S3 listed them, the folder marker left
/// out.
pub open spec fn level_files(listed_prefix: Seq<char>, objects: Seq<ListedObjectView>) -> Seq<
    FileView,
> {
    objects.filter(|o: ListedObjectView| !names::folder_marker(listed_prefix, o.key, o.size)).map_values(
        |o: ListedObjectView| file_entry(listed_prefix, o),
    )
}

/// The texts of strings, in order.
pub open spec fn string_views(s: Seq<String>) -> Seq<Seq<char>> {
    s.map_values(|x: String| x@)
}

/// The contents of listed objects, in order.
pub open spec fn object_views(s: Seq<ListedObject>) -> Seq<ListedObjectView> {
    s.map_values(|o: ListedObject| o@)
}

/// The contents of folder entries, in order.
pub open spec fn folder_views(s: Seq<FolderHttpModel>) -> Seq<FolderView> {
    s.map_values(|f: FolderHttpModel| f@)
}

/// The contents of file entries, in order.
pub open spec fn file_views(s: Seq<FileHttpModel>) -> Seq<FileView> {
    s.map_values(|f: FileHttpModel| f@)
}

/// Two sequences with the same elements keep the same elements when mapped.
pub proof fn lemma_map_values_multiset<A, B>(s1: Seq<A>, s2: Seq<A>, f: spec_fn(A) -> B)
    requires
        s1.to_multiset() == s2.to_multiset(),
    ensures
        s1.map_values(f).to_multiset() == s2.map_values(f).to_multiset(),
    decreases s1.len(),
{
    broadcast use vstd::multiset::group_multiset_axioms;

    if s1.len() == 0 {
        vstd::seq_lib::to_multiset_len(s2);
        assert(s1.map_values(f) =~= Seq::<B>::empty());
        assert(s2.map_values(f) =~= Seq::<B>::empty());
    } else {
        let x = s1.last();
        let d1 = s1.drop_last();
        assert(s1 =~= d1.push(x));
        vstd::seq_lib::to_multiset_build(d1, x);
        assert(s1.to_multiset().count(x) > 0);
        vstd::seq_lib::to_multiset_contains(s2, x);
        let k = choose|k: int| 0 <= k < s2.len() && s2[k] == x;
        let d2 = s2.remove(k);
        vstd::seq_lib::to_multiset_remove(s2, k);
        assert(d1.to_multiset() =~= d2.to_multiset());
        lemma_map_values_multiset(d1, d2, f);
        assert(s1.map_values(f) =~= d1.map_values(f).push(f(x)));
        vstd::seq_lib::to_multiset_build(d1.map_values(f), f(x));
        assert(s2.map_values(f) =~= d2.map_values(f).insert(k, f(x)));
        vstd::seq_lib::to_multiset_insert(d2.map_values(f), k, f(x));
    }
}

proof fn lemma_filter_count<A>(s: Seq<A>, p: spec_fn(A) -> bool, v: A)
    ensures
        s.filter(p).to_multiset().count(v) == if p(v) {
            s.to_multiset().count(v)
        } else {
            0
        },
    decreases s.len(),
{
    broadcast use vstd::multiset::group_multiset_axioms;

    if s.len() == 0 {
        s.lemma_filter_len(p);
        vstd::seq_lib::to_multiset_len(s);
        vstd::seq_lib::to_multiset_len(s.filter(p));
    } else {
        let d = s.drop_last();
        let x = s.last();
        lemma_filter_count(d, p, v);
        assert(s =~= d.push(x));
        d.lemma_filter_push(x, p);
        vstd::seq_lib::to_multiset_build(d, x);
        vstd::seq_lib::to_multiset_build(d.filter(p), x);
    }
}

/// Two sequences with the same elements keep the same elements when filtered.
proof fn lemma_filter_multiset<A>(s1: Seq<A>, s2: Seq<A>, p: spec_fn(A) -> bool)
    requires
        s1.to_multiset() == s2.to_multiset(),
    ensures
        s1.filter(p).to_multiset() == s2.filter(p).to_multiset(),
{
    assert forall|v: A| #[trigger] s1.filter(p).to_multiset().count(v) == s2.filter(
        p,
    ).to_multiset().count(v) by {
        lemma_filter_count(s1, p, v);
        lemma_filter_count(s2, p, v);
    }
    assert(s1.filter(p).to_multiset() =~= s2.filter(p).to_multiset());
}

/// Whether a folder entry is named `n`.
pub open spec fn folder_named(n: Seq<char>) -> spec_fn(FolderView) -> bool {
    |v: FolderView| v.name == n
}

/// Whether a file entry is named `n`.
pub open spec fn file_named(n: Seq<char>) -> spec_fn(FileView) -> bool {
    |v: FileView| v.name == n
}

/// `r` lists the level `level` under `listed_prefix`: its folders and its
/// files (the folder marker left out) in listing order, entries of the same
/// name in the order S3 listed them.
pub open spec fn lists_level(r: ListObjectsResponse, listed_prefix: Seq<char>, level: LevelView) -> bool {
    &&& sorted_by_name(r.folders@)
    &&& sorted_by_name(r.files@)
    &&& folder_views(r.folders@).to_multiset() == level_folders(
        listed_prefix,
        level.common_prefixes,
    ).to_multiset()
    &&& file_views(r.files@).to_multiset() == level_files(listed_prefix, level.objects).to_multiset()
    &&& forall|n: Seq<char>| #[trigger]
        folder_views(r.folders@).filter(folder_named(n)) == level_folders(
            listed_prefix,
            level.common_prefixes,
        ).filter(folder_named(n))
    &&& forall|n: Seq<char>| #[trigger]
        file_views(r.files@).filter(file_named(n)) == level_files(
            listed_prefix,
            level.objects,
        ).filter(file_named(n))
}

/// Filtering and then mapping gives what mapping and then filtering by the
/// same condition gives.
proof fn lemma_filter_map_values<A, B>(
    s: Seq<A>,
    f: spec_fn(A) -> B,
    q: spec_fn(A) -> bool,
    p: spec_fn(B) -> bool,
)
    requires
        forall|a: A| #[trigger] q(a) == p(f(a)),
    ensures
        s.filter(q).map_values(f) == s.map_values(f).filter(p),
    decreases s.len(),
{
    if s.len() == 0 {
        s.lemma_filter_len(q);
        s.map_values(f).lemma_filter_len(p);
        assert(s.filter(q).map_values(f) =~= s.map_values(f).filter(p));
    } else {
        let d = s.drop_last();
        let x = s.last();
        lemma_filter_map_values(d, f, q, p);
        assert(s =~= d.push(x));
        d.lemma_filter_push(x, q);
        assert(s.map_values(f) =~= d.map_values(f).push(f(x)));
        d.map_values(f).lemma_filter_push(f(x), p);
        if q(x) {
            assert(d.filter(q).push(x).map_values(f) =~= d.filter(q).map_values(f).push(f(x)));
        }
    }
}

/// The order of a response does not depend on the order S3 listed the level
/// in: two responses for levels that hold the same common prefixes and the
/// same objects, in whatever order, list the same folder names and the same
/// file names in the same order.
pub proof fn lemma_order_does_not_depend_on_s3(
    listed_prefix: Seq<char>,
    level1: LevelView,
    level2: LevelView,
    r1: ListObjectsResponse,
    r2: ListObjectsResponse,
)
    requires
        level1.common_prefixes.to_multiset() == level2.common_prefixes.to_multiset(),
        level1.objects.to_multiset() == level2.objects.to_multiset(),
        lists_level(r1, listed_prefix, level1),
        lists_level(r2, listed_prefix, level2),
    ensures
        names_of(r1.folders@) == names_of(r2.folders@),
        names_of(r1.files@) == names_of(r2.files@),
{
    let to_folder = |cp: Seq<char>| folder_entry(listed_prefix, cp);
    let keep = |o: ListedObjectView| !names::folder_marker(listed_prefix, o.key, o.size);
    let to_file = |o: ListedObjectView| file_entry(listed_prefix, o);
    lemma_map_values_multiset(level1.common_prefixes, level2.common_prefixes, to_folder);
    lemma_filter_multiset(level1.objects, level2.objects, keep);
    lemma_map_values_multiset(level1.objects.filter(keep), level2.objects.filter(keep), to_file);
    let folder_name = |v: FolderView| v.name;
    let file_name = |v: FileView| v.name;
    lemma_map_values_multiset(folder_views(r1.folders@), folder_views(r2.folders@), folder_name);
    lemma_map_values_multiset(file_views(r1.files@), file_views(r2.files@), file_name);
    assert(names_of(r1.folders@) =~= folder_views(r1.folders@).map_values(folder_name));
    assert(names_of(r2.folders@) =~= folder_views(r2.folders@).map_values(folder_name));
    assert(names_of(r1.files@) =~= file_views(r1.files@).map_values(file_name));
    assert(names_of(r2.files@) =~= file_views(r2.files@).map_values(file_name));
    lemma_sorted_names_are_determined(r1.folders@, r2.folders@);
    lemma_sorted_names_are_determined(r1.files@, r2.files@);
}

/// Every entry with the same elements as the files of a level is a listed
/// object named relative to the listed prefix, and none is the folder marker.
proof fn lemma_entries_of_level_files(
    listed_prefix: Seq<char>,
    objects: Seq<ListedObjectView>,
    files: Seq<FileView>,
)
    requires
        files.to_multiset() == level_files(listed_prefix, objects).to_multiset(),
    ensures
        forall|i: int|
            0 <= i < files.len() ==> {
                &&& !names::folder_marker(listed_prefix, (#[trigger] files[i]).key, files[i].size)
                &&& files[i].name == names::file_name(listed_prefix, files[i].key)
            },
{
    let keep = |o: ListedObjectView| !names::folder_marker(listed_prefix, o.key, o.size);
    let kept = objects.filter(keep);
    let all = level_files(listed_prefix, objects);
    assert forall|i: int| 0 <= i < files.len() implies {
        &&& !names::folder_marker(listed_prefix, (#[trigger] files[i]).key, files[i].size)
        &&& files[i].name == names::file_name(listed_prefix, files[i].key)
    } by {
        let x = files[i];
        vstd::seq_lib::to_multiset_contains(files, x);
        vstd::seq_lib::to_multiset_contains(all, x);
        assert(files.contains(x));
        let k = choose|k: int| 0 <= k < all.len() && all[k] == x;
        objects.lemma_filter_pred(keep, k);
        assert(all[k] == file_entry(listed_prefix, kept[k]));
    }
}

/// Every entry with the same elements as the folders of a level is named
/// relative to the listed prefix.
proof fn lemma_entries_of_level_folders(
    listed_prefix: Seq<char>,
    common_prefixes: Seq<Seq<char>>,
    folders: Seq<FolderView>,
)
    requires
        folders.to_multiset() == level_folders(listed_prefix, common_prefixes).to_multiset(),
    ensures
        forall|i: int|
            0 <= i < folders.len() ==> (#[trigger] folders[i]).name == names::folder_name(
                listed_prefix,
                folders[i].prefix,
            ),
{
    let all = level_folders(listed_prefix, common_prefixes);
    assert forall|i: int| 0 <= i < folders.len() implies (#[trigger] folders[i]).name
        == names::folder_name(listed_prefix, folders[i].prefix) by {
        let x = folders[i];
        vstd::seq_lib::to_multiset_contains(folders, x);
        vstd::seq_lib::to_multiset_contains(all, x);
        assert(folders.contains(x));
        let k = choose|k: int| 0 <= k < all.len() && all[k] == x;
        assert(all[k] == folder_entry(listed_prefix, common_prefixes[k]));
    }
}

/// The response for one listed level of `bucket` under `prefix`: folders and
/// files directly under it, each sorted by name, the folder marker skipped,
/// truncation passed through.
pub fn build_list_objects_response(bucket: &str, prefix: String, level: ListedLevel) -> (r:
    ListObjectsResponse)
    ensures
        r.bucket@ == bucket@,
        r.prefix@ == prefix@,
        r.is_truncated == level.is_truncated,
        lists_level(r, prefix@, level@),
        forall|i: int|
            0 <= i < r.files@.len() ==> {
                &&& !names::folder_marker(prefix@, (#[trigger] r.files@[i]).key@, r.files@[i].size)
                &&& r.files@[i].name@ == names::file_name(prefix@, r.files@[i].key@)
            },
        forall|i: int|
            0 <= i < r.folders@.len() ==> (#[trigger] r.folders@[i]).name@ == names::folder_name(
                prefix@,
                r.folders@[i].prefix@,
            ),
{
    let ListedLevel { common_prefixes, objects, is_truncated } = level;
    let ghost cps = common_prefixes@;
    let ghost objs = object_views(objects@);
    let mut folders: Vec<FolderHttpModel> = Vec::new();
    for common_prefix in it: common_prefixes.into_iter()
        invariant
            it.seq() == cps,
            folder_views(folders@) == level_folders(prefix@, string_views(cps.take(it.index()))),
    {
        let ghost before = folders@;
        let folder = FolderHttpModel::from(
            LevelFolder { listed_prefix: prefix.as_str(), common_prefix },
        );
        folders.push(folder);
        proof {
            assert(cps.take(it.index() + 1) =~= cps.take(it.index()).push(cps[it.index()]));
            assert(folder_views(folders@) =~= folder_views(before).push(folder@));
            assert(string_views(cps.take(it.index() + 1)) =~= string_views(
                cps.take(it.index()),
            ).push(cps[it.index()]@));
            assert(level_folders(prefix@, string_views(cps.take(it.index() + 1))) =~= level_folders(
                prefix@,
                string_views(cps.take(it.index())),
            ).push(folder_entry(prefix@, cps[it.index()]@)));
        }
    }
    assert(cps.take(cps.len() as int) =~= cps);
    let mut files: Vec<FileHttpModel> = Vec::new();
    for object in it: objects.into_iter()
        invariant
            object_views(it.seq()) == objs,
            file_views(files@) == level_files(prefix@, objs.take(it.index())),
    {
        let ghost before = files@;
        let ghost o = object@;
        let ghost marker = names::folder_marker(prefix@, o.key, o.size);
        proof {
            assert(objs.take(it.index() + 1) =~= objs.take(it.index()).push(o));
            let p = |x: ListedObjectView| !names::folder_marker(prefix@, x.key, x.size);
            objs.take(it.index()).lemma_filter_push(o, p);
        }
        if !is_folder_marker(prefix.as_str(), object.key.as_str(), object.size) {
            let file = FileHttpModel::from(LevelFile { listed_prefix: prefix.as_str(), object });
            files.push(file);
            assert(file_views(files@) =~= file_views(before).push(file@));
        }
        assert(file_views(files@) =~= level_files(prefix@, objs.take(it.index() + 1)));
    }
    assert(objs.take(objs.len() as int) =~= objs);
    let sorted_folders = sort_by_name(folders);
    let sorted_files = sort_by_name(files);
    proof {
        lemma_map_values_multiset(sorted_folders@, folders@, |f: FolderHttpModel| f@);
        lemma_map_values_multiset(sorted_files@, files@, |f: FileHttpModel| f@);
        let folder_view = |f: FolderHttpModel| f@;
        let file_view = |f: FileHttpModel| f@;
        assert forall|n: Seq<char>| #[trigger]
            folder_views(sorted_folders@).filter(folder_named(n)) == level_folders(
                prefix@,
                string_views(cps),
            ).filter(folder_named(n)) by {
            lemma_filter_map_values(sorted_folders@, folder_view, has_name::<FolderHttpModel>(n), folder_named(n));
            lemma_filter_map_values(folders@, folder_view, has_name::<FolderHttpModel>(n), folder_named(n));
            assert(folder_views(sorted_folders@) =~= sorted_folders@.map_values(folder_view));
            assert(folder_views(folders@) =~= folders@.map_values(folder_view));
            assert(entries_named(sorted_folders@, n) == entries_named(folders@, n));
        }
        assert forall|n: Seq<char>| #[trigger]
            file_views(sorted_files@).filter(file_named(n)) == level_files(prefix@, objs).filter(
                file_named(n),
            ) by {
            lemma_filter_map_values(sorted_files@, file_view, has_name::<FileHttpModel>(n), file_named(n));
            lemma_filter_map_values(files@, file_view, has_name::<FileHttpModel>(n), file_named(n));
            assert(file_views(sorted_files@) =~= sorted_files@.map_values(file_view));
            assert(file_views(files@) =~= files@.map_values(file_view));
            assert(entries_named(sorted_files@, n) == entries_named(files@, n));
        }
        lemma_entries_of_level_files(prefix@, objs, file_views(sorted_files@));
        lemma_entries_of_level_folders(prefix@, string_views(cps), folder_views(sorted_folders@));
        assert forall|i: int| 0 <= i < sorted_files@.len() implies {
            &&& !names::folder_marker(prefix@, (#[trigger] sorted_files@[i]).key@, sorted_files@[i].size)
            &&& sorted_files@[i].name@ == names::file_name(prefix@, sorted_files@[i].key@)
        } by {
            assert(file_views(sorted_files@)[i] == sorted_files@[i]@);
        }
        assert forall|i: int| 0 <= i < sorted_folders@.len() implies (
        #[trigger] sorted_folders@[i]).name@ == names::folder_name(prefix@, sorted_folders@[i].prefix@) by {
            assert(folder_views(sorted_folders@)[i] == sorted_folders@[i]@);
        }
    }
    ListObjectsResponse {
        bucket: String::from_str(bucket),
        prefix,
        folders: sorted_folders,
        files: sorted_files,
        is_truncated,
    }
}

} // verus!
