//! Conversions between the listing models and the wire models.
use vstd::prelude::*;

use crate::api::{FileHttpModel, FileView, FolderHttpModel, FolderView};
use crate::models::{LevelFile, LevelFolder};
use crate::scripts::names;
use crate::scripts::names::{get_file_name, get_folder_name};

verus! {

/// A listed common prefix as a folder: the prefix itself and its display
/// name relative to the listed prefix.
impl<'s> From<LevelFolder<'s>> for FolderHttpModel {
    fn from(folder: LevelFolder<'s>) -> (r: FolderHttpModel)
        ensures
            r@ == (FolderView {
                prefix: folder.common_prefix@,
                name: names::folder_name(folder.listed_prefix@, folder.common_prefix@),
            }),
    {
        let name = String::from_str(
            get_folder_name(folder.listed_prefix, folder.common_prefix.as_str()),
        );
        FolderHttpModel { name, prefix: folder.common_prefix }
    }
}

impl<'s> vstd::std_specs::convert::FromSpecImpl<LevelFolder<'s>> for FolderHttpModel {
    open spec fn obeys_from_spec() -> bool {
        false
    }

    open spec fn from_spec(folder: LevelFolder<'s>) -> FolderHttpModel {
        vstd::pervasive::arbitrary()
    }
}

/// A listed object as a file: its key, its display name relative to the
/// listed prefix, its size and modification time.
impl<'s> From<LevelFile<'s>> for FileHttpModel {
    fn from(file: LevelFile<'s>) -> (r: FileHttpModel)
        ensures
            r@ == (FileView {
                key: file.object.key@,
                name: names::file_name(file.listed_prefix@, file.object.key@),
                size: file.object.size,
                last_modified: file.object.last_modified@,
            }),
    {
        let name = String::from_str(get_file_name(file.listed_prefix, file.object.key.as_str()));
        FileHttpModel {
            name,
            key: file.object.key,
            size: file.object.size,
            last_modified: file.object.last_modified,
        }
    }
}

impl<'s> vstd::std_specs::convert::FromSpecImpl<LevelFile<'s>> for FileHttpModel {
    open spec fn obeys_from_spec() -> bool {
        false
    }

    open spec fn from_spec(file: LevelFile<'s>) -> FileHttpModel {
        vstd::pervasive::arbitrary()
    }
}

} // verus!
