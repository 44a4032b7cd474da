//! The editor's asset browser data: files, folders and model views.

use vstd::prelude::*;
use std::rc::Rc;

use crate::file_type::EFileType;

verus! {

/// One mesh of a model, with its child meshes.
#[derive(Debug)]
pub struct MeshItem {
    pub name: String,
    pub childs: Vec<Rc<MeshItem>>,
}

/// The meshes of one opened model file.
#[derive(Debug)]
pub struct ModelViewData {
    pub mesh_items: Vec<Rc<MeshItem>>,
    pub file_path: String,
}

/// One file of the asset folder.
#[derive(Debug, Clone)]
pub struct AssetFile {
    pub name: String,
    pub path: String,
}

impl AssetFile {
    /// The file's type, by its extension; the caller has checked that
    /// the file is of a supported type.
    pub fn get_file_type(&self) -> (r: EFileType)
        requires
            crate::file_type::spec_file_type_of_path(self.path@) is Some,
        ensures
            Some(r) == crate::file_type::spec_file_type_of_path(self.path@),
    {
        EFileType::from_path(self.path.as_str()).unwrap()
    }
}

/// One folder of the asset tree, with its files and subfolders.
#[derive(Debug)]
pub struct AssetFolder {
    pub name: String,
    pub path: String,
    pub files: Vec<AssetFile>,
    pub folders: Vec<AssetFolder>,
}

/// What a click in the asset view selected.
#[derive(Debug)]
pub enum EClickItemType {
    Folder(AssetFolder),
    File(AssetFile),
    SingleClickFile(AssetFile),
    CreateTexture(AssetFile),
    Back,
}

} // verus!
