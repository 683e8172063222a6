//! The files of a folder that has no folders in it.

use vstd::prelude::*;

use crate::name_table::NameTable;

verus! {

/// The open files of a folder, by their names. `F` is what an open file is
/// known by.
#[derive(Debug)]
pub struct FlatFolderMetadata<F> {
    files: NameTable<F>,
}

impl<F> View for FlatFolderMetadata<F> {
    type V = Map<Seq<char>, F>;

    closed spec fn view(&self) -> Map<Seq<char>, F> {
        self.files@
    }
}

impl<F> FlatFolderMetadata<F> {
    /// No name occurs twice.
    pub closed spec fn wf(self) -> bool {
        self.files.wf()
    }

    /// A folder without files.
    pub fn new() -> (folder: Self)
        ensures
            folder.wf(),
            folder@ == Map::<Seq<char>, F>::empty(),
    {
        FlatFolderMetadata { files: NameTable::new() }
    }

    /// Notes a file, in place of one of the same name.
    pub fn add_file(&mut self, file_name: String, file_handler: F)
        requires
            old(self).wf(),
        ensures
            final(self).wf(),
            final(self)@ == old(self)@.insert(file_name@, file_handler),
    {
        self.files.insert(file_name, file_handler);
    }

    /// Takes a file out.
    pub fn remove_file(&mut self, file_name: &str) -> (file: Option<F>)
        requires
            old(self).wf(),
        ensures
            final(self).wf(),
            final(self)@ == old(self)@.remove(file_name@),
            match file {
                Some(f) => old(self)@.dom().contains(file_name@) && f == old(self)@[file_name@],
                None => !old(self)@.dom().contains(file_name@),
            },
    {
        self.files.remove(file_name)
    }

    /// The file of that name.
    pub fn get_file(&self, file_name: &str) -> (file: Option<&F>)
        requires
            self.wf(),
        ensures
            match file {
                Some(f) => self@.dom().contains(file_name@) && *f == self@[file_name@],
                None => !self@.dom().contains(file_name@),
            },
    {
        self.files.get(file_name)
    }

    /// The file of that name, to be changed in place.
    pub fn get_file_mut(&mut self, file_name: &str) -> (file: Option<&mut F>)
        requires
            old(self).wf(),
        ensures
            final(self).wf(),
            match file {
                Some(f) => {
                    &&& old(self)@.dom().contains(file_name@)
                    &&& *f == old(self)@[file_name@]
                    &&& final(self)@ == old(self)@.insert(file_name@, *final(f))
                },
                None => !old(self)@.dom().contains(file_name@) && final(self)@ == old(self)@,
            },
    {
        self.files.get_mut(file_name)
    }
}

} // verus!
