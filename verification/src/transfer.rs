//! The files of a request, as they lie on disk and as they travel from the
//! source of a migration to its destination.

use crate::text::{decimal_digits, write_bytes, write_unsigned};
use vstd::prelude::*;
use vstd::string::StringSliceAdditionalSpecFns;

verus! {

/// A file of a request.
#[derive(Clone, Copy, Debug, PartialEq, Eq, Structural)]
pub enum Member {
    /// `module.wasm`: the code.
    Module,
    /// `main_memory.b`: the main memory at the last checkpoint.
    MainMemory,
    /// `checkpoint_memory.b`: the variables saved at the last checkpoint.
    CheckpointMemory,
}

impl Member {
    /// The name of the file.
    pub open spec fn spec_name(self) -> Seq<u8> {
        match self {
            Member::Module => "module.wasm".spec_bytes(),
            Member::MainMemory => "main_memory.b".spec_bytes(),
            Member::CheckpointMemory => "checkpoint_memory.b".spec_bytes(),
        }
    }

    /// The name of the file.
    pub fn name(&self) -> (name: &'static [u8])
        ensures
            name@ == self.spec_name(),
    {
        match self {
            Member::Module => "module.wasm".as_bytes(),
            Member::MainMemory => "main_memory.b".as_bytes(),
            Member::CheckpointMemory => "checkpoint_memory.b".as_bytes(),
        }
    }
}

/// The files that the archive of a request holds: the module, then each
/// memory that there is.
pub open spec fn members(has_main_memory: bool, has_checkpoint_memory: bool) -> Seq<Member> {
    seq![Member::Module] + (if has_main_memory {
        seq![Member::MainMemory]
    } else {
        Seq::empty()
    }) + (if has_checkpoint_memory {
        seq![Member::CheckpointMemory]
    } else {
        Seq::empty()
    })
}

/// The files to put into the archive of a request, given which of its
/// memories exist.
pub fn archive_members(has_main_memory: bool, has_checkpoint_memory: bool) -> (files: Vec<Member>)
    ensures
        files@ == members(has_main_memory, has_checkpoint_memory),
{
    let mut files: Vec<Member> = Vec::new();
    files.push(Member::Module);
    if has_main_memory {
        files.push(Member::MainMemory);
    }
    if has_checkpoint_memory {
        files.push(Member::CheckpointMemory);
    }
    assert(files@ =~= members(has_main_memory, has_checkpoint_memory));
    files
}

/// `<application>_<request>_req`
pub open spec fn directory_text(application_index: usize, request_index: usize) -> Seq<u8> {
    decimal_digits(application_index as nat) + "_".spec_bytes() + decimal_digits(
        request_index as nat,
    ) + "_req".spec_bytes()
}

/// `<application>_<request>_req.zip`
pub open spec fn archive_text(application_index: usize, request_index: usize) -> Seq<u8> {
    directory_text(application_index, request_index) + ".zip".spec_bytes()
}

/// The name of the directory that holds the files of a request.
pub fn directory_name(application_index: usize, request_index: usize) -> (name: Vec<u8>)
    ensures
        name@ == directory_text(application_index, request_index),
{
    let mut name: Vec<u8> = Vec::new();
    write_unsigned(application_index as u64, &mut name);
    write_bytes("_".as_bytes(), &mut name);
    write_unsigned(request_index as u64, &mut name);
    write_bytes("_req".as_bytes(), &mut name);
    assert(name@ =~= directory_text(application_index, request_index));
    name
}

/// The name of the archive in which the files of a request travel.
pub fn archive_name(application_index: usize, request_index: usize) -> (name: Vec<u8>)
    ensures
        name@ == archive_text(application_index, request_index),
{
    let mut name: Vec<u8> = directory_name(application_index, request_index);
    write_bytes(".zip".as_bytes(), &mut name);
    name
}

} // verus!
