//! A tab: the binaries of one application for several architectures, with
//! the metadata that says where it may be installed.

use crate::board_settings::BoardSettings;
use crate::errors::{TabError, TockloaderError};
use crate::text::{hex_number, spec_hex_number};
use vstd::prelude::*;
use vstd::string::StringSliceAdditionalSpecFns;

verus! {

/// One binary of a tab, under the name it has in the archive. The name
/// starts with the architecture that the binary is built for.
#[derive(Clone, Debug)]
pub struct TbfFile {
    pub filename: String,
    pub data: Vec<u8>,
}

/// What the metadata of a tab says.
#[derive(Clone, Debug)]
pub struct Metadata {
    /// The least kernel version that the application runs on, major then
    /// minor, if the metadata names one.
    pub minimum_tock_kernel_version: Option<(u32, u32)>,
    /// The boards that the application is meant for, if it is meant for
    /// certain boards only.
    pub only_for_boards: Option<Vec<String>>,
}

/// An opened tab.
#[derive(Clone, Debug)]
pub struct Tab {
    pub metadata: Metadata,
    pub tbf_files: Vec<TbfFile>,
}

/// Whether `text` starts with `prefix`.
pub open spec fn spec_starts_with(text: Seq<u8>, prefix: Seq<u8>) -> bool {
    prefix.len() <= text.len() && text.subrange(0, prefix.len() as int) == prefix
}

/// Whether `text` ends with `suffix`.
pub open spec fn spec_ends_with(text: Seq<u8>, suffix: Seq<u8>) -> bool {
    suffix.len() <= text.len() && text.subrange(text.len() - suffix.len(), text.len() as int)
        == suffix
}

/// The index of the first of `files`, from `from` on, whose name starts with
/// `prefix`; the number of files if there is none.
pub open spec fn spec_first_match(files: Seq<TbfFile>, prefix: Seq<u8>, from: int) -> int
    decreases files.len() - from,
{
    if from < 0 || from >= files.len() {
        files.len() as int
    } else if spec_starts_with(vstd::utf8::encode_utf8(files[from].filename@), prefix) {
        from
    } else {
        spec_first_match(files, prefix, from + 1)
    }
}

/// Whether `boards` names `board`.
pub open spec fn spec_names_board(boards: Seq<String>, board: Seq<char>) -> bool {
    exists|i: int| 0 <= i < boards.len() && (#[trigger] boards[i])@ == board
}

/// Whether `text` starts with `prefix`.
pub fn starts_with(text: &[u8], prefix: &[u8]) -> (b: bool)
    ensures
        b == spec_starts_with(text@, prefix@),
{
    if prefix.len() > text.len() {
        return false;
    }
    let mut i: usize = 0;
    while i < prefix.len()
        invariant
            i <= prefix.len() <= text.len(),
            text@.subrange(0, i as int) == prefix@.subrange(0, i as int),
        decreases prefix.len() - i,
    {
        if text[i] != prefix[i] {
            assert(text@.subrange(0, prefix.len() as int)[i as int] != prefix@[i as int]);
            return false;
        }
        i = i + 1;
        assert(text@.subrange(0, i as int) =~= text@.subrange(0, i - 1).push(text@[i - 1]));
        assert(prefix@.subrange(0, i as int) =~= prefix@.subrange(0, i - 1).push(prefix@[i - 1]));
    }
    assert(prefix@.subrange(0, prefix.len() as int) =~= prefix@);
    true
}

/// Whether `text` ends with `suffix`.
pub fn ends_with(text: &[u8], suffix: &[u8]) -> (b: bool)
    ensures
        b == spec_ends_with(text@, suffix@),
{
    if suffix.len() > text.len() {
        return false;
    }
    let tail: &[u8] = vstd::slice::slice_subrange(text, text.len() - suffix.len(), text.len());
    let b: bool = starts_with(tail, suffix);
    assert(tail@.subrange(0, suffix.len() as int) =~= tail@);
    b
}

/// The name of the file that holds the metadata of a tab.
pub open spec fn spec_metadata_name() -> Seq<u8> {
    seq![0x6Du8, 0x65, 0x74, 0x61, 0x64, 0x61, 0x74, 0x61, 0x2E, 0x74, 0x6F, 0x6D, 0x6C]
}

/// The ending of the name of a binary: `.tbf`.
pub open spec fn spec_tbf_ending() -> Seq<u8> {
    seq![0x2Eu8, 0x74, 0x62, 0x66]
}

/// Whether a file of this name holds the metadata of a tab: whether the
/// name is `metadata.toml`.
pub fn is_metadata_name(name: &str) -> (b: bool)
    ensures
        b == (name.spec_bytes() == spec_metadata_name()),
{
    let bytes: &[u8] = name.as_bytes();
    let expected: [u8; 13] = [
        0x6D,
        0x65,
        0x74,
        0x61,
        0x64,
        0x61,
        0x74,
        0x61,
        0x2E,
        0x74,
        0x6F,
        0x6D,
        0x6C,
    ];
    assert(expected@ =~= spec_metadata_name());
    let b: bool = bytes.len() == 13 && starts_with(bytes, expected.as_slice());
    assert(bytes@.len() == 13 ==> bytes@.subrange(0, 13) =~= bytes@);
    b
}

/// Whether a file of this name holds a binary: whether the name ends with
/// `.tbf`.
pub fn is_tbf_name(name: &str) -> (b: bool)
    ensures
        b == spec_ends_with(name.spec_bytes(), spec_tbf_ending()),
{
    let ending: [u8; 4] = [0x2E, 0x74, 0x62, 0x66];
    assert(ending@ =~= spec_tbf_ending());
    ends_with(name.as_bytes(), ending.as_slice())
}

/// What the name of a binary says: the architecture it is built for, and
/// the flash and RAM addresses it is built for, if it is built for fixed
/// addresses.
#[derive(Clone, Debug)]
pub struct TbfFileName {
    pub arch: Vec<u8>,
    pub fixed: Option<(u64, u64)>,
}

/// The index of the last dot in `text`, or -1 if it holds none.
pub open spec fn spec_last_dot(text: Seq<u8>) -> int
    decreases text.len(),
{
    if text.len() == 0 {
        -1
    } else if text.last() == 0x2E {
        text.len() - 1
    } else {
        spec_last_dot(text.drop_last())
    }
}

/// The address that a part of a file name writes: `0x` and a hexadecimal
/// number.
pub open spec fn spec_address_part(part: Seq<u8>) -> Option<u64> {
    if part.len() >= 2 && part[0] == 0x30 && part[1] == 0x78 {
        spec_hex_number(part.skip(2))
    } else {
        None
    }
}

/// What the name of a binary says, or nothing if it does not end with
/// `.tbf`.
///
/// A name is `{arch}.tbf`, or `{arch}.0x{flash}.0x{ram}.tbf` for a binary
/// built for fixed addresses. Where the two parts before the ending are not
/// both addresses, all of the name before the ending is the architecture.
pub open spec fn spec_parse_tbf_name(name: Seq<u8>) -> Option<(Seq<u8>, Option<(u64, u64)>)> {
    if !spec_ends_with(name, spec_tbf_ending()) {
        None
    } else {
        let stem = name.take(name.len() - 4);
        let ram_dot = spec_last_dot(stem);
        let head = stem.take(ram_dot);
        let flash_dot = spec_last_dot(head);
        if ram_dot < 0 || flash_dot < 0 {
            Some((stem, None))
        } else {
            match (
                spec_address_part(head.skip(flash_dot + 1)),
                spec_address_part(stem.skip(ram_dot + 1)),
            ) {
                (Some(flash), Some(ram)) => Some((head.take(flash_dot), Some((flash, ram)))),
                _ => Some((stem, None)),
            }
        }
    }
}

/// Whether a binary of this name is one to offer for a board of
/// architecture `arch` whose applications start at `start_address` and
/// whose RAM for applications starts at `ram_start_address`: the name says
/// that architecture, and the addresses it says, if any, lie at or behind
/// those two.
pub open spec fn spec_name_suits(
    name: Seq<u8>,
    arch: Seq<u8>,
    start_address: u64,
    ram_start_address: u64,
) -> bool {
    match spec_parse_tbf_name(name) {
        None => false,
        Some((said, fixed)) => said == arch && match fixed {
            None => true,
            Some((flash, ram)) => flash >= start_address && ram >= ram_start_address,
        },
    }
}

/// Finds the last dot in `text`.
pub fn last_dot(text: &[u8]) -> (at: Option<usize>)
    ensures
        match at {
            Some(i) => spec_last_dot(text@) == i && i < text@.len(),
            None => spec_last_dot(text@) == -1,
        },
{
    let mut end: usize = text.len();
    assert(text@.take(end as int) =~= text@);
    while end > 0
        invariant
            end <= text.len(),
            spec_last_dot(text@.take(end as int)) == spec_last_dot(text@),
        decreases end,
    {
        if text[end - 1] == 0x2E {
            return Some(end - 1);
        }
        proof {
            assert(text@.take(end as int).drop_last() =~= text@.take(end - 1));
        }
        end = end - 1;
    }
    assert(text@.take(0) =~= Seq::<u8>::empty());
    None
}

/// Reads the address that a part of a file name writes.
pub fn address_part(part: &[u8]) -> (address: Option<u64>)
    ensures
        address == spec_address_part(part@),
{
    if part.len() >= 2 && part[0] == 0x30 && part[1] == 0x78 {
        hex_number(vstd::slice::slice_subrange(part, 2, part.len()))
    } else {
        None
    }
}

/// Reads what the name of a binary says.
pub fn parse_tbf_name(name: &[u8]) -> (r: Option<TbfFileName>)
    ensures
        match r {
            Some(said) => spec_parse_tbf_name(name@) == Some((said.arch@, said.fixed)),
            None => spec_parse_tbf_name(name@) is None,
        },
{
    let ending: [u8; 4] = [0x2E, 0x74, 0x62, 0x66];
    assert(ending@ =~= spec_tbf_ending());
    if !ends_with(name, ending.as_slice()) {
        return None;
    }
    let stem: &[u8] = vstd::slice::slice_subrange(name, 0, name.len() - 4);
    let whole = TbfFileName { arch: vstd::slice::slice_to_vec(stem), fixed: None };
    let ram_dot: usize = match last_dot(stem) {
        None => {
            return Some(whole);
        },
        Some(at) => at,
    };
    let head: &[u8] = vstd::slice::slice_subrange(stem, 0, ram_dot);
    let flash_dot: usize = match last_dot(head) {
        None => {
            return Some(whole);
        },
        Some(at) => at,
    };
    let flash: Option<u64> = address_part(
        vstd::slice::slice_subrange(head, flash_dot + 1, head.len()),
    );
    let ram: Option<u64> = address_part(
        vstd::slice::slice_subrange(stem, ram_dot + 1, stem.len()),
    );
    match (flash, ram) {
        (Some(flash), Some(ram)) => Some(
            TbfFileName {
                arch: vstd::slice::slice_to_vec(vstd::slice::slice_subrange(head, 0, flash_dot)),
                fixed: Some((flash, ram)),
            },
        ),
        _ => Some(whole),
    }
}

/// Whether a binary of this name is one to offer for the board.
pub fn name_suits(name: &[u8], arch: &[u8], start_address: u64, ram_start_address: u64) -> (b:
    bool)
    ensures
        b == spec_name_suits(name@, arch@, start_address, ram_start_address),
{
    match parse_tbf_name(name) {
        None => false,
        Some(said) => {
            let same: bool = said.arch.len() == arch.len() && starts_with(
                said.arch.as_slice(),
                arch,
            );
            assert(said.arch@.len() == arch@.len() ==> said.arch@.subrange(
                0,
                arch@.len() as int,
            ) =~= said.arch@);
            same && match said.fixed {
                None => true,
                Some((flash, ram)) => flash >= start_address && ram >= ram_start_address,
            }
        },
    }
}

impl Tab {
    /// The tab with this metadata and these binaries.
    pub fn new(metadata: Metadata, tbf_files: Vec<TbfFile>) -> (tab: Tab)
        ensures
            tab.metadata == metadata,
            tab.tbf_files == tbf_files,
    {
        Tab { metadata, tbf_files }
    }

    /// Makes a tab of what an archive holds: its metadata, if it has any,
    /// and its files. A tab without metadata is refused.
    pub fn from_parts(metadata: Option<Metadata>, tbf_files: Vec<TbfFile>) -> (r: Result<
        Tab,
        TockloaderError,
    >)
        ensures
            match r {
                Ok(tab) => metadata == Some(tab.metadata) && tab.tbf_files == tbf_files,
                Err(e) => metadata is None && e matches TockloaderError::Tab(
                    TabError::MissingMetadata,
                ),
            },
    {
        match metadata {
            Some(metadata) => Ok(Tab { metadata, tbf_files }),
            None => Err(TockloaderError::Tab(TabError::MissingMetadata)),
        }
    }

    /// Whether the application runs on the kernel version given. The
    /// version that boards report cannot be relied on, so the answer is
    /// always yes.
    pub fn is_compatible_with_kernel_verison(&self, _kernel_version: u32) -> (b: bool)
        ensures
            b,
    {
        true
    }

    /// Whether the application may be installed on `board`: whether the
    /// metadata names no boards at all, or names this one.
    pub fn is_compatible_with_board(&self, board: &String) -> (b: bool)
        ensures
            b == match self.metadata.only_for_boards {
                Some(boards) => spec_names_board(boards@, board@),
                None => true,
            },
    {
        match &self.metadata.only_for_boards {
            None => true,
            Some(boards) => {
                let mut i: usize = 0;
                while i < boards.len()
                    invariant
                        i <= boards.len(),
                        self.metadata.only_for_boards == Some(*boards),
                        forall|k: int| 0 <= k < i ==> (#[trigger] boards@[k])@ != board@,
                    decreases boards.len() - i,
                {
                    if boards[i] == *board {
                        return true;
                    }
                    i = i + 1;
                }
                false
            },
        }
    }

    /// The binary for `arch`: the data of the first file whose name starts
    /// with `arch`. Fails if there is no such file.
    pub fn extract_binary(&self, arch: &str) -> (r: Result<Vec<u8>, TockloaderError>)
        ensures
            match r {
                Ok(data) => {
                    let found = spec_first_match(self.tbf_files@, arch.spec_bytes(), 0);
                    found < self.tbf_files@.len() && data@ == self.tbf_files@[found].data@
                },
                Err(TockloaderError::Tab(TabError::MissingBinary(name))) => spec_first_match(
                    self.tbf_files@,
                    arch.spec_bytes(),
                    0,
                ) == self.tbf_files@.len() && name@ == arch@,
                Err(_) => false,
            },
    {
        let mut i: usize = 0;
        while i < self.tbf_files.len()
            invariant
                i <= self.tbf_files@.len(),
                spec_first_match(self.tbf_files@, arch.spec_bytes(), i as int) == spec_first_match(
                    self.tbf_files@,
                    arch.spec_bytes(),
                    0,
                ),
            decreases self.tbf_files.len() - i,
        {
            if starts_with(self.tbf_files[i].filename.as_str().as_bytes(), arch.as_bytes()) {
                let data: Vec<u8> = vstd::slice::slice_to_vec(self.tbf_files[i].data.as_slice());
                return Ok(data);
            }
            i = i + 1;
        }
        Err(TockloaderError::Tab(TabError::MissingBinary(arch.to_owned())))
    }

    /// The binaries to offer for the board: the indices, in ascending
    /// order, of the files whose names say the architecture of the board
    /// and, if they say addresses, addresses at or behind the start of the
    /// board's applications and `ram_start_address`. None at all for a
    /// board without an architecture.
    pub fn filter_tbfs(&self, settings: &BoardSettings, ram_start_address: u64) -> (found: Vec<
        usize,
    >)
        ensures
            forall|k: int| 0 <= k < found@.len() ==> (#[trigger] found@[k]) < self.tbf_files@.len(),
            forall|k: int, l: int| 0 <= k < l < found@.len() ==> found@[k] < found@[l],
            forall|i: int|
                0 <= i < self.tbf_files@.len() ==> (found@.contains(i as usize) <==> (
                settings.arch matches Some(arch) && spec_name_suits(
                    vstd::utf8::encode_utf8((#[trigger] self.tbf_files@[i]).filename@),
                    vstd::utf8::encode_utf8(arch@),
                    settings.start_address,
                    ram_start_address,
                ))),
    {
        let mut found: Vec<usize> = Vec::new();
        let arch: &String = match &settings.arch {
            None => {
                return found;
            },
            Some(arch) => arch,
        };
        let mut i: usize = 0;
        while i < self.tbf_files.len()
            invariant
                i <= self.tbf_files@.len(),
                settings.arch == Some(*arch),
                forall|k: int| 0 <= k < found@.len() ==> (#[trigger] found@[k]) < i,
                forall|k: int, l: int| 0 <= k < l < found@.len() ==> found@[k] < found@[l],
                forall|j: int|
                    0 <= j < i ==> (found@.contains(j as usize) <==> spec_name_suits(
                        vstd::utf8::encode_utf8((#[trigger] self.tbf_files@[j]).filename@),
                        vstd::utf8::encode_utf8(arch@),
                        settings.start_address,
                        ram_start_address,
                    )),
            decreases self.tbf_files.len() - i,
        {
            let ghost before = found@;
            let suits: bool = name_suits(
                self.tbf_files[i].filename.as_str().as_bytes(),
                arch.as_str().as_bytes(),
                settings.start_address,
                ram_start_address,
            );
            if suits {
                found.push(i);
                assert(found@[found@.len() - 1] == i);
            }
            proof {
                assert forall|j: int| 0 <= j < i + 1 implies (found@.contains(j as usize)
                    <==> spec_name_suits(
                    vstd::utf8::encode_utf8((#[trigger] self.tbf_files@[j]).filename@),
                    vstd::utf8::encode_utf8(arch@),
                    settings.start_address,
                    ram_start_address,
                )) by {
                    if before.contains(j as usize) {
                        let k = choose|k: int| 0 <= k < before.len() && before[k] == j as usize;
                        assert(found@[k] == j as usize);
                    }
                    if found@.contains(j as usize) && !before.contains(j as usize) {
                        let k = choose|k: int| 0 <= k < found@.len() && found@[k] == j as usize;
                        if k < before.len() {
                            assert(before[k] == j as usize);
                        }
                    }
                }
            }
            i = i + 1;
        }
        found
    }
}

} // verus!
