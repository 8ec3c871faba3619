//! The sending side of the protocol: the bytes that go on the wire before
//! each piece of file content, and how a directory walk treats its entries.
//!
//! A transfer starts with one kind byte (`1` for a single file, `0` for a
//! directory). A directory then sends the number of its files as eight
//! big-endian bytes. Each file goes as a record: the length of its name in
//! four big-endian bytes, the name, the length of its content in eight
//! big-endian bytes, and the content.

use vstd::prelude::*;
use crate::wire::{append_bytes, be_encode, encode_be};
use vstd::slice::slice_subrange;

verus! {

/// The byte that announces what follows: `1` for a single file, `0` for a directory.
pub open spec fn kind_byte(is_file: bool) -> u8 {
    if is_file {
        1
    } else {
        0
    }
}

/// What precedes a file's content: name length (4 bytes), name, content length (8 bytes).
pub open spec fn record_header(name: Seq<u8>, size: nat) -> Seq<u8> {
    be_encode(name.len(), 4) + name + be_encode(size, 8)
}

/// One file on the wire: its header, then its content.
pub open spec fn record(name: Seq<u8>, content: Seq<u8>) -> Seq<u8> {
    record_header(name, content.len()) + content
}

/// The records of `files`, one after the other, in order.
pub open spec fn records(files: Seq<(Seq<u8>, Seq<u8>)>) -> Seq<u8>
    decreases files.len(),
{
    if files.len() == 0 {
        Seq::empty()
    } else {
        record(files[0].0, files[0].1) + records(files.drop_first())
    }
}

/// The whole stream that sends one file under `name`.
pub open spec fn single_transfer(name: Seq<u8>, content: Seq<u8>) -> Seq<u8> {
    seq![kind_byte(true)] + record(name, content)
}

/// The whole stream that sends a directory whose files are `files`
/// (relative name, content), in the order of the walk.
pub open spec fn directory_transfer(files: Seq<(Seq<u8>, Seq<u8>)>) -> Seq<u8> {
    seq![kind_byte(false)] + be_encode(files.len(), 8) + records(files)
}

/// A name as it goes on the wire: every `\` turned into `/`.
pub open spec fn wire_name_spec(name: Seq<u8>) -> Seq<u8> {
    name.map_values(|b: u8| if b == 0x5c { 0x2fu8 } else { b })
}

/// The kind byte that opens a transfer: `[1]` for a file, `[0]` for a directory.
pub fn itfile(is_file: bool) -> (out: Vec<u8>)
    ensures
        out@ == seq![kind_byte(is_file)],
{
    let mut out: Vec<u8> = Vec::new();
    if is_file {
        out.push(1u8);
    } else {
        out.push(0u8);
    }
    out
}

/// The number of files of a directory transfer, as eight big-endian bytes.
pub fn send_quantity(count: usize) -> (out: Vec<u8>)
    ensures
        out@ == be_encode(count as nat, 8),
{
    encode_be(count as u64, 8)
}

/// The header that goes before a file's content: the name's length in four
/// big-endian bytes (its low four bytes, should it not fit), the name, and
/// the content's length in eight big-endian bytes.
pub fn send_file(relative: &[u8], file_len: u64) -> (out: Vec<u8>)
    ensures
        out@ == record_header(relative@, file_len as nat),
{
    let mut out = encode_be(relative.len() as u64, 4);
    append_bytes(&mut out, relative);
    let size = encode_be(file_len, 8);
    append_bytes(&mut out, size.as_slice());
    out
}

/// The name under which a file of a directory goes on the wire: its path
/// relative to the directory, with every `\` turned into `/`.
pub fn wire_name(relative: &[u8]) -> (out: Vec<u8>)
    ensures
        out@ == wire_name_spec(relative@),
{
    let mut out: Vec<u8> = Vec::new();
    let mut i: usize = 0;
    while i < relative.len()
        invariant
            i <= relative@.len(),
            out@ == wire_name_spec(relative@.take(i as int)),
        decreases relative@.len() - i,
    {
        let b = relative[i];
        if b == 0x5cu8 {
            out.push(0x2fu8);
        } else {
            out.push(b);
        }
        i = i + 1;
        assert(out@ =~= wire_name_spec(relative@.take(i as int)));
    }
    assert(relative@.take(i as int) =~= relative@);
    out
}

/// What a directory walk does with one entry.
#[derive(PartialEq, Eq, Structural, Debug, Clone, Copy)]
pub enum EntryKind {
    /// A symbolic link: left out, whatever it points to.
    Skip,
    /// A directory: walked into.
    Descend,
    /// Anything else: sent as a file.
    Send,
}

/// Decides what the walk does with an entry: symbolic links are skipped,
/// directories are walked into, everything else is sent.
pub fn classify_entry(is_symlink: bool, is_dir: bool) -> (kind: EntryKind)
    ensures
        is_symlink ==> kind == EntryKind::Skip,
        !is_symlink && is_dir ==> kind == EntryKind::Descend,
        !is_symlink && !is_dir ==> kind == EntryKind::Send,
{
    if is_symlink {
        EntryKind::Skip
    } else if is_dir {
        EntryKind::Descend
    } else {
        EntryKind::Send
    }
}


/// The files of a directory transfer, by their relative names as the walk
/// found them and their contents: each goes under its wire name.
pub open spec fn planned_files(relatives: Seq<Seq<u8>>, contents: Seq<Seq<u8>>) -> Seq<(Seq<u8>, Seq<u8>)> {
    Seq::new(relatives.len(), |i: int| (wire_name_spec(relatives[i]), contents[i]))
}

/// What a directory transfer sends before its files, and the name each file
/// goes under, worked out from one list of the files the walk found.
pub struct DirectoryPlan {
    /// The file count, as eight big-endian bytes.
    pub count: Vec<u8>,
    /// The wire name of each file, in the order of the list.
    pub names: Vec<Vec<u8>>,
}

/// Plans a directory transfer from the relative names of its files, in the
/// order they are sent: the count is the number of those files, and the
/// `i`-th file goes under the wire name of the `i`-th relative name.
pub fn plan_directory(relatives: &Vec<Vec<u8>>) -> (plan: DirectoryPlan)
    ensures
        plan.count@ == be_encode(relatives@.len(), 8),
        plan.names@.len() == relatives@.len(),
        forall|i: int| 0 <= i < relatives@.len() ==> (#[trigger] plan.names@[i])@ == wire_name_spec(relatives@[i]@),
{
    let count = send_quantity(relatives.len());
    let mut names: Vec<Vec<u8>> = Vec::new();
    let mut i: usize = 0;
    while i < relatives.len()
        invariant
            i <= relatives@.len(),
            names@.len() == i,
            forall|k: int| 0 <= k < i ==> (#[trigger] names@[k])@ == wire_name_spec(relatives@[k]@),
        decreases relatives@.len() - i,
    {
        names.push(wire_name(relatives[i].as_slice()));
        i = i + 1;
    }
    DirectoryPlan { count, names }
}


/// Whether a path segment names an entry: it is neither empty nor `.`.
pub open spec fn is_named(seg: Seq<u8>) -> bool {
    seg.len() > 0 && seg != seq![0x2eu8]
}

/// The name a final segment gives: none for `..`, else the segment.
pub open spec fn segment_name(seg: Seq<u8>) -> Option<Seq<u8>> {
    if seg == seq![0x2eu8, 0x2eu8] {
        None
    } else {
        Some(seg)
    }
}

/// The last segment of `path` that names an entry, read from the end;
/// `seg` is the part of the current segment already read.
pub open spec fn last_name(path: Seq<u8>, seg: Seq<u8>) -> Option<Seq<u8>>
    decreases path.len(),
{
    if path.len() == 0 || path.last() == 0x2f {
        if is_named(seg) {
            segment_name(seg)
        } else if path.len() == 0 {
            None
        } else {
            last_name(path.drop_last(), Seq::empty())
        }
    } else {
        last_name(path.drop_last(), seq![path.last()] + seg)
    }
}

/// The file name of a Unix path: its last component, where empty and `.`
/// segments do not count; none when there is no such component or it is `..`.
pub open spec fn file_name_spec(path: Seq<u8>) -> Option<Seq<u8>> {
    last_name(path, Seq::empty())
}

/// The name a single file is sent under: the last component of its path.
pub fn file_name(path: &[u8]) -> (name: Option<Vec<u8>>)
    ensures
        match file_name_spec(path@) {
            Some(n) => name matches Some(v) && v@ == n,
            None => name is None,
        },
{
    let mut i: usize = path.len();
    let mut end: usize = path.len();
    assert(path@.take(i as int) =~= path@);
    assert(path@.subrange(i as int, end as int) =~= Seq::<u8>::empty());
    loop
        invariant
            i <= end <= path@.len(),
            file_name_spec(path@) == last_name(path@.take(i as int), path@.subrange(i as int, end as int)),
        decreases i,
    {
        let ghost seg = path@.subrange(i as int, end as int);
        let ghost before = path@.take(i as int);
        if i == 0 || path[i - 1] == 0x2fu8 {
            assert(before.len() == 0 || before.last() == path@[i - 1]);
            let len = end - i;
            let named = len > 0 && !(len == 1 && path[i] == 0x2eu8);
            proof {
                if len == 1 {
                    assert(seg =~= seq![path@[i as int]]);
                }
                if len == 0 {
                    assert(seg.len() == 0);
                }
                assert(named == is_named(seg)) by {
                    if len == 1 && seg == seq![0x2eu8] {
                        assert(seg[0] == path@[i as int]);
                    }
                }
            }
            if named {
                if len == 2 && path[i] == 0x2eu8 && path[i + 1] == 0x2eu8 {
                    assert(seg =~= seq![0x2eu8, 0x2eu8]);
                    return None;
                }
                assert(seg != seq![0x2eu8, 0x2eu8]) by {
                    if seg == seq![0x2eu8, 0x2eu8] {
                        assert(seg[0] == path@[i as int] && seg[1] == path@[i + 1]);
                    }
                }
                let mut out: Vec<u8> = Vec::new();
                append_bytes(&mut out, slice_subrange(path, i, end));
                assert(out@ =~= seg);
                return Some(out);
            }
            if i == 0 {
                return None;
            }
            assert(before.drop_last() =~= path@.take(i - 1));
            i = i - 1;
            end = i;
            assert(path@.subrange(i as int, end as int) =~= Seq::<u8>::empty());
        } else {
            assert(before.last() == path@[i - 1]);
            assert(before.drop_last() =~= path@.take(i - 1));
            assert(seq![path@[i - 1]] + seg =~= path@.subrange(i - 1, end as int));
            i = i - 1;
        }
    }
}


/// A wire name has the length of the relative name it comes from; at each
/// position it holds `/` where the relative name holds `\`, and the
/// relative name's own byte everywhere else.
pub proof fn law_wire_name_bytes(name: Seq<u8>)
    ensures
        wire_name_spec(name).len() == name.len(),
        forall|i: int|
            0 <= i < name.len() ==> #[trigger] wire_name_spec(name)[i] == (if name[i] == 0x5c {
                0x2fu8
            } else {
                name[i]
            }),
{
}

/// Reading back over a segment without `/`: the reader has gathered the
/// whole segment in front of what it already held.
proof fn lemma_last_name_segment(path: Seq<u8>, seg: Seq<u8>, acc: Seq<u8>)
    requires
        forall|i: int| 0 <= i < seg.len() ==> seg[i] != 0x2f,
    ensures
        last_name(path + seg, acc) == last_name(path, seg + acc),
    decreases seg.len(),
{
    if seg.len() > 0 {
        let p2 = path + seg;
        assert(p2.last() == seg.last());
        assert(p2.drop_last() =~= path + seg.drop_last());
        assert(seq![seg.last()] + acc =~= seq![p2.last()] + acc);
        lemma_last_name_segment(path, seg.drop_last(), seq![seg.last()] + acc);
        assert(seg.drop_last() + (seq![seg.last()] + acc) =~= seg + acc);
    } else {
        assert(path + seg =~= path);
        assert(seg + acc =~= acc);
    }
}

/// The file name of `dir/name`, and of `name` alone, is `name` itself, byte
/// for byte, when `name` is not empty, holds no `/`, and is neither `.` nor
/// `..`.
pub proof fn law_file_name_is_last_component(dir: Seq<u8>, name: Seq<u8>)
    requires
        name.len() > 0,
        forall|i: int| 0 <= i < name.len() ==> name[i] != 0x2f,
        name != seq![0x2eu8],
        name != seq![0x2eu8, 0x2eu8],
    ensures
        file_name_spec(dir + seq![0x2fu8] + name) == Some(name),
        file_name_spec(name) == Some(name),
{
    let prefix = dir + seq![0x2fu8];
    lemma_last_name_segment(prefix, name, Seq::empty());
    assert(name + Seq::<u8>::empty() =~= name);
    assert(prefix.last() == 0x2f);
    lemma_last_name_segment(Seq::empty(), name, Seq::empty());
    assert(Seq::<u8>::empty() + name =~= name);
}

} // verus!
