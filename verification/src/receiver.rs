//! The receiving side of the protocol, as a state machine.
//!
//! The program that owns the connection asks the machine what to do next:
//! read a number of bytes, or store a file of a given size at a given path.
//! It performs that work and hands back what it read, or how many bytes it
//! copied. The machine decides everything else: whether a single file or a
//! directory arrives, how many files to expect, where each one goes, and
//! when a file arrived short.

use vstd::prelude::*;
use vstd::slice::slice_subrange;
use crate::wire::{
    append_bytes, be_encode, be_value, decode_be, lemma_be_value_bound, lemma_decode_encode,
    lemma_radix_pow_4, lemma_radix_pow_8,
};
use crate::sender::{directory_transfer, kind_byte, planned_files, record, records, single_transfer, wire_name_spec};

verus! {

/// `name` without the `/` characters it starts with.
pub open spec fn strip_leading_slashes(name: Seq<u8>) -> Seq<u8>
    decreases name.len(),
{
    if name.len() > 0 && name[0] == 0x2f {
        strip_leading_slashes(name.drop_first())
    } else {
        name
    }
}

/// Where a received name lands under `base`: the name is always appended
/// to `base` (any `/` it starts with is dropped, so it cannot leave the
/// destination), with a `/` between them unless `base` is empty or ends
/// with one.
pub open spec fn join_spec(base: Seq<u8>, name: Seq<u8>) -> Seq<u8> {
    let rel = strip_leading_slashes(name);
    if base.len() == 0 || base.last() == 0x2f {
        base + rel
    } else {
        base + seq![0x2fu8] + rel
    }
}

/// Joins a received file name to the destination directory `base`.
pub fn join_destination(base: &[u8], name: &[u8]) -> (path: Vec<u8>)
    ensures
        path@ == join_spec(base@, name@),
{
    let mut start: usize = 0;
    assert(name@.skip(0) =~= name@);
    while start < name.len() && name[start] == 0x2fu8
        invariant
            start <= name@.len(),
            strip_leading_slashes(name@) == strip_leading_slashes(name@.skip(start as int)),
        decreases name@.len() - start,
    {
        assert(name@.skip(start as int)[0] == name@[start as int]);
        assert(name@.skip(start as int).drop_first() =~= name@.skip(start + 1));
        start = start + 1;
    }
    let rel = slice_subrange(name, start, name.len());
    assert(rel@ =~= name@.skip(start as int));
    let mut out: Vec<u8> = Vec::new();
    append_bytes(&mut out, base);
    if base.len() > 0 && base[base.len() - 1] != 0x2fu8 {
        out.push(0x2fu8);
    }
    append_bytes(&mut out, rel);
    assert(out@ =~= join_spec(base@, name@));
    out
}

/// Why a transfer was refused.
#[derive(PartialEq, Eq, Structural, Debug, Clone, Copy)]
pub enum ReceiveError {
    /// The connection gave fewer bytes of a file than its header announced.
    Incomplete { expected: u64, written: u64 },
}

/// Where the receiver stands, in terms of values.
pub enum StageView {
    /// Waiting for the kind byte.
    Kind,
    /// Waiting for the eight bytes of the file count.
    Count,
    /// Waiting for the four bytes of a name's length; `remaining` files are still due.
    NameLen { remaining: nat },
    /// Waiting for a name of `len` bytes.
    Name { remaining: nat, len: nat },
    /// Waiting for the eight bytes of the content length of the file `name`.
    Size { remaining: nat, name: Seq<u8> },
    /// Waiting for the news of how many of `size` content bytes were stored.
    Copy { remaining: nat, size: nat },
    /// All files arrived.
    Done,
    /// A file arrived short; nothing more is read.
    Failed,
}

/// What the receiver asks of the program that drives it, in terms of values.
pub enum ActionView {
    Read(nat),
    Store(Seq<u8>, nat),
    Finish,
    Fail(ReceiveError),
}

/// How many bytes the receiver waits for in `stage`, if it waits for bytes.
pub open spec fn read_len(stage: StageView) -> Option<nat> {
    match stage {
        StageView::Kind => Some(1),
        StageView::Count => Some(8),
        StageView::NameLen { .. } => Some(4),
        StageView::Name { len, .. } => Some(len),
        StageView::Size { .. } => Some(8),
        _ => None,
    }
}

/// The next stage and action once the bytes the receiver asked for arrived.
pub open spec fn step_bytes(base: Seq<u8>, stage: StageView, bytes: Seq<u8>) -> (StageView, ActionView) {
    match stage {
        StageView::Kind => if bytes[0] != 1 {
            (StageView::Count, ActionView::Read(8))
        } else {
            (StageView::NameLen { remaining: 1 }, ActionView::Read(4))
        },
        StageView::Count => {
            let q = be_value(bytes);
            if q == 0 {
                (StageView::Done, ActionView::Finish)
            } else {
                (StageView::NameLen { remaining: q }, ActionView::Read(4))
            }
        },
        StageView::NameLen { remaining } => {
            let len = be_value(bytes);
            (StageView::Name { remaining, len }, ActionView::Read(len))
        },
        StageView::Name { remaining, .. } => (StageView::Size { remaining, name: bytes }, ActionView::Read(8)),
        StageView::Size { remaining, name } => {
            let size = be_value(bytes);
            (StageView::Copy { remaining, size }, ActionView::Store(join_spec(base, name), size))
        },
        _ => (stage, ActionView::Finish),
    }
}

/// The next stage and action once `written` content bytes were stored.
pub open spec fn step_copied(stage: StageView, written: nat) -> (StageView, ActionView) {
    match stage {
        StageView::Copy { remaining, size } => if written != size {
            (StageView::Failed, ActionView::Fail(ReceiveError::Incomplete { expected: size as u64, written: written as u64 }))
        } else if remaining <= 1 {
            (StageView::Done, ActionView::Finish)
        } else {
            (StageView::NameLen { remaining: (remaining - 1) as nat }, ActionView::Read(4))
        },
        _ => (stage, ActionView::Finish),
    }
}

/// What a receiver in `stage` does with the bytes `input` that arrive on the
/// connection, over at most `fuel` reads: the stage it ends in, and the files
/// it stores, each as (path, content), in order.
#[verifier::opaque]
pub open spec fn run(base: Seq<u8>, stage: StageView, input: Seq<u8>, fuel: nat) -> (StageView, Seq<(Seq<u8>, Seq<u8>)>)
    decreases fuel,
{
    if fuel == 0 {
        (stage, Seq::empty())
    } else {
        match read_len(stage) {
            Some(n) => if n <= input.len() {
                let (next, action) = step_bytes(base, stage, input.take(n as int));
                let rest = input.skip(n as int);
                match action {
                    ActionView::Store(path, size) => if size <= rest.len() {
                        let (after, _) = step_copied(next, size);
                        let (last, files) = run(base, after, rest.skip(size as int), (fuel - 1) as nat);
                        (last, seq![(path, rest.take(size as int))] + files)
                    } else {
                        (next, Seq::empty())
                    },
                    _ => run(base, next, rest, (fuel - 1) as nat),
                }
            } else {
                (stage, Seq::empty())
            },
            None => (stage, Seq::empty()),
        }
    }
}


/// Where the receiver stands.
pub enum Stage {
    Kind,
    Count,
    NameLen { remaining: u64 },
    Name { remaining: u64, len: usize },
    Size { remaining: u64, name: Vec<u8> },
    Copy { remaining: u64, size: u64 },
    Done,
    Failed,
}

impl View for Stage {
    type V = StageView;

    open spec fn view(&self) -> StageView {
        match self {
            Stage::Kind => StageView::Kind,
            Stage::Count => StageView::Count,
            Stage::NameLen { remaining } => StageView::NameLen { remaining: *remaining as nat },
            Stage::Name { remaining, len } => StageView::Name { remaining: *remaining as nat, len: *len as nat },
            Stage::Size { remaining, name } => StageView::Size { remaining: *remaining as nat, name: name@ },
            Stage::Copy { remaining, size } => StageView::Copy { remaining: *remaining as nat, size: *size as nat },
            Stage::Done => StageView::Done,
            Stage::Failed => StageView::Failed,
        }
    }
}

/// What the receiver asks of the program that drives it.
pub enum Action {
    /// Read exactly this many bytes from the connection and hand them back.
    Read(usize),
    /// Create the file at `path` (and the directories above it), copy at
    /// most `size` bytes of the connection into it, and hand back how many
    /// were copied.
    Store { path: Vec<u8>, size: u64 },
    /// The transfer is complete.
    Finish,
    /// The transfer failed.
    Fail(ReceiveError),
}

impl View for Action {
    type V = ActionView;

    open spec fn view(&self) -> ActionView {
        match self {
            Action::Read(n) => ActionView::Read(*n as nat),
            Action::Store { path, size } => ActionView::Store(path@, *size as nat),
            Action::Finish => ActionView::Finish,
            Action::Fail(e) => ActionView::Fail(*e),
        }
    }
}

/// Receives one transfer into a destination directory.
pub struct Receiver {
    base: Vec<u8>,
    stage: Stage,
}

impl Receiver {
    /// The destination directory.
    pub closed spec fn base_view(&self) -> Seq<u8> {
        self.base@
    }

    /// Where the receiver stands.
    pub closed spec fn stage(&self) -> StageView {
        self.stage@
    }

    /// A receiver for the destination `base`, and its first request: the
    /// one byte that says whether a file or a directory arrives.
    pub fn new(base: &[u8]) -> (r: (Receiver, Action))
        ensures
            r.0.base_view() == base@,
            r.0.stage() == StageView::Kind,
            r.1@ == ActionView::Read(1),
    {
        let mut b: Vec<u8> = Vec::new();
        append_bytes(&mut b, base);
        assert(b@ =~= base@);
        (Receiver { base: b, stage: Stage::Kind }, Action::Read(1))
    }

    /// How many bytes the receiver waits for, if it waits for bytes.
    pub fn expected_read(&self) -> (n: Option<usize>)
        ensures
            match read_len(self.stage()) {
                Some(k) => n == Some(k as usize) && k == n.unwrap() as nat,
                None => n is None,
            },
    {
        match &self.stage {
            Stage::Kind => Some(1),
            Stage::Count => Some(8),
            Stage::NameLen { .. } => Some(4),
            Stage::Name { len, .. } => Some(*len),
            Stage::Size { .. } => Some(8),
            _ => None,
        }
    }

    /// Whether the receiver waits to hear how many bytes of a file were stored.
    pub fn awaiting_copy(&self) -> (b: bool)
        ensures
            b == self.stage() is Copy,
    {
        match &self.stage {
            Stage::Copy { .. } => true,
            _ => false,
        }
    }

    /// Takes the bytes the receiver asked for, and says what to do next.
    /// The kind byte `1` announces a single file, any other value a
    /// directory, whose file count follows (a count of zero finishes the
    /// transfer at once); each file's name is joined to the destination.
    pub fn on_bytes(&mut self, bytes: &[u8]) -> (action: Action)
        requires
            read_len(old(self).stage()) == Some(bytes@.len()),
        ensures
            (final(self).stage(), action@) == step_bytes(old(self).base_view(), old(self).stage(), bytes@),
            final(self).base_view() == old(self).base_view(),
    {
        let mut stage = Stage::Failed;
        std::mem::swap(&mut stage, &mut self.stage);
        match stage {
            Stage::Kind => {
                if bytes[0] != 1u8 {
                    self.stage = Stage::Count;
                    Action::Read(8)
                } else {
                    self.stage = Stage::NameLen { remaining: 1 };
                    Action::Read(4)
                }
            },
            Stage::Count => {
                let q = decode_be(bytes);
                if q == 0 {
                    self.stage = Stage::Done;
                    Action::Finish
                } else {
                    self.stage = Stage::NameLen { remaining: q };
                    Action::Read(4)
                }
            },
            Stage::NameLen { remaining } => {
                proof {
                    lemma_be_value_bound(bytes@);
                    lemma_radix_pow_4();
                }
                let len = decode_be(bytes) as usize;
                self.stage = Stage::Name { remaining, len };
                Action::Read(len)
            },
            Stage::Name { remaining, .. } => {
                let mut name: Vec<u8> = Vec::new();
                append_bytes(&mut name, bytes);
                assert(name@ =~= bytes@);
                self.stage = Stage::Size { remaining, name };
                Action::Read(8)
            },
            Stage::Size { remaining, name } => {
                let size = decode_be(bytes);
                let path = join_destination(self.base.as_slice(), name.as_slice());
                self.stage = Stage::Copy { remaining, size };
                Action::Store { path, size }
            },
            Stage::Copy { remaining, size } => {
                self.stage = Stage::Copy { remaining, size };
                Action::Finish
            },
            Stage::Done => {
                self.stage = Stage::Done;
                Action::Finish
            },
            Stage::Failed => {
                self.stage = Stage::Failed;
                Action::Finish
            },
        }
    }

    /// Takes the number of content bytes that were stored for the file just
    /// announced, and says what to do next: fail when it falls short of the
    /// announced size, finish after the last file, or read the next name.
    pub fn on_copied(&mut self, written: u64) -> (action: Action)
        requires
            old(self).stage() is Copy,
        ensures
            (final(self).stage(), action@) == step_copied(old(self).stage(), written as nat),
            final(self).base_view() == old(self).base_view(),
    {
        let mut stage = Stage::Failed;
        std::mem::swap(&mut stage, &mut self.stage);
        match stage {
            Stage::Copy { remaining, size } => {
                if written != size {
                    self.stage = Stage::Failed;
                    Action::Fail(ReceiveError::Incomplete { expected: size, written })
                } else if remaining <= 1 {
                    self.stage = Stage::Done;
                    Action::Finish
                } else {
                    self.stage = Stage::NameLen { remaining: remaining - 1 };
                    Action::Read(4)
                }
            },
            other => {
                self.stage = other;
                Action::Finish
            },
        }
    }
}

/// The stage a receiver reaches once a file of a transfer with `remaining`
/// files still due was stored in full.
pub open spec fn after_file(remaining: nat) -> StageView {
    if remaining <= 1 {
        StageView::Done
    } else {
        StageView::NameLen { remaining: (remaining - 1) as nat }
    }
}

/// One read that does not ask to store a file: the receiver moves on with
/// the rest of the input.
proof fn lemma_run_read(base: Seq<u8>, stage: StageView, input: Seq<u8>, fuel: nat, n: nat)
    requires
        fuel > 0,
        read_len(stage) == Some(n),
        n <= input.len(),
        !(step_bytes(base, stage, input.take(n as int)).1 is Store),
    ensures
        run(base, stage, input, fuel) == run(
            base,
            step_bytes(base, stage, input.take(n as int)).0,
            input.skip(n as int),
            (fuel - 1) as nat,
        ),
{
    reveal(run);
}

/// One read that asks to store `size` bytes: the receiver stores the next
/// `size` bytes under the path and moves on past them.
proof fn lemma_run_store(base: Seq<u8>, stage: StageView, input: Seq<u8>, fuel: nat, n: nat, path: Seq<u8>, size: nat)
    requires
        fuel > 0,
        read_len(stage) == Some(n),
        n <= input.len(),
        step_bytes(base, stage, input.take(n as int)).1 == ActionView::Store(path, size),
        size <= input.len() - n,
    ensures
        run(base, stage, input, fuel) == ({
            let rest = input.skip(n as int);
            let after = step_copied(step_bytes(base, stage, input.take(n as int)).0, size).0;
            let (last, files) = run(base, after, rest.skip(size as int), (fuel - 1) as nat);
            (last, seq![(path, rest.take(size as int))] + files)
        }),
{
    reveal(run);
}

/// A receiver that waits for nothing more stays as it is.
proof fn lemma_run_idle(base: Seq<u8>, stage: StageView, input: Seq<u8>, fuel: nat)
    requires
        read_len(stage) is None,
    ensures
        run(base, stage, input, fuel) == (stage, Seq::<(Seq<u8>, Seq<u8>)>::empty()),
{
    reveal(run);
}

/// One file frame (name length, name, content length, content), read from
/// the stage that waits for a name's length, is received whole: its content
/// is stored under its name joined to the destination, and the receiver
/// moves on to the next file, or finishes after the last one. (Names of
/// 2^32 bytes or more do not fit their length field.)
#[verifier::spinoff_prover]
pub proof fn law_file_frame(
    base: Seq<u8>,
    remaining: nat,
    name: Seq<u8>,
    content: Seq<u8>,
    tail: Seq<u8>,
    fuel: nat,
)
    requires
        name.len() < 0x1_0000_0000,
        content.len() < 0x1_0000_0000_0000_0000,
        fuel >= 3,
    ensures
        run(base, StageView::NameLen { remaining }, record(name, content) + tail, fuel) == ({
            let (last, files) = run(base, after_file(remaining), tail, (fuel - 3) as nat);
            (last, seq![(join_spec(base, name), content)] + files)
        }),
{
    let len_bytes = be_encode(name.len(), 4);
    let size_bytes = be_encode(content.len(), 8);
    lemma_radix_pow_4();
    lemma_radix_pow_8();
    lemma_decode_encode(name.len(), 4);
    lemma_decode_encode(content.len(), 8);
    let input = record(name, content) + tail;
    assert(input =~= len_bytes + (name + (size_bytes + (content + tail))));
    let rest1 = input.skip(4);
    assert(input.take(4) =~= len_bytes);
    assert(rest1 =~= name + (size_bytes + (content + tail)));
    let rest2 = rest1.skip(name.len() as int);
    assert(rest1.take(name.len() as int) =~= name);
    assert(rest2 =~= size_bytes + (content + tail));
    let rest3 = rest2.skip(8);
    assert(rest2.take(8) =~= size_bytes);
    assert(rest3 =~= content + tail);
    assert(rest3.take(content.len() as int) =~= content);
    assert(rest3.skip(content.len() as int) =~= tail);
    let s0 = StageView::NameLen { remaining };
    let s1 = StageView::Name { remaining, len: name.len() };
    let s2 = StageView::Size { remaining, name };
    lemma_run_read(base, s0, input, fuel, 4);
    lemma_run_read(base, s1, rest1, (fuel - 1) as nat, name.len());
    let path = join_spec(base, name);
    assert(step_bytes(base, s2, rest2.take(8)).1 == ActionView::Store(path, content.len()));
    lemma_run_store(base, s2, rest2, (fuel - 2) as nat, 8, path, content.len());
}

/// The records of `files`, read from the stage that waits for the first
/// name's length with as many files due, store each file under its joined
/// name, in order, and end with the whole transfer received.
proof fn lemma_run_records(base: Seq<u8>, files: Seq<(Seq<u8>, Seq<u8>)>, fuel: nat)
    requires
        files.len() >= 1,
        forall|i: int| 0 <= i < files.len() ==> (#[trigger] files[i]).0.len() < 0x1_0000_0000,
        forall|i: int| 0 <= i < files.len() ==> (#[trigger] files[i]).1.len() < 0x1_0000_0000_0000_0000,
        fuel >= 3 * files.len(),
    ensures
        run(base, StageView::NameLen { remaining: files.len() }, records(files), fuel)
            == (StageView::Done, stored_files(base, files)),
    decreases files.len(),
{
    let first = files[0];
    let rest = files.drop_first();
    assert(records(files) == record(first.0, first.1) + records(rest));
    law_file_frame(base, files.len(), first.0, first.1, records(rest), fuel);
    if files.len() == 1 {
        assert(records(rest) =~= Seq::<u8>::empty());
        lemma_run_idle(base, StageView::Done, records(rest), (fuel - 3) as nat);
        assert(stored_files(base, files) =~= seq![(join_spec(base, first.0), first.1)]);
        assert(seq![(join_spec(base, first.0), first.1)] + Seq::<(Seq<u8>, Seq<u8>)>::empty()
            =~= seq![(join_spec(base, first.0), first.1)]);
    } else {
        assert forall|i: int| 0 <= i < rest.len() implies (#[trigger] rest[i]).0.len() < 0x1_0000_0000
            && rest[i].1.len() < 0x1_0000_0000_0000_0000 by {
            assert(rest[i] == files[i + 1]);
        }
        lemma_run_records(base, rest, (fuel - 3) as nat);
        assert(stored_files(base, files) =~= seq![(join_spec(base, first.0), first.1)] + stored_files(base, rest));
    }
}

/// Each file of `files` as the receiver stores it under `base`: (joined path, content).
pub open spec fn stored_files(base: Seq<u8>, files: Seq<(Seq<u8>, Seq<u8>)>) -> Seq<(Seq<u8>, Seq<u8>)> {
    files.map_values(|f: (Seq<u8>, Seq<u8>)| (join_spec(base, f.0), f.1))
}

/// A single file, sent as the sender sends it, is received whole: the
/// receiver stores its content under its name joined to the destination, and
/// finishes. (Names of 2^32 bytes or more do not fit their length field.)
pub proof fn law_single_file_round_trip(base: Seq<u8>, name: Seq<u8>, content: Seq<u8>, fuel: nat)
    requires
        name.len() < 0x1_0000_0000,
        content.len() < 0x1_0000_0000_0000_0000,
        fuel >= 4,
    ensures
        run(base, StageView::Kind, single_transfer(name, content), fuel)
            == (StageView::Done, seq![(join_spec(base, name), content)]),
{
    let input = single_transfer(name, content);
    let body = record(name, content);
    assert(input.take(1) =~= seq![1u8]);
    assert(input.skip(1) =~= body + Seq::<u8>::empty());
    lemma_run_read(base, StageView::Kind, input, fuel, 1);
    law_file_frame(base, 1, name, content, Seq::empty(), (fuel - 1) as nat);
    lemma_run_idle(base, StageView::Done, Seq::empty(), (fuel - 4) as nat);
    assert(seq![(join_spec(base, name), content)] + Seq::<(Seq<u8>, Seq<u8>)>::empty()
        =~= seq![(join_spec(base, name), content)]);
}

/// A directory, sent as the sender sends it, is received whole: every file
/// is stored under its relative name joined to the destination, in the
/// order sent, and the receiver finishes; an empty directory finishes at
/// once with nothing stored. (Names of 2^32 bytes or more do not fit their
/// length field.)
pub proof fn law_directory_round_trip(base: Seq<u8>, files: Seq<(Seq<u8>, Seq<u8>)>, fuel: nat)
    requires
        files.len() < 0x1_0000_0000_0000_0000,
        forall|i: int| 0 <= i < files.len() ==> (#[trigger] files[i]).0.len() < 0x1_0000_0000,
        forall|i: int| 0 <= i < files.len() ==> (#[trigger] files[i]).1.len() < 0x1_0000_0000_0000_0000,
        fuel >= 3 * files.len() + 2,
    ensures
        run(base, StageView::Kind, directory_transfer(files), fuel) == (StageView::Done, stored_files(base, files)),
{
    let input = directory_transfer(files);
    let count = be_encode(files.len(), 8);
    lemma_radix_pow_8();
    lemma_decode_encode(files.len(), 8);
    assert(input.take(1) =~= seq![0u8]);
    let rest1 = input.skip(1);
    assert(rest1 =~= count + records(files));
    assert(rest1.take(8) =~= count);
    assert(rest1.skip(8) =~= records(files));
    lemma_run_read(base, StageView::Kind, input, fuel, 1);
    lemma_run_read(base, StageView::Count, rest1, (fuel - 1) as nat, 8);
    if files.len() == 0 {
        lemma_run_idle(base, StageView::Done, rest1.skip(8), (fuel - 2) as nat);
        assert(stored_files(base, files) =~= Seq::<(Seq<u8>, Seq<u8>)>::empty());
    } else {
        lemma_run_records(base, files, (fuel - 2) as nat);
    }
}

/// How a transfer opens: the kind byte of a single file leads straight to
/// its one file; the kind byte of a directory leads to its count, and a
/// count written as the sender writes it is read back as that count (zero
/// finishing the transfer at once).
pub proof fn law_quantity_read_back(base: Seq<u8>, count: nat)
    requires
        count < 0x1_0000_0000_0000_0000,
    ensures
        step_bytes(base, StageView::Kind, seq![kind_byte(true)])
            == (StageView::NameLen { remaining: 1 }, ActionView::Read(4)),
        step_bytes(base, StageView::Kind, seq![kind_byte(false)]) == (StageView::Count, ActionView::Read(8)),
        step_bytes(base, StageView::Count, be_encode(count, 8)) == (if count == 0 {
            (StageView::Done, ActionView::Finish)
        } else {
            (StageView::NameLen { remaining: count }, ActionView::Read(4))
        }),
{
    lemma_radix_pow_8();
    lemma_decode_encode(count, 8);
}


/// A directory sent by plan (kind byte, the planned count, then each file's
/// frame under its planned name) is the directory transfer of the planned
/// files, and is received whole: each file of the walk is stored, in order,
/// under its wire name joined to the destination. (Relative names of 2^32
/// bytes or more do not fit their length field.)
pub proof fn law_directory_plan_received(
    base: Seq<u8>,
    relatives: Seq<Seq<u8>>,
    contents: Seq<Seq<u8>>,
    fuel: nat,
)
    requires
        relatives.len() == contents.len() < 0x1_0000_0000_0000_0000,
        forall|i: int| 0 <= i < relatives.len() ==> (#[trigger] relatives[i]).len() < 0x1_0000_0000,
        forall|i: int| 0 <= i < contents.len() ==> (#[trigger] contents[i]).len() < 0x1_0000_0000_0000_0000,
        fuel >= 3 * relatives.len() + 2,
    ensures
        seq![kind_byte(false)] + be_encode(relatives.len(), 8) + records(planned_files(relatives, contents))
            == directory_transfer(planned_files(relatives, contents)),
        run(base, StageView::Kind, directory_transfer(planned_files(relatives, contents)), fuel)
            == (StageView::Done, stored_files(base, planned_files(relatives, contents))),
{
    let files = planned_files(relatives, contents);
    assert forall|i: int| 0 <= i < files.len() implies (#[trigger] files[i]).0.len() < 0x1_0000_0000
        && files[i].1.len() < 0x1_0000_0000_0000_0000 by {
        assert(files[i].0 == wire_name_spec(relatives[i]));
        assert(contents[i].len() < 0x1_0000_0000_0000_0000);
    }
    law_directory_round_trip(base, files, fuel);
}


/// Dropping the `/` characters a name starts with leaves the rest of the
/// name as it is: the first `k` bytes, all `/`, are removed and nothing else.
proof fn lemma_strip_leading_slashes(name: Seq<u8>) -> (k: int)
    ensures
        0 <= k <= name.len(),
        forall|i: int| 0 <= i < k ==> name[i] == 0x2f,
        k == name.len() || name[k] != 0x2f,
        strip_leading_slashes(name) == name.skip(k),
    decreases name.len(),
{
    if name.len() > 0 && name[0] == 0x2f {
        let rest = name.drop_first();
        let j = lemma_strip_leading_slashes(rest);
        assert(rest.skip(j) =~= name.skip(j + 1));
        assert forall|i: int| 0 <= i < j + 1 implies name[i] == 0x2f by {
            if i > 0 {
                assert(name[i] == rest[i - 1]);
            }
        }
        if j + 1 < name.len() {
            assert(name[j + 1] == rest[j]);
        }
        j + 1
    } else {
        assert(name.skip(0) =~= name);
        0
    }
}

/// Where a received name is stored: the destination, then (unless the
/// destination is empty or already ends with one) a single `/`, then the
/// name with only its leading `/` characters removed, every other byte kept
/// in place. In particular a name that does not start with `/`, under a
/// destination that does not end with one, lands at `base ++ "/" ++ name`.
pub proof fn law_join_appends_name(base: Seq<u8>, name: Seq<u8>)
    ensures
        exists|k: int|
            #![trigger name.skip(k)]
            0 <= k <= name.len() && (forall|i: int| 0 <= i < k ==> name[i] == 0x2f) && (k == name.len()
                || name[k] != 0x2f) && join_spec(base, name) == (if base.len() == 0 || base.last() == 0x2f {
                base + name.skip(k)
            } else {
                base + seq![0x2fu8] + name.skip(k)
            }),
        (name.len() == 0 || name[0] != 0x2f) && base.len() > 0 && base.last() != 0x2f ==> join_spec(base, name)
            == base + seq![0x2fu8] + name,
{
    let k = lemma_strip_leading_slashes(name);
    if name.len() == 0 || name[0] != 0x2f {
        assert(k == 0);
        assert(name.skip(0) =~= name);
    }
}

} // verus!
